//! The browser-session surface: the site's endpoints, the fixed browser
//! identity headers, form-body encoding, and the per-request cookie wiring.
//! The transport that carries the requests lives outside the library; this
//! module plans each request and absorbs each response's cookies.

use vstd::prelude::*;

use crate::cookies::CookieJar;
use crate::cookies::CookieView;
use crate::cookies::Uri;
use crate::cookies::header_text;
use crate::cookies::jar_wf;
use crate::cookies::matching_pairs;
use crate::cookies::parsed_cookies;
use crate::cookies::store_after;

verus! {

/// The site endpoints the session talks to, and the address service that
/// reports the client's public IP.
pub enum Endpoints {
    Login,
    Authentication,
    AccountStatement,
    BalanceInquiry,
    PubIp,
}

impl Uri {
    /// The URI rendered back into one URL text.
    pub fn to_url(&self) -> (r: String)
        ensures
            r@ == (if self.https {
                "https://"@
            } else {
                "http://"@
            }) + self.host@ + self.path@,
    {
        let mut s = if self.https {
            String::from_str("https://")
        } else {
            String::from_str("http://")
        };
        s.append(self.host.as_str());
        s.append(self.path.as_str());
        s
    }
}

/// The request URI of each endpoint: every banking action is an HTTPS path
/// under the one site host; the IP echo is a plain HTTP call elsewhere.
pub fn endpoint_url(e: Endpoints) -> (r: Uri)
    ensures
        match e {
            Endpoints::Login => r.https && r.host@ == "m.klikbca.com"@ && r.path@
                == "/login.jsp"@,
            Endpoints::Authentication => r.https && r.host@ == "m.klikbca.com"@ && r.path@
                == "/authentication.do"@,
            Endpoints::AccountStatement => r.https && r.host@ == "m.klikbca.com"@ && r.path@
                == "/accountstmt.do"@,
            Endpoints::BalanceInquiry => r.https && r.host@ == "m.klikbca.com"@ && r.path@
                == "/balanceinquiry.do"@,
            Endpoints::PubIp => !r.https && r.host@ == "icanhazip.com"@ && r.path@ == "/"@,
        },
{
    match e {
        Endpoints::Login => Uri::new(true, "m.klikbca.com", "/login.jsp"),
        Endpoints::Authentication => Uri::new(true, "m.klikbca.com", "/authentication.do"),
        Endpoints::AccountStatement => Uri::new(true, "m.klikbca.com", "/accountstmt.do"),
        Endpoints::BalanceInquiry => Uri::new(true, "m.klikbca.com", "/balanceinquiry.do"),
        Endpoints::PubIp => Uri::new(false, "icanhazip.com", "/"),
    }
}

/// The views of a list of name/value string pairs.
pub open spec fn pair_views(s: Seq<(String, String)>) -> Seq<(Seq<char>, Seq<char>)> {
    Seq::new(s.len(), |i: int| (s[i].0@, s[i].1@))
}

/// What the form-urlencoded body of a list of pairs is.
///
/// The encoding depends on the pairs alone; this names it, and
/// [`encode_form`] ties the name to the url crate's serializer.
pub uninterp spec fn form_urlencoded_of(pairs: Seq<(Seq<char>, Seq<char>)>) -> Seq<char>;

/// Relies on url's `form_urlencoded::Serializer` (`new`, `append_pair`,
/// `finish`): the `application/x-www-form-urlencoded` body of the pairs, a
/// function of the pairs alone.
#[verifier::external_body]
pub(crate) fn encode_form(pairs: &Vec<(String, String)>) -> (r: String)
    ensures
        r@ == form_urlencoded_of(pair_views(pairs@)),
{
    let mut ser = url::form_urlencoded::Serializer::new(String::new());
    for (k, v) in pairs.iter() {
        ser.append_pair(k, v);
    }
    ser.finish()
}

/// The fixed browser-identity headers sent on every outbound request.
pub open spec fn default_header_list() -> Seq<(Seq<char>, Seq<char>)> {
    seq![
        (
            "User-Agent"@,
            "Mozilla/5.0 (iPhone; CPU OS 10_15_4 Supplemental Update like Mac OS X) AppleWebKit/605.1.15 (KHTML, like Gecko) Version/12.1.1 Mobile/14E304 Safari/605.1.15"@,
        ),
        ("Upgrade-Insecure-Requests"@, "1"@),
        ("Origin"@, "https://m.klikbca.com"@),
        ("Host"@, "m.klikbca.com"@),
        (
            "Accept"@,
            "text/html,application/xhtml+xml,application/xml;q=0.9,image/webp,*/*;q=0.8"@,
        ),
        ("Accept-Language"@, "en-US,en;q=0.5"@),
        ("Accept-Encoding"@, "gzip, deflate, br"@),
    ]
}

/// Executable [`default_header_list`].
pub fn default_headers() -> (r: Vec<(String, String)>)
    ensures
        pair_views(r@) == default_header_list(),
{
    let mut r: Vec<(String, String)> = Vec::new();
    r.push(
        (
            String::from_str("User-Agent"),
            String::from_str(
                "Mozilla/5.0 (iPhone; CPU OS 10_15_4 Supplemental Update like Mac OS X) AppleWebKit/605.1.15 (KHTML, like Gecko) Version/12.1.1 Mobile/14E304 Safari/605.1.15",
            ),
        ),
    );
    r.push((String::from_str("Upgrade-Insecure-Requests"), String::from_str("1")));
    r.push((String::from_str("Origin"), String::from_str("https://m.klikbca.com")));
    r.push((String::from_str("Host"), String::from_str("m.klikbca.com")));
    r.push(
        (
            String::from_str("Accept"),
            String::from_str(
                "text/html,application/xhtml+xml,application/xml;q=0.9,image/webp,*/*;q=0.8",
            ),
        ),
    );
    r.push((String::from_str("Accept-Language"), String::from_str("en-US,en;q=0.5")));
    r.push((String::from_str("Accept-Encoding"), String::from_str("gzip, deflate, br")));
    proof {
        assert(pair_views(r@) =~= default_header_list());
    }
    r
}

/// The headers of one outgoing request: the fixed identity set, and, when
/// any stored cookie applies, the `Cookie` header computed from the store.
pub open spec fn request_header_list(
    jar: Seq<CookieView>,
    https: bool,
    host: Seq<char>,
    path: Seq<char>,
    now: i64,
) -> Seq<(Seq<char>, Seq<char>)> {
    if matching_pairs(jar, https, host, path, now).len() == 0 {
        default_header_list()
    } else {
        default_header_list().push(("Cookie"@, header_text(jar, https, host, path, now)))
    }
}

/// One persistent browser-like session: the cookie store that every
/// request consults and every response feeds.
pub struct Session {
    pub jar: CookieJar,
}

impl Session {
    /// A fresh session with an empty cookie store.
    pub fn new() -> (r: Session)
        ensures
            r.jar@ =~= Seq::<CookieView>::empty(),
            jar_wf(r.jar@),
    {
        Session { jar: CookieJar::new() }
    }

    /// The headers to send with a request to `uri` at time `now`.
    pub fn request_headers(&self, uri: &Uri, now: i64) -> (r: Vec<(String, String)>)
        ensures
            pair_views(r@) == request_header_list(
                self.jar@,
                uri.https,
                uri.host@,
                uri.path@,
                now,
            ),
    {
        let mut headers = default_headers();
        match self.jar.get_cookies(uri, now) {
            Some(cookie) => {
                let ghost pre = pair_views(headers@);
                headers.push((String::from_str("Cookie"), cookie));
                proof {
                    assert(pair_views(headers@) =~= pre.push(
                        ("Cookie"@, header_text(self.jar@, uri.https, uri.host@, uri.path@, now)),
                    ));
                }
            },
            None => {},
        }
        headers
    }

    /// Feeds the `Set-Cookie` headers of one response back into the store,
    /// in the context of the URI that produced the response.
    pub fn absorb_response(&mut self, set_cookies: &Vec<String>, uri: &Uri, now: i64)
        requires
            jar_wf(old(self).jar@),
        ensures
            final(self).jar@ == store_after(
                old(self).jar@,
                parsed_cookies(
                    Seq::new(set_cookies@.len(), |i: int| set_cookies@[i]@),
                    uri.host@,
                    uri.path@,
                    now,
                ),
                now,
            ),
            jar_wf(final(self).jar@),
    {
        self.jar.ingest(set_cookies, uri, now);
    }
}

} // verus!
