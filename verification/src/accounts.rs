//! The account orchestrator: credentials and the exact request sequences of
//! each banking operation. The remote application is stateful, so every
//! fetch re-enters the account menu before asking for data; the code that
//! actually sends the requests lives outside the library and follows these
//! plans step by step.

use vstd::prelude::*;

use crate::clients::Endpoints;
use crate::clients::endpoint_url;
use crate::clients::pair_views;
use crate::cookies::Uri;
use crate::dates::Date;
use crate::text::dec_digits;
use crate::text::is_space;
use crate::text::zero_pad;

verus! {

/// How one planned request is to be sent.
#[derive(Clone, Copy, Debug, PartialEq, Eq, Structural)]
pub enum Method {
    Get,
    Post,
}

/// One request the orchestrator wants sent: the method, the request URI,
/// and, for a form post, the form fields to URL-encode into the body.
pub struct PlannedRequest {
    pub method: Method,
    pub uri: Uri,
    pub form: Option<Vec<(String, String)>>,
}

/// The views of an optional form-field list.
pub open spec fn form_views(f: &Option<Vec<(String, String)>>) -> Option<
    Seq<(Seq<char>, Seq<char>)>,
> {
    match f {
        Some(v) => Some(pair_views(v@)),
        None => None,
    }
}

impl PlannedRequest {
    /// The body to send with this request: the form fields URL-encoded, or
    /// nothing for a bodyless request.
    pub fn encoded_body(&self) -> (r: Option<String>)
        ensures
            match r {
                Some(body) => self.form matches Some(f) && body@ == crate::clients::form_urlencoded_of(
                    pair_views(f@),
                ),
                None => self.form is None,
            },
    {
        match &self.form {
            Some(pairs) => Some(crate::clients::encode_form(pairs)),
            None => None,
        }
    }
}

/// `s` with every whitespace character removed: how the IP echo service's
/// reply is cleaned into the claimed client IP.
pub open spec fn without_spaces(s: Seq<char>) -> Seq<char>
    decreases s.len(),
{
    if s.len() == 0 {
        s
    } else {
        let r = without_spaces(s.drop_last());
        if is_space(s.last()) {
            r
        } else {
            r.push(s.last())
        }
    }
}

/// Cleans the IP echo service's reply into the claimed client IP.
pub fn extract_ip(resp: &str) -> (r: String)
    ensures
        r@ == without_spaces(resp@),
{
    let v = crate::text::chars_of(resp);
    let mut kept: Vec<char> = Vec::new();
    let mut i: usize = 0;
    proof {
        assert(kept@ =~= without_spaces(v@.take(0)));
    }
    while i < v.len()
        invariant
            i <= v@.len(),
            kept@ == without_spaces(v@.take(i as int)),
        decreases v.len() - i,
    {
        proof {
            assert(v@.take(i + 1 as int).drop_last() =~= v@.take(i as int));
            assert(v@.take(i + 1 as int).last() == v@[i as int]);
        }
        let c = v[i];
        if !crate::text::space_char(c) {
            kept.push(c);
        }
        i = i + 1;
    }
    proof {
        assert(v@.take(v@.len() as int) =~= v@);
    }
    crate::text::string_of(&kept)
}

/// The form fields of the login post: the credentials, the login action,
/// the claimed client IP (twice, as the site expects), and the mobile flag.
pub open spec fn login_param_list(user: Seq<char>, pass: Seq<char>, ip: Seq<char>) -> Seq<
    (Seq<char>, Seq<char>),
> {
    seq![
        ("value(user_id)"@, user),
        ("value(pswd)"@, pass),
        ("value(Submit)"@, "LOGIN"@),
        ("value(actions)"@, "login"@),
        ("value(user_ip)"@, ip),
        ("user_ip"@, ip),
        ("value(mobile)"@, "true"@),
        ("mobile"@, "true"@),
    ]
}

/// The form fields of the statement request: the fixed radio and action
/// fields, and the date range split across six zero-padded fields.
pub open spec fn statement_param_list(start: Date, end: Date) -> Seq<(Seq<char>, Seq<char>)> {
    seq![
        ("r1"@, "1"@),
        ("value(D1)"@, "0"@),
        ("value(startDt)"@, zero_pad(dec_digits(start.day as int), 2)),
        ("value(startMt)"@, zero_pad(dec_digits(start.month as int), 2)),
        ("value(startYr)"@, zero_pad(dec_digits(start.year as int), 4)),
        ("value(endDt)"@, zero_pad(dec_digits(end.day as int), 2)),
        ("value(endMt)"@, zero_pad(dec_digits(end.month as int), 2)),
        ("value(endYr)"@, zero_pad(dec_digits(end.year as int), 4)),
        ("value(actions)"@, "acctstmtview"@),
    ]
}

/// The credentials of one bank account.
pub struct BcaAccount {
    pub user: String,
    pub password: String,
}

impl BcaAccount {
    /// An account holder with the given credentials.
    pub fn new(user: String, password: String) -> (r: BcaAccount)
        ensures
            r.user == user,
            r.password == password,
    {
        BcaAccount { user, password }
    }

    /// The request that asks the IP echo service for the public IP the
    /// login will claim.
    pub fn pub_ip_request(&self) -> (r: PlannedRequest)
        ensures
            r.method is Get,
            !r.uri.https && r.uri.host@ == "icanhazip.com"@ && r.uri.path@ == "/"@,
            r.form is None,
    {
        PlannedRequest { method: Method::Get, uri: endpoint_url(Endpoints::PubIp), form: None }
    }

    /// The two requests of one login round, once the claimed IP is known:
    /// fetch the login form, then post the credentials to the
    /// authentication action. Login is always re-run in full, because the
    /// site resets its menu context on every successful login post.
    pub fn login_requests(&self, ip: &str) -> (r: Vec<PlannedRequest>)
        ensures
            r@.len() == 2,
            r@[0].method is Get,
            r@[0].uri.https && r@[0].uri.host@ == "m.klikbca.com"@ && r@[0].uri.path@
                == "/login.jsp"@,
            r@[0].form is None,
            r@[1].method is Post,
            r@[1].uri.https && r@[1].uri.host@ == "m.klikbca.com"@ && r@[1].uri.path@
                == "/authentication.do"@,
            form_views(&r@[1].form) == Some(login_param_list(self.user@, self.password@, ip@)),
    {
        let mut params: Vec<(String, String)> = Vec::new();
        params.push((String::from_str("value(user_id)"), self.user.clone()));
        params.push((String::from_str("value(pswd)"), self.password.clone()));
        params.push((String::from_str("value(Submit)"), String::from_str("LOGIN")));
        params.push((String::from_str("value(actions)"), String::from_str("login")));
        params.push((String::from_str("value(user_ip)"), ip.to_owned()));
        params.push((String::from_str("user_ip"), ip.to_owned()));
        params.push((String::from_str("value(mobile)"), String::from_str("true")));
        params.push((String::from_str("mobile"), String::from_str("true")));
        proof {
            assert(pair_views(params@) =~= login_param_list(self.user@, self.password@, ip@));
        }
        let mut r: Vec<PlannedRequest> = Vec::new();
        r.push(
            PlannedRequest { method: Method::Get, uri: endpoint_url(Endpoints::Login), form: None },
        );
        r.push(
            PlannedRequest {
                method: Method::Post,
                uri: endpoint_url(Endpoints::Authentication),
                form: Some(params),
            },
        );
        r
    }

    /// The post that re-enters the account menu; the site discards the
    /// menu context between operations, so every fetch starts here.
    pub fn menu_request(&self) -> (r: PlannedRequest)
        ensures
            r.method is Post,
            r.uri.https && r.uri.host@ == "m.klikbca.com"@ && r.uri.path@ == "/accountstmt.do"@,
            form_views(&r.form) == Some(seq![("value(actions)"@, "menu"@)]),
    {
        let mut params: Vec<(String, String)> = Vec::new();
        params.push((String::from_str("value(actions)"), String::from_str("menu")));
        proof {
            assert(pair_views(params@) =~= seq![("value(actions)"@, "menu"@)]);
        }
        PlannedRequest {
            method: Method::Post,
            uri: endpoint_url(Endpoints::AccountStatement),
            form: Some(params),
        }
    }

    /// The bodyless post that asks for the balance page.
    pub fn saldo_request(&self) -> (r: PlannedRequest)
        ensures
            r.method is Post,
            r.uri.https && r.uri.host@ == "m.klikbca.com"@ && r.uri.path@
                == "/balanceinquiry.do"@,
            r.form is None,
    {
        PlannedRequest {
            method: Method::Post,
            uri: endpoint_url(Endpoints::BalanceInquiry),
            form: None,
        }
    }

    /// The two posts of one statement fetch: select the account-statement
    /// action, then ask for the statement of the date range.
    pub fn statement_requests(&self, start: &Date, end: &Date) -> (r: Vec<PlannedRequest>)
        ensures
            r@.len() == 2,
            r@[0].method is Post,
            r@[0].uri.https && r@[0].uri.host@ == "m.klikbca.com"@ && r@[0].uri.path@
                == "/accountstmt.do"@,
            form_views(&r@[0].form) == Some(seq![("value(actions)"@, "acct_stmt"@)]),
            r@[1].method is Post,
            r@[1].uri.https && r@[1].uri.host@ == "m.klikbca.com"@ && r@[1].uri.path@
                == "/accountstmt.do"@,
            form_views(&r@[1].form) == Some(statement_param_list(*start, *end)),
    {
        let mut nav: Vec<(String, String)> = Vec::new();
        nav.push((String::from_str("value(actions)"), String::from_str("acct_stmt")));
        proof {
            assert(pair_views(nav@) =~= seq![("value(actions)"@, "acct_stmt"@)]);
        }
        let mut params: Vec<(String, String)> = Vec::new();
        params.push((String::from_str("r1"), String::from_str("1")));
        params.push((String::from_str("value(D1)"), String::from_str("0")));
        params.push((String::from_str("value(startDt)"), start.day_text()));
        params.push((String::from_str("value(startMt)"), start.month_text()));
        params.push((String::from_str("value(startYr)"), start.year_text()));
        params.push((String::from_str("value(endDt)"), end.day_text()));
        params.push((String::from_str("value(endMt)"), end.month_text()));
        params.push((String::from_str("value(endYr)"), end.year_text()));
        params.push((String::from_str("value(actions)"), String::from_str("acctstmtview")));
        proof {
            assert(pair_views(params@) =~= statement_param_list(*start, *end));
        }
        let mut r: Vec<PlannedRequest> = Vec::new();
        r.push(
            PlannedRequest {
                method: Method::Post,
                uri: endpoint_url(Endpoints::AccountStatement),
                form: Some(nav),
            },
        );
        r.push(
            PlannedRequest {
                method: Method::Post,
                uri: endpoint_url(Endpoints::AccountStatement),
                form: Some(params),
            },
        );
        r
    }

    /// The request that logs the session out.
    pub fn logout_request(&self) -> (r: PlannedRequest)
        ensures
            r.method is Get,
            r.uri.https && r.uri.host@ == "m.klikbca.com"@ && r.uri.path@
                == "/authentication.do"@,
            r.form is None,
    {
        PlannedRequest {
            method: Method::Get,
            uri: endpoint_url(Endpoints::Authentication),
            form: None,
        }
    }
}

} // verus!
