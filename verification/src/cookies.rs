//! An RFC 6265-style cookie store: parsing `Set-Cookie` headers, scoping
//! cookies to requests, and rendering the `Cookie` header for a request.

use vstd::prelude::*;
use vstd::pervasive::VecAdditionalExecFns;

use crate::text::char_views;
use crate::text::join_chars;
use crate::text::joined;
use crate::text::lemma_sort_lex_props;
use crate::text::sort_chars;
use crate::text::sort_lex;
use crate::text::sorted_lex;
use crate::text::all_digits;
use crate::text::chars_of;
use crate::text::dec_val;
use crate::text::ends_with;
use crate::text::ends_with_chars;
use crate::text::eq_chars;
use crate::text::eq_ignore_case_chars;
use crate::text::has_char;
use crate::text::has_char_exec;
use crate::text::is_digit;
use crate::text::lower;
use crate::text::lower_all;
use crate::text::lower_chars;
use crate::text::parse_i64_chars;
use crate::text::parse_i64_text;
use crate::text::split2;
use crate::text::split2_chars;
use crate::text::split_chars;
use crate::text::split_on;
use crate::text::starts_with;
use crate::text::starts_with_chars;
use crate::text::string_of;
use crate::text::trim;
use crate::text::trim_chars;

verus! {

/// What the cookie logic reads of a request URI: whether the scheme is
/// HTTPS, the host (empty when the URI has no authority), and the path.
pub struct Uri {
    pub https: bool,
    pub host: String,
    pub path: String,
}

impl Uri {
    /// Builds a request URI model from its three parts.
    pub fn new(https: bool, host: &str, path: &str) -> (r: Uri)
        ensures
            r.https == https,
            r.host@ == host@,
            r.path@ == path@,
    {
        Uri { https, host: host.to_owned(), path: path.to_owned() }
    }
}

/// The mathematical content of one stored cookie.
pub struct CookieView {
    pub name: Seq<char>,
    pub value: Seq<char>,
    pub domain: Seq<char>,
    pub path: Seq<char>,
    pub secure: bool,
    pub host_only: bool,
    pub expiration: Option<i64>,
}

/// One stored cookie. `domain` is kept lower-cased and without leading dots;
/// an absent `expiration` means a session cookie that never expires by time.
/// `Some(i64::MIN)` is the earliest representable expiry, used for cookies
/// that are already expired when stored (`Max-Age` of zero or less).
#[derive(Debug)]
pub struct Cookie {
    pub name: String,
    pub value: String,
    pub domain: String,
    pub path: String,
    pub secure: bool,
    pub host_only: bool,
    pub expiration: Option<i64>,
}

impl View for Cookie {
    type V = CookieView;

    open spec fn view(&self) -> CookieView {
        CookieView {
            name: self.name@,
            value: self.value@,
            domain: self.domain@,
            path: self.path@,
            secure: self.secure,
            host_only: self.host_only,
            expiration: self.expiration,
        }
    }
}

/// A dotted-decimal IPv4 octet as Rust's address parser accepts it:
/// one to three digits, no leading zero, value at most 255.
pub open spec fn is_ipv4_octet(s: Seq<char>) -> bool {
    &&& 1 <= s.len() <= 3
    &&& all_digits(s)
    &&& (s.len() > 1 ==> s[0] != '0')
    &&& dec_val(s) <= 255
}

/// A literal IPv4 address: four octets separated by dots.
pub open spec fn is_ipv4_literal(s: Seq<char>) -> bool {
    let parts = split_on(s, '.');
    parts.len() == 4 && forall|i: int| 0 <= i < 4 ==> is_ipv4_octet(#[trigger] parts[i])
}

/// An ASCII hexadecimal digit.
pub open spec fn is_hex_digit(c: char) -> bool {
    is_digit(c) || ('a' <= c && c <= 'f') || ('A' <= c && c <= 'F')
}

/// A 16-bit group of an IPv6 address: one to four hexadecimal digits.
pub open spec fn is_h16(s: Seq<char>) -> bool {
    1 <= s.len() <= 4 && forall|i: int| 0 <= i < s.len() ==> is_hex_digit(#[trigger] s[i])
}

/// The colon-separated parts in `[from, to)` are all 16-bit groups.
pub open spec fn all_h16(parts: Seq<Seq<char>>, from: int, to: int) -> bool {
    forall|i: int| from <= i < to ==> is_h16(#[trigger] parts[i])
}

/// The parts in `[from, to)` form a valid group run: 16-bit groups, where
/// the final part may instead be an embedded IPv4 address.
pub open spec fn ipv6_run_ok(parts: Seq<Seq<char>>, from: int, to: int) -> bool {
    from >= to || {
        &&& all_h16(parts, from, to - 1)
        &&& (is_h16(parts[to - 1]) || is_ipv4_literal(parts[to - 1]))
    }
}

/// How many 16-bit groups the run covers; an embedded IPv4 counts as two.
pub open spec fn ipv6_run_groups(parts: Seq<Seq<char>>, from: int, to: int) -> int {
    if from >= to {
        0
    } else if is_ipv4_literal(parts[to - 1]) {
        to - from + 1
    } else {
        to - from
    }
}

/// How many of the parts are empty.
pub open spec fn count_empty(parts: Seq<Seq<char>>) -> int
    decreases parts.len(),
{
    if parts.len() == 0 {
        0
    } else {
        count_empty(parts.drop_last()) + if parts.last().len() == 0 {
            1int
        } else {
            0int
        }
    }
}

/// The index of the first empty part, or the length when none is empty.
pub open spec fn first_empty_at(parts: Seq<Seq<char>>) -> int
    decreases parts.len(),
{
    if parts.len() == 0 {
        0
    } else if parts[0].len() == 0 {
        0
    } else {
        1 + first_empty_at(parts.drop_first())
    }
}

/// A literal IPv6 address in its RFC 4291 text form: eight 16-bit groups
/// (an embedded IPv4 standing for the last two), or fewer groups with one
/// `::` standing for at least one zero group. The text is analysed as its
/// colon-separated parts, where a `::` shows up as empty parts.
pub open spec fn is_ipv6_literal(s: Seq<char>) -> bool {
    let parts = split_on(s, ':');
    let n = parts.len() as int;
    let e = count_empty(parts);
    if e == 0 {
        // no "::" at all: exactly eight groups
        ipv6_run_ok(parts, 0, n) && ipv6_run_groups(parts, 0, n) == 8
    } else if e == 3 && n == 3 {
        // all three parts empty: the text is exactly "::"
        true
    } else if e == 2 && n >= 3 && parts[0].len() == 0 && parts[1].len() == 0 {
        // leading "::" followed by a run
        ipv6_run_ok(parts, 2, n) && ipv6_run_groups(parts, 2, n) <= 7
    } else if e == 2 && n >= 3 && parts[n - 1].len() == 0 && parts[n - 2].len() == 0 {
        // a run of 16-bit groups followed by a trailing "::"
        all_h16(parts, 0, n - 2) && n - 2 <= 7
    } else if e == 1 {
        // one interior "::"
        let k = first_empty_at(parts);
        &&& 0 < k < n - 1
        &&& all_h16(parts, 0, k)
        &&& ipv6_run_ok(parts, k + 1, n)
        &&& k + ipv6_run_groups(parts, k + 1, n) <= 7
    } else {
        false
    }
}

/// Executable [`is_ipv4_octet`].
fn ipv4_octet_chars(v: &Vec<char>) -> (r: bool)
    ensures
        r == is_ipv4_octet(v@),
{
    if v.len() < 1 || v.len() > 3 {
        return false;
    }
    let mut i: usize = 0;
    while i < v.len()
        invariant
            i <= v@.len(),
            forall|m: int| 0 <= m < i ==> is_digit(#[trigger] v@[m]),
        decreases v.len() - i,
    {
        let c = v[i];
        if !('0' <= c && c <= '9') {
            return false;
        }
        i = i + 1;
    }
    if v.len() > 1 && v[0] == '0' {
        return false;
    }
    // With at most three digits the value fits comfortably in u32.
    let mut val: u32 = 0;
    let mut k: usize = 0;
    while k < v.len()
        invariant
            k <= v@.len() <= 3,
            all_digits(v@),
            val == dec_val(v@.take(k as int)),
            val <= (if k == 0 {
                0int
            } else if k == 1 {
                9int
            } else if k == 2 {
                99int
            } else {
                999int
            }),
        decreases v.len() - k,
    {
        let c = v[k];
        proof {
            assert(is_digit(v@[k as int]));
            assert(v@.take(k + 1 as int).drop_last() =~= v@.take(k as int));
            assert(v@.take(k + 1 as int).last() == v@[k as int]);
        }
        val = val * 10 + ((c as u32) - 48);
        k = k + 1;
    }
    proof {
        assert(v@.take(v@.len() as int) =~= v@);
    }
    val <= 255
}

/// Executable [`is_ipv4_literal`].
pub fn ipv4_literal_chars(v: &Vec<char>) -> (r: bool)
    ensures
        r == is_ipv4_literal(v@),
{
    let parts = split_chars(v, '.');
    if parts.len() != 4 {
        return false;
    }
    let mut i: usize = 0;
    while i < 4
        invariant
            i <= 4,
            parts@.len() == 4,
            char_views(parts@) == split_on(v@, '.'),
            forall|m: int| 0 <= m < i ==> is_ipv4_octet(#[trigger] char_views(parts@)[m]),
        decreases 4 - i,
    {
        let ok = ipv4_octet_chars(&parts[i]);
        proof {
            assert(char_views(parts@)[i as int] == parts@[i as int]@);
        }
        if !ok {
            return false;
        }
        i = i + 1;
    }
    true
}

/// Executable [`is_hex_digit`].
fn hex_digit_char(c: char) -> (r: bool)
    ensures
        r == is_hex_digit(c),
{
    ('0' <= c && c <= '9') || ('a' <= c && c <= 'f') || ('A' <= c && c <= 'F')
}

/// Executable [`is_h16`].
fn h16_chars(v: &Vec<char>) -> (r: bool)
    ensures
        r == is_h16(v@),
{
    if v.len() < 1 || v.len() > 4 {
        return false;
    }
    let mut i: usize = 0;
    while i < v.len()
        invariant
            i <= v@.len(),
            forall|m: int| 0 <= m < i ==> is_hex_digit(#[trigger] v@[m]),
        decreases v.len() - i,
    {
        if !hex_digit_char(v[i]) {
            return false;
        }
        i = i + 1;
    }
    true
}

/// Executable [`all_h16`] over a range of parts.
fn all_h16_chars(parts: &Vec<Vec<char>>, from: usize, to: usize) -> (r: bool)
    requires
        from <= to <= parts@.len(),
    ensures
        r == all_h16(char_views(parts@), from as int, to as int),
{
    let mut i: usize = from;
    while i < to
        invariant
            from <= i <= to <= parts@.len(),
            forall|m: int| from <= m < i ==> is_h16(#[trigger] char_views(parts@)[m]),
        decreases to - i,
    {
        let ok = h16_chars(&parts[i]);
        proof {
            assert(char_views(parts@)[i as int] == parts@[i as int]@);
        }
        if !ok {
            return false;
        }
        i = i + 1;
    }
    true
}

/// Executable check of [`ipv6_run_ok`] together with its group count.
fn ipv6_run_chars(parts: &Vec<Vec<char>>, from: usize, to: usize) -> (r: (bool, usize))
    requires
        from <= to <= parts@.len(),
        to - from <= 16,
    ensures
        r.0 == ipv6_run_ok(char_views(parts@), from as int, to as int),
        r.0 ==> r.1 == ipv6_run_groups(char_views(parts@), from as int, to as int),
{
    if from >= to {
        return (true, 0);
    }
    if !all_h16_chars(parts, from, to - 1) {
        return (false, 0);
    }
    let last = &parts[to - 1];
    proof {
        assert(char_views(parts@)[to - 1 as int] == parts@[to - 1 as int]@);
    }
    if ipv4_literal_chars(last) {
        (true, to - from + 1)
    } else if h16_chars(last) {
        (true, to - from)
    } else {
        (false, 0)
    }
}

proof fn lemma_first_empty_found(parts: Seq<Seq<char>>, i: int)
    requires
        0 <= i <= parts.len(),
        forall|m: int| 0 <= m < i ==> (#[trigger] parts[m]).len() > 0,
        i == parts.len() || parts[i].len() == 0,
    ensures
        first_empty_at(parts) == i,
    decreases i,
{
    if i > 0 {
        let rest = parts.drop_first();
        assert(forall|m: int| 0 <= m < i - 1 ==> (#[trigger] rest[m]).len() > 0);
        lemma_first_empty_found(rest, i - 1);
    }
}

/// A non-empty run covers at least one group per part.
proof fn lemma_run_groups_low(parts: Seq<Seq<char>>, from: int, to: int)
    requires
        from < to,
    ensures
        ipv6_run_groups(parts, from, to) >= to - from,
{
}

/// Executable [`is_ipv6_literal`].
pub fn ipv6_literal_chars(v: &Vec<char>) -> (r: bool)
    ensures
        r == is_ipv6_literal(v@),
{
    let parts = split_chars(v, ':');
    let n = parts.len();
    let ghost pv = char_views(parts@);
    proof {
        assert(pv.take(0) =~= Seq::<Seq<char>>::empty());
    }
    let mut empties: usize = 0;
    let mut first_empty: usize = n;
    let mut i: usize = 0;
    while i < n
        invariant
            i <= n,
            n == pv.len() <= usize::MAX,
            pv == char_views(parts@),
            empties == count_empty(pv.take(i as int)),
            empties <= i,
            first_empty <= n,
            empties > 0 <==> first_empty < n,
            first_empty == n ==> forall|m: int| 0 <= m < i ==> (#[trigger] pv[m]).len() > 0,
            first_empty < n ==> first_empty < i && pv[first_empty as int].len() == 0
                && (forall|m: int| 0 <= m < first_empty ==> (#[trigger] pv[m]).len() > 0),
        decreases n - i,
    {
        proof {
            assert(pv[i as int] == parts@[i as int]@);
            assert(pv.take(i + 1 as int).drop_last() =~= pv.take(i as int));
            assert(pv.take(i + 1 as int).last() == pv[i as int]);
        }
        if parts[i].len() == 0 {
            if first_empty == n {
                first_empty = i;
            }
            empties = empties + 1;
        }
        i = i + 1;
    }
    proof {
        assert(pv.take(n as int) =~= pv);
        lemma_first_empty_found(pv, first_empty as int);
        if n >= 1 {
            assert(pv[0] == parts@[0]@);
        }
        if n >= 2 {
            assert(pv[1] == parts@[1]@);
            assert(pv[n - 1 as int] == parts@[n - 1 as int]@);
            assert(pv[n - 2 as int] == parts@[n - 2 as int]@);
        }
    }
    // More than nine parts can never make eight groups fit.
    if n > 9 {
        proof {
            lemma_run_groups_low(pv, 0, n as int);
            if count_empty(pv) == 2 && pv[0].len() == 0 && pv[1].len() == 0 {
                lemma_run_groups_low(pv, 2, n as int);
            }
            if count_empty(pv) == 1 {
                let k = first_empty_at(pv);
                if 0 < k < n - 1 {
                    lemma_run_groups_low(pv, k + 1, n as int);
                }
            }
        }
        return false;
    }
    if empties == 0 {
        let (ok, groups) = ipv6_run_chars(&parts, 0, n);
        ok && groups == 8
    } else if empties == 3 && n == 3 {
        true
    } else if empties == 2 && n >= 3 && parts[0].len() == 0 && parts[1].len() == 0 {
        let (ok, groups) = ipv6_run_chars(&parts, 2, n);
        ok && groups <= 7
    } else if empties == 2 && n >= 3 && parts[n - 1].len() == 0 && parts[n - 2].len() == 0 {
        all_h16_chars(&parts, 0, n - 2) && n - 2 <= 7
    } else if empties == 1 {
        let k = first_empty;
        if k == 0 || k >= n - 1 {
            return false;
        }
        if !all_h16_chars(&parts, 0, k) {
            return false;
        }
        let (ok, groups) = ipv6_run_chars(&parts, k + 1, n);
        if !ok {
            return false;
        }
        // k <= 7 here since n <= 9 and k < n - 1
        groups <= 7 - k
    } else {
        false
    }
}

/// RFC 6265 domain matching: the host equals the domain, or ends with
/// `"." + domain` and is not an IP literal. Case is folded as ASCII.
pub open spec fn domain_match(host: Seq<char>, domain: Seq<char>) -> bool {
    let h = lower_all(host);
    let d = lower_all(domain);
    ||| h == d
    ||| {
        &&& h.len() > d.len()
        &&& ends_with(h, d)
        &&& h[h.len() - d.len() - 1] == '.'
        &&& !is_ipv4_literal(h)
        &&& !is_ipv6_literal(h)
    }
}

/// Executable [`domain_match`].
pub fn domain_match_chars(host: &Vec<char>, domain: &Vec<char>) -> (r: bool)
    ensures
        r == domain_match(host@, domain@),
{
    let h = lower_chars(host);
    let d = lower_chars(domain);
    proof {
        assert(lower_all(host@).len() == host@.len());
        assert(lower_all(domain@).len() == domain@.len());
    }
    if eq_chars(&h, &d) {
        return true;
    }
    if h.len() <= d.len() {
        return false;
    }
    if !ends_with_chars(&h, &d) {
        return false;
    }
    let boundary: usize = h.len() - d.len() - 1;
    if h[boundary] != '.' {
        return false;
    }
    if ipv4_literal_chars(&h) {
        return false;
    }
    if ipv6_literal_chars(&h) {
        return false;
    }
    true
}

/// RFC 6265 path matching: the request path equals the cookie path, or
/// extends it across a `/` boundary.
pub open spec fn path_match(req: Seq<char>, cp: Seq<char>) -> bool {
    ||| req == cp
    ||| {
        &&& req.len() > cp.len()
        &&& starts_with(req, cp)
        &&& (ends_with(cp, seq!['/']) || req[cp.len() as int] == '/')
    }
}

/// Executable [`path_match`].
pub fn path_match_chars(req: &Vec<char>, cp: &Vec<char>) -> (r: bool)
    ensures
        r == path_match(req@, cp@),
{
    if eq_chars(req, cp) {
        return true;
    }
    if req.len() <= cp.len() {
        return false;
    }
    if !starts_with_chars(req, cp) {
        return false;
    }
    if cp.len() > 0 && cp[cp.len() - 1] == '/' {
        proof {
            assert(ends_with(cp@, seq!['/'])) by {
                assert(cp@.skip((cp@.len() - 1) as int) =~= seq![cp@.last()]);
            }
        }
        return true;
    }
    proof {
        if cp@.len() == 0 {
            assert(!ends_with(cp@, seq!['/']));
        } else if cp@.last() != '/' {
            assert(cp@.skip((cp@.len() - 1) as int)[0] == cp@.last());
            assert(!ends_with(cp@, seq!['/']));
        }
    }
    req[cp.len()] == '/'
}

/// The index of the last `/` in `p`, or `-1` when there is none.
pub open spec fn last_slash_at(p: Seq<char>) -> int
    decreases p.len(),
{
    if p.len() == 0 {
        -1
    } else if p.last() == '/' {
        p.len() - 1
    } else {
        last_slash_at(p.drop_last())
    }
}

/// The default path of a cookie set without a `Path` attribute: the request
/// path truncated at its last `/`, or `/` itself.
pub open spec fn default_path(upath: Seq<char>) -> Seq<char> {
    if upath.len() == 0 || upath[0] != '/' {
        seq!['/']
    } else if last_slash_at(upath) == 0 {
        seq!['/']
    } else {
        upath.take(last_slash_at(upath))
    }
}

proof fn lemma_last_slash_found(p: Seq<char>, j: int)
    requires
        0 <= j < p.len(),
        p[j] == '/',
        forall|m: int| j < m < p.len() ==> p[m] != '/',
    ensures
        last_slash_at(p) == j,
    decreases p.len(),
{
    if j < p.len() - 1 {
        let t = p.drop_last();
        assert(forall|m: int| j < m < t.len() ==> t[m] != '/');
        lemma_last_slash_found(t, j);
    }
}

/// Executable [`default_path`].
pub fn default_path_chars(upath: &Vec<char>) -> (r: Vec<char>)
    ensures
        r@ == default_path(upath@),
{
    let mut root: Vec<char> = Vec::new();
    root.push('/');
    proof {
        assert(root@ =~= seq!['/']);
    }
    if upath.len() == 0 || upath[0] != '/' {
        return root;
    }
    // find the last '/'
    let mut j: usize = upath.len();
    while j > 0
        invariant
            j <= upath@.len(),
            upath@.len() > 0,
            upath@[0] == '/',
            root@ == seq!['/'],
            forall|m: int| j <= m < upath@.len() ==> upath@[m] != '/',
        decreases j,
    {
        if upath[j - 1] == '/' {
            proof {
                lemma_last_slash_found(upath@, j - 1 as int);
            }
            if j - 1 == 0 {
                return root;
            }
            let mut r: Vec<char> = Vec::new();
            let mut m: usize = 0;
            while m < j - 1
                invariant
                    m <= j - 1 < upath@.len(),
                    r@ == upath@.take(m as int),
                decreases j - m,
            {
                r.push(upath[m]);
                m = m + 1;
                proof {
                    assert(r@ =~= upath@.take(m as int));
                }
            }
            return r;
        }
        j = j - 1;
    }
    // unreachable: upath[0] == '/', so the scan stops at or before index 1
    proof {
        assert(false);
    }
    root
}

/// Whether the cookie's expiry has passed at time `now` (epoch seconds).
/// `Some(i64::MIN)` marks a cookie expired from the moment it was stored.
pub open spec fn cookie_expired(c: CookieView, now: i64) -> bool {
    match c.expiration {
        Some(t) => t < now || t == i64::MIN,
        None => false,
    }
}

/// Whether a stored cookie applies to a request: the secure, domain, path,
/// and expiry predicates all hold.
pub open spec fn cookie_matches(
    c: CookieView,
    https: bool,
    host: Seq<char>,
    path: Seq<char>,
    now: i64,
) -> bool {
    &&& (c.secure ==> https)
    &&& (if c.host_only {
        lower_all(c.domain) == lower_all(host)
    } else {
        domain_match(host, c.domain)
    })
    &&& path_match(path, c.path)
    &&& !cookie_expired(c, now)
}

impl Cookie {
    /// Whether this cookie's expiry has passed at `now`.
    pub fn is_expired(&self, now: i64) -> (r: bool)
        ensures
            r == cookie_expired(self@, now),
    {
        match self.expiration {
            Some(t) => t < now || t == i64::MIN,
            None => false,
        }
    }

    /// Whether this cookie applies to a request to `uri` at time `now`.
    pub fn matches(&self, uri: &Uri, now: i64) -> (r: bool)
        ensures
            r == cookie_matches(self@, uri.https, uri.host@, uri.path@, now),
    {
        if self.secure && !uri.https {
            return false;
        }
        let host = chars_of(uri.host.as_str());
        let dom = chars_of(self.domain.as_str());
        if self.host_only {
            if !eq_ignore_case_chars(&dom, &host) {
                return false;
            }
        } else {
            if !domain_match_chars(&host, &dom) {
                return false;
            }
        }
        let req = chars_of(uri.path.as_str());
        let cp = chars_of(self.path.as_str());
        if !path_match_chars(&req, &cp) {
            return false;
        }
        !self.is_expired(now)
    }
}

/// The attribute state built up while reading a `Set-Cookie` header.
pub struct CookieAttrs {
    pub expiration: Option<i64>,
    pub domain: Option<Seq<char>>,
    pub path: Option<Seq<char>>,
    pub secure: bool,
}

/// The state before any attribute has been read.
pub open spec fn init_attrs() -> CookieAttrs {
    CookieAttrs { expiration: None, domain: None, path: None, secure: false }
}

/// Attribute names are compared without regard to ASCII case.
pub open spec fn named(n: Seq<char>, lit: Seq<char>) -> bool {
    lower_all(n) == lower_all(lit)
}

/// `s` with every leading `.` removed.
pub open spec fn strip_dots(s: Seq<char>) -> Seq<char>
    decreases s.len(),
{
    if s.len() > 0 && s[0] == '.' {
        strip_dots(s.drop_first())
    } else {
        s
    }
}

/// The absolute expiry a `Max-Age` count of seconds means at time `now`:
/// a non-positive count is expired at once, and a sum beyond the range
/// saturates.
pub open spec fn max_age_epoch(now: i64, secs: i64) -> i64 {
    if secs <= 0 {
        i64::MIN
    } else if now + secs > i64::MAX {
        i64::MAX
    } else {
        (now + secs) as i64
    }
}

/// What an RFC 2822 date text denotes in epoch seconds, when it parses.
///
/// The result of chrono's RFC 2822 parser depends on the text alone; this
/// names it, and [`parse_rfc2822`] ties the name to the call.
pub uninterp spec fn rfc2822_epoch(s: Seq<char>) -> Option<i64>;

/// Relies on chrono's `DateTime::parse_from_rfc2822` and
/// `DateTime::timestamp`: parses an RFC 2822 date and returns its epoch
/// second, a function of the text alone.
#[verifier::external_body]
fn parse_rfc2822(s: &str) -> (r: Option<i64>)
    ensures
        r == rfc2822_epoch(s@),
{
    match chrono::DateTime::parse_from_rfc2822(s) {
        Ok(t) => Some(t.timestamp()),
        Err(_) => None,
    }
}

/// One `;`-separated segment read as an attribute: the segment is trimmed,
/// split at the first `=`, and both sides are trimmed.
pub open spec fn attr_parts(seg: Seq<char>) -> (Seq<char>, Option<Seq<char>>) {
    let t = trim(seg);
    let (n0, v0) = split2(t, '=');
    (
        trim(n0),
        match v0 {
            Some(v) => Some(trim(v)),
            None => None,
        },
    )
}

/// Executable [`attr_parts`].
fn attr_parts_chars(seg: &Vec<char>) -> (r: (Vec<char>, Option<Vec<char>>))
    ensures
        r.0@ == attr_parts(seg@).0,
        match r.1 {
            Some(v) => attr_parts(seg@).1 == Some(v@),
            None => attr_parts(seg@).1 is None,
        },
{
    let t = trim_chars(seg);
    let (n0, v0) = split2_chars(&t, '=');
    let name = trim_chars(&n0);
    match v0 {
        Some(v) => (name, Some(trim_chars(&v))),
        None => (name, None),
    }
}

/// How one attribute segment changes the attribute state: `Expires` is kept
/// only while no expiry is set yet, a clean `Max-Age` always wins, `Domain`
/// is stripped of leading dots and lower-cased, `Path` is taken as written,
/// `Secure` is a flag, and unknown attributes are ignored.
pub open spec fn apply_attr(st: CookieAttrs, seg: Seq<char>, now: i64) -> CookieAttrs {
    let (name, value) = attr_parts(seg);
    if named(name, "Expires"@) {
        if st.expiration is None {
            match value {
                Some(v) => match rfc2822_epoch(v) {
                    Some(t) => CookieAttrs {
                        expiration: Some(t),
                        domain: st.domain,
                        path: st.path,
                        secure: st.secure,
                    },
                    None => st,
                },
                None => st,
            }
        } else {
            st
        }
    } else if named(name, "Domain"@) {
        CookieAttrs {
            expiration: st.expiration,
            domain: match value {
                Some(v) => Some(lower_all(strip_dots(v))),
                None => None,
            },
            path: st.path,
            secure: st.secure,
        }
    } else if named(name, "Max-Age"@) {
        match value {
            Some(v) => match parse_i64_text(v) {
                Some(secs) => CookieAttrs {
                    expiration: Some(max_age_epoch(now, secs)),
                    domain: st.domain,
                    path: st.path,
                    secure: st.secure,
                },
                None => st,
            },
            None => st,
        }
    } else if named(name, "Path"@) {
        CookieAttrs { expiration: st.expiration, domain: st.domain, path: value, secure: st.secure }
    } else if named(name, "Secure"@) {
        CookieAttrs { expiration: st.expiration, domain: st.domain, path: st.path, secure: true }
    } else {
        st
    }
}

/// The attribute state after reading all of `segs`, in order.
pub open spec fn fold_attrs(st: CookieAttrs, segs: Seq<Seq<char>>, now: i64) -> CookieAttrs
    decreases segs.len(),
{
    if segs.len() == 0 {
        st
    } else {
        apply_attr(fold_attrs(st, segs.drop_last(), now), segs.last(), now)
    }
}

/// The cookie's path: the `Path` attribute when present, else the default
/// derived from the request path.
pub open spec fn path_or_default(p: Option<Seq<char>>, upath: Seq<char>) -> Seq<char> {
    match p {
        Some(v) => v,
        None => default_path(upath),
    }
}

/// How one `Set-Cookie` header value is read in the context of the request
/// that produced it: the first segment must be a `name=value` pair and the
/// URI must carry a host; a `Domain` attribute must domain-match the host
/// and contain a dot, or the whole cookie is dropped; without one the
/// cookie is bound to the exact host.
pub open spec fn parse_set_cookie(
    header: Seq<char>,
    host: Seq<char>,
    upath: Seq<char>,
    now: i64,
) -> Option<CookieView> {
    let segs = split_on(header, ';');
    let (name, value_opt) = attr_parts(segs[0]);
    if value_opt is None || host.len() == 0 {
        None
    } else {
        let a = fold_attrs(init_attrs(), segs.drop_first(), now);
        match a.domain {
            Some(d) => if domain_match(host, d) && has_char(d, '.') {
                Some(
                    CookieView {
                        name,
                        value: value_opt.unwrap(),
                        domain: d,
                        path: path_or_default(a.path, upath),
                        secure: a.secure,
                        host_only: false,
                        expiration: a.expiration,
                    },
                )
            } else {
                None
            },
            None => Some(
                CookieView {
                    name,
                    value: value_opt.unwrap(),
                    domain: lower_all(host),
                    path: path_or_default(a.path, upath),
                    secure: a.secure,
                    host_only: true,
                    expiration: a.expiration,
                },
            ),
        }
    }
}

impl Cookie {
    /// Reads one `Set-Cookie` header value in the context of the URI that
    /// produced the response, at time `now` (epoch seconds). Returns `None`
    /// when the header cannot be read as a cookie or its `Domain` is not
    /// allowed for that URI.
    pub fn parse(header: &str, uri: &Uri, now: i64) -> (r: Option<Cookie>)
        ensures
            match r {
                Some(c) => parse_set_cookie(header@, uri.host@, uri.path@, now) == Some(c@),
                None => parse_set_cookie(header@, uri.host@, uri.path@, now) is None,
            },
    {
        let hv = chars_of(header);
        let segs = split_chars(&hv, ';');
        let ghost sv = char_views(segs@);
        proof {
            assert(sv[0] == segs@[0]@);
        }
        let (name_v, value_opt) = attr_parts_chars(&segs[0]);
        let value_v = match value_opt {
            Some(v) => v,
            None => {
                return None;
            },
        };
        if uri.host.as_str().unicode_len() == 0 {
            return None;
        }
        let host = chars_of(uri.host.as_str());
        // fold the attribute segments, mirroring `fold_attrs`
        let ghost attr_segs = sv.drop_first();
        let mut expiration: Option<i64> = None;
        let mut domain: Option<Vec<char>> = None;
        let mut path: Option<Vec<char>> = None;
        let mut secure: bool = false;
        let mut k: usize = 1;
        proof {
            assert(attr_segs.take(0) =~= Seq::<Seq<char>>::empty());
        }
        while k < segs.len()
            invariant
                1 <= k <= segs@.len(),
                sv == char_views(segs@),
                attr_segs == sv.drop_first(),
                ({
                    let st = fold_attrs(init_attrs(), attr_segs.take(k - 1), now);
                    &&& st.expiration == expiration
                    &&& st.secure == secure
                    &&& (match domain {
                        Some(ref d) => st.domain == Some(d@),
                        None => st.domain is None,
                    })
                    &&& (match path {
                        Some(ref p) => st.path == Some(p@),
                        None => st.path is None,
                    })
                }),
            decreases segs.len() - k,
        {
            let ghost st_pre = fold_attrs(init_attrs(), attr_segs.take(k - 1), now);
            proof {
                assert(attr_segs.take(k as int).drop_last() =~= attr_segs.take(k - 1));
                assert(attr_segs.take(k as int).last() == attr_segs[k - 1]);
                assert(attr_segs[k - 1] == sv[k as int]);
                assert(sv[k as int] == segs@[k as int]@);
            }
            let (an, av) = attr_parts_chars(&segs[k]);
            if eq_ignore_case_chars(&an, &chars_of("Expires")) {
                if expiration.is_none() {
                    match av {
                        Some(v) => {
                            let text = string_of(&v);
                            match parse_rfc2822(text.as_str()) {
                                Some(t) => {
                                    expiration = Some(t);
                                },
                                None => {},
                            }
                        },
                        None => {},
                    }
                }
            } else if eq_ignore_case_chars(&an, &chars_of("Domain")) {
                match av {
                    Some(v) => {
                        let stripped = strip_dots_chars(&v);
                        domain = Some(lower_chars(&stripped));
                    },
                    None => {
                        domain = None;
                    },
                }
            } else if eq_ignore_case_chars(&an, &chars_of("Max-Age")) {
                match av {
                    Some(v) => {
                        match parse_i64_chars(&v) {
                            Some(secs) => {
                                expiration = Some(max_age_exec(now, secs));
                            },
                            None => {},
                        }
                    },
                    None => {},
                }
            } else if eq_ignore_case_chars(&an, &chars_of("Path")) {
                path = av;
            } else if eq_ignore_case_chars(&an, &chars_of("Secure")) {
                secure = true;
            }
            k = k + 1;
        }
        proof {
            assert(attr_segs.take(attr_segs.len() as int) =~= attr_segs);
        }
        // validate the domain, or bind the cookie to the host
        let upath = chars_of(uri.path.as_str());
        let (dom_v, host_only) = match domain {
            Some(d) => {
                if !domain_match_chars(&host, &d) {
                    return None;
                }
                if !has_char_exec(&d, '.') {
                    return None;
                }
                (d, false)
            },
            None => (lower_chars(&host), true),
        };
        let path_v = match path {
            Some(p) => p,
            None => default_path_chars(&upath),
        };
        Some(
            Cookie {
                name: string_of(&name_v),
                value: string_of(&value_v),
                domain: string_of(&dom_v),
                path: string_of(&path_v),
                secure,
                host_only,
                expiration,
            },
        )
    }
}

/// Executable [`strip_dots`].
fn strip_dots_chars(v: &Vec<char>) -> (r: Vec<char>)
    ensures
        r@ == strip_dots(v@),
{
    let mut i: usize = 0;
    proof {
        assert(v@.skip(0) =~= v@);
    }
    while i < v.len() && v[i] == '.'
        invariant
            i <= v@.len(),
            strip_dots(v@) == strip_dots(v@.skip(i as int)),
        decreases v.len() - i,
    {
        proof {
            assert(v@.skip(i as int)[0] == v@[i as int]);
            assert(v@.skip(i as int).drop_first() =~= v@.skip(i + 1 as int));
        }
        i = i + 1;
    }
    proof {
        if i < v.len() {
            assert(v@.skip(i as int)[0] == v@[i as int]);
        }
        assert(strip_dots(v@.skip(i as int)) == v@.skip(i as int));
    }
    let mut r: Vec<char> = Vec::new();
    let mut m: usize = i;
    while m < v.len()
        invariant
            i <= m <= v@.len(),
            r@ == v@.subrange(i as int, m as int),
        decreases v.len() - m,
    {
        r.push(v[m]);
        m = m + 1;
        proof {
            assert(r@ =~= v@.subrange(i as int, m as int));
        }
    }
    proof {
        assert(v@.subrange(i as int, v@.len() as int) =~= v@.skip(i as int));
    }
    r
}

/// Executable [`max_age_epoch`].
fn max_age_exec(now: i64, secs: i64) -> (r: i64)
    ensures
        r == max_age_epoch(now, secs),
{
    if secs <= 0 {
        i64::MIN
    } else {
        match now.checked_add(secs) {
            Some(t) => t,
            None => i64::MAX,
        }
    }
}

/// Two cookies share the store key (domain, path, name).
pub open spec fn key_eq(a: CookieView, b: CookieView) -> bool {
    a.domain == b.domain && a.path == b.path && a.name == b.name
}

/// The store invariant: no two stored cookies share a key.
pub open spec fn jar_wf(s: Seq<CookieView>) -> bool {
    forall|i: int, j: int| 0 <= i < j < s.len() ==> !key_eq(#[trigger] s[i], #[trigger] s[j])
}

/// Inserting one cookie: it replaces the cookie with its key, or is appended.
pub open spec fn upsert(s: Seq<CookieView>, c: CookieView) -> Seq<CookieView>
    decreases s.len(),
{
    if s.len() == 0 {
        seq![c]
    } else if key_eq(s[0], c) {
        seq![c] + s.drop_first()
    } else {
        seq![s[0]] + upsert(s.drop_first(), c)
    }
}

/// Inserting a batch of cookies, in order.
pub open spec fn upsert_all(s: Seq<CookieView>, cs: Seq<CookieView>) -> Seq<CookieView>
    decreases cs.len(),
{
    if cs.len() == 0 {
        s
    } else {
        upsert_all(upsert(s, cs[0]), cs.drop_first())
    }
}

/// Removing every cookie whose expiry has passed.
pub open spec fn sweep(s: Seq<CookieView>, now: i64) -> Seq<CookieView>
    decreases s.len(),
{
    if s.len() == 0 {
        s
    } else {
        let r = sweep(s.drop_last(), now);
        if cookie_expired(s.last(), now) {
            r
        } else {
            r.push(s.last())
        }
    }
}

/// The store contents after a batch of cookies is taken in at time `now`:
/// each is inserted by key, then expired entries are removed.
pub open spec fn store_after(s: Seq<CookieView>, cs: Seq<CookieView>, now: i64) -> Seq<
    CookieView,
> {
    sweep(upsert_all(s, cs), now)
}

/// A swept store holds no expired cookie.
pub proof fn lemma_sweep_drops_expired(s: Seq<CookieView>, now: i64)
    ensures
        forall|i: int|
            0 <= i < sweep(s, now).len() ==> !cookie_expired(#[trigger] sweep(s, now)[i], now),
    decreases s.len(),
{
    if s.len() > 0 {
        lemma_sweep_drops_expired(s.drop_last(), now);
        let r = sweep(s.drop_last(), now);
        assert forall|i: int| 0 <= i < sweep(s, now).len() implies !cookie_expired(
            #[trigger] sweep(s, now)[i],
            now,
        ) by {
            if cookie_expired(s.last(), now) {
                assert(sweep(s, now)[i] == r[i]);
            } else {
                if i < r.len() {
                    assert(sweep(s, now)[i] == r[i]);
                } else {
                    assert(sweep(s, now)[i] == s.last());
                }
            }
        }
    }
}

proof fn lemma_upsert_wf(s: Seq<CookieView>, c: CookieView)
    requires
        jar_wf(s),
    ensures
        jar_wf(upsert(s, c)),
        upsert(s, c).len() <= s.len() + 1,
        forall|i: int|
            0 <= i < upsert(s, c).len() ==> (#[trigger] upsert(s, c)[i] == c || s.contains(
                upsert(s, c)[i],
            )),
        forall|i: int|
            0 <= i < upsert(s, c).len() ==> (key_eq(#[trigger] upsert(s, c)[i], c) ==> upsert(
                s,
                c,
            )[i] == c),
    decreases s.len(),
{
    if s.len() == 0 {
    } else if key_eq(s[0], c) {
        let r = seq![c] + s.drop_first();
        assert forall|i: int, j: int| 0 <= i < j < r.len() implies !key_eq(r[i], r[j]) by {
            if i == 0 {
                assert(r[j] == s[j]);
                assert(!key_eq(s[0], s[j]));
            } else {
                assert(r[i] == s[i] && r[j] == s[j]);
            }
        }
        assert forall|i: int| 0 <= i < r.len() implies (r[i] == c || s.contains(r[i])) by {
            if i > 0 {
                assert(r[i] == s[i]);
            }
        }
        assert forall|i: int| 0 <= i < r.len() && key_eq(r[i], c) implies r[i] == c by {
            if i > 0 {
                assert(r[i] == s[i]);
                assert(!key_eq(s[0], s[i]));
            }
        }
    } else {
        let rest = s.drop_first();
        assert(jar_wf(rest)) by {
            assert(forall|i: int, j: int|
                0 <= i < j < rest.len() ==> !key_eq(#[trigger] rest[i], #[trigger] rest[j]));
        }
        lemma_upsert_wf(rest, c);
        let u = upsert(rest, c);
        let r = seq![s[0]] + u;
        assert forall|i: int| 0 <= i < r.len() implies (r[i] == c || s.contains(r[i])) by {
            if i == 0 {
                assert(s.contains(s[0]));
            } else {
                assert(r[i] == u[i - 1]);
                if u[i - 1] != c {
                    assert(rest.contains(u[i - 1]));
                    let w = choose|w: int| 0 <= w < rest.len() && rest[w] == u[i - 1];
                    assert(s[w + 1] == rest[w]);
                }
            }
        }
        assert forall|i: int, j: int| 0 <= i < j < r.len() implies !key_eq(r[i], r[j]) by {
            if i == 0 {
                assert(r[j] == u[j - 1]);
                if u[j - 1] == c {
                } else {
                    assert(rest.contains(u[j - 1]));
                    let w = choose|w: int| 0 <= w < rest.len() && rest[w] == u[j - 1];
                    assert(s[w + 1] == rest[w]);
                    assert(!key_eq(s[0], s[w + 1]));
                }
            } else {
                assert(r[i] == u[i - 1] && r[j] == u[j - 1]);
            }
        }
        assert forall|i: int| 0 <= i < r.len() && key_eq(r[i], c) implies r[i] == c by {
            if i > 0 {
                assert(r[i] == u[i - 1]);
            }
        }
    }
}

proof fn lemma_sweep_wf(s: Seq<CookieView>, now: i64)
    requires
        jar_wf(s),
    ensures
        jar_wf(sweep(s, now)),
        forall|i: int| 0 <= i < sweep(s, now).len() ==> s.contains(#[trigger] sweep(s, now)[i]),
    decreases s.len(),
{
    if s.len() > 0 {
        let t = s.drop_last();
        assert(jar_wf(t)) by {
            assert(forall|i: int, j: int|
                0 <= i < j < t.len() ==> !key_eq(#[trigger] t[i], #[trigger] t[j]));
        }
        lemma_sweep_wf(t, now);
        let r0 = sweep(t, now);
        assert forall|i: int| 0 <= i < sweep(s, now).len() implies s.contains(
            #[trigger] sweep(s, now)[i],
        ) by {
            if i < r0.len() {
                assert(t.contains(r0[i]));
                let w = choose|w: int| 0 <= w < t.len() && t[w] == r0[i];
                assert(s[w] == t[w]);
            } else {
                assert(sweep(s, now)[i] == s.last());
            }
        }
        if !cookie_expired(s.last(), now) {
            let r = r0.push(s.last());
            assert forall|i: int, j: int| 0 <= i < j < r.len() implies !key_eq(r[i], r[j]) by {
                if j == r.len() - 1 {
                    assert(t.contains(r0[i]));
                    let w = choose|w: int| 0 <= w < t.len() && t[w] == r0[i];
                    assert(s[w] == t[w]);
                    assert(!key_eq(s[w], s[s.len() - 1]));
                }
            }
        }
    }
}

proof fn lemma_upsert_all_wf(s: Seq<CookieView>, cs: Seq<CookieView>)
    requires
        jar_wf(s),
    ensures
        jar_wf(upsert_all(s, cs)),
    decreases cs.len(),
{
    if cs.len() > 0 {
        lemma_upsert_wf(s, cs[0]);
        lemma_upsert_all_wf(upsert(s, cs[0]), cs.drop_first());
    }
}

/// Taking in a batch keeps the store invariant.
pub proof fn lemma_store_after_wf(s: Seq<CookieView>, cs: Seq<CookieView>, now: i64)
    requires
        jar_wf(s),
    ensures
        jar_wf(store_after(s, cs, now)),
{
    lemma_upsert_all_wf(s, cs);
    lemma_sweep_wf(upsert_all(s, cs), now);
}

proof fn lemma_upsert_at(s: Seq<CookieView>, c: CookieView, i: int)
    requires
        0 <= i <= s.len(),
        forall|m: int| 0 <= m < i ==> !key_eq(#[trigger] s[m], c),
        i == s.len() || key_eq(s[i], c),
    ensures
        i < s.len() ==> upsert(s, c) == s.update(i, c),
        i == s.len() ==> upsert(s, c) == s.push(c),
    decreases i,
{
    if i == 0 {
        if s.len() == 0 {
            assert(upsert(s, c) =~= s.push(c));
        } else {
            assert(seq![c] + s.drop_first() =~= s.update(0, c));
        }
    } else {
        let rest = s.drop_first();
        assert(forall|m: int| 0 <= m < i - 1 ==> !key_eq(#[trigger] rest[m], c));
        lemma_upsert_at(rest, c, i - 1);
        if i < s.len() {
            assert(seq![s[0]] + rest.update(i - 1, c) =~= s.update(i, c));
        } else {
            assert(seq![s[0]] + rest.push(c) =~= s.push(c));
        }
    }
}

/// The in-memory cookie store: cookies keyed by (domain, path, name).
pub struct CookieJar {
    cookies: Vec<Cookie>,
}

impl View for CookieJar {
    type V = Seq<CookieView>;

    closed spec fn view(&self) -> Seq<CookieView> {
        Seq::new(self.cookies@.len(), |i: int| self.cookies@[i]@)
    }
}

/// The `name=value` text a stored cookie contributes to a `Cookie` header.
pub open spec fn render_pair(c: CookieView) -> Seq<char> {
    c.name + seq!['='] + c.value
}

/// The rendered pairs of the cookies that apply to a request, in store order.
pub open spec fn matching_pairs(
    s: Seq<CookieView>,
    https: bool,
    host: Seq<char>,
    path: Seq<char>,
    now: i64,
) -> Seq<Seq<char>>
    decreases s.len(),
{
    if s.len() == 0 {
        seq![]
    } else {
        let rest = matching_pairs(s.drop_last(), https, host, path, now);
        if cookie_matches(s.last(), https, host, path, now) {
            rest.push(render_pair(s.last()))
        } else {
            rest
        }
    }
}

/// The full `Cookie` header text for a request: the matching pairs, sorted
/// lexicographically and joined with `"; "`.
pub open spec fn header_text(
    s: Seq<CookieView>,
    https: bool,
    host: Seq<char>,
    path: Seq<char>,
    now: i64,
) -> Seq<char> {
    joined(sort_lex(matching_pairs(s, https, host, path, now)), "; "@)
}

impl CookieJar {
    /// The empty store.
    pub fn new() -> (r: CookieJar)
        ensures
            r@ =~= Seq::<CookieView>::empty(),
            jar_wf(r@),
    {
        CookieJar { cookies: Vec::new() }
    }

    /// Inserts one cookie, replacing any stored cookie with the same key.
    fn upsert_one(&mut self, c: Cookie)
        ensures
            final(self)@ == upsert(old(self)@, c@),
    {
        let ghost s = self@;
        let mut i: usize = 0;
        while i < self.cookies.len()
            invariant
                i <= self.cookies@.len(),
                s == self@,
                s == old(self)@,
                self@ == Seq::new(self.cookies@.len(), |m: int| self.cookies@[m]@),
                forall|m: int| 0 <= m < i ==> !key_eq(#[trigger] s[m], c@),
            decreases self.cookies.len() - i,
        {
            let stored = &self.cookies[i];
            proof {
                assert(s[i as int] == self.cookies@[i as int]@);
            }
            if stored.domain == c.domain && stored.path == c.path && stored.name == c.name {
                proof {
                    assert(key_eq(s[i as int], c@));
                    lemma_upsert_at(s, c@, i as int);
                }
                self.cookies.set(i, c);
                proof {
                    assert forall|m: int| 0 <= m < self.cookies@.len() implies self@[m]
                        == s.update(i as int, c@)[m] by {
                        assert(self@[m] == self.cookies@[m]@);
                    }
                    assert(self@ =~= s.update(i as int, c@));
                }
                return ;
            }
            i = i + 1;
        }
        proof {
            lemma_upsert_at(s, c@, i as int);
        }
        self.cookies.push(c);
        proof {
            assert(self@ =~= s.push(c@));
        }
    }

    /// Removes every stored cookie whose expiry has passed.
    fn sweep_now(&mut self, now: i64)
        ensures
            final(self)@ == sweep(old(self)@, now),
    {
        let ghost s = self@;
        let mut kept: Vec<Cookie> = Vec::new();
        proof {
            assert(Seq::new(kept@.len(), |m: int| kept@[m]@) =~= sweep(s.take(0), now));
            assert(Seq::new(self.cookies@.len(), |m: int| self.cookies@[m]@) =~= s.skip(0));
        }
        while self.cookies.len() > 0
            invariant
                self.cookies@.len() <= s.len(),
                Seq::new(self.cookies@.len(), |m: int| self.cookies@[m]@) == s.skip(
                    (s.len() - self.cookies@.len()) as int,
                ),
                Seq::new(kept@.len(), |m: int| kept@[m]@) == sweep(
                    s.take((s.len() - self.cookies@.len()) as int),
                    now,
                ),
            decreases self.cookies.len(),
        {
            let ghost done = (s.len() - self.cookies@.len()) as int;
            let ghost pc = self.cookies@;
            let ghost rem = Seq::new(pc.len(), |m: int| pc[m]@);
            let c = self.cookies.remove(0);
            proof {
                assert(c@ == rem[0]);
                assert(rem[0] == s[done]);
                assert(self.cookies@ == pc.remove(0));
                assert forall|m: int| 0 <= m < self.cookies@.len() implies self.cookies@[m]@
                    == s[done + 1 + m] by {
                    assert(pc.remove(0)[m] == pc[m + 1]);
                    assert(rem[m + 1] == pc[m + 1]@);
                    assert(rem[m + 1] == s.skip(done)[m + 1]);
                }
                assert(Seq::new(self.cookies@.len(), |m: int| self.cookies@[m]@) =~= s.skip(
                    done + 1,
                ));
                assert(s.take(done + 1).drop_last() =~= s.take(done));
                assert(s.take(done + 1).last() == s[done]);
            }
            if !c.is_expired(now) {
                kept.push(c);
                proof {
                    assert(Seq::new(kept@.len(), |m: int| kept@[m]@) =~= sweep(
                        s.take(done + 1),
                        now,
                    ));
                }
            } else {
                proof {
                    assert(Seq::new(kept@.len(), |m: int| kept@[m]@) =~= sweep(
                        s.take(done + 1),
                        now,
                    ));
                }
            }
        }
        proof {
            assert(s.take(s.len() as int) =~= s);
        }
        self.cookies = kept;
        proof {
            assert(self@ =~= sweep(s, now));
        }
    }

    /// Takes in a batch of cookies at time `now`: each is inserted by key,
    /// then every expired entry is removed.
    pub fn add(&mut self, cookies: Vec<Cookie>, now: i64)
        requires
            jar_wf(old(self)@),
        ensures
            final(self)@ == store_after(old(self)@, Seq::new(cookies@.len(), |i: int| cookies@[i]@), now),
            jar_wf(final(self)@),
    {
        let ghost s0 = self@;
        let ghost full = Seq::new(cookies@.len(), |i: int| cookies@[i]@);
        let mut cookies = cookies;
        proof {
            assert(full.skip(0) =~= full);
        }
        while cookies.len() > 0
            invariant
                self@ == upsert_all(s0, full.take((full.len() - cookies@.len()) as int)),
                cookies@.len() <= full.len(),
                Seq::new(cookies@.len(), |i: int| cookies@[i]@) == full.skip(
                    (full.len() - cookies@.len()) as int,
                ),
            decreases cookies.len(),
        {
            let ghost done = (full.len() - cookies@.len()) as int;
            let ghost pc = cookies@;
            let ghost rem = Seq::new(pc.len(), |i: int| pc[i]@);
            let c = cookies.remove(0);
            proof {
                assert(c@ == rem[0]);
                assert(rem[0] == full[done]);
                assert(cookies@ == pc.remove(0));
                assert forall|m: int| 0 <= m < cookies@.len() implies cookies@[m]@ == full[done + 1
                    + m] by {
                    assert(pc.remove(0)[m] == pc[m + 1]);
                    assert(rem[m + 1] == pc[m + 1]@);
                    assert(rem[m + 1] == full.skip(done)[m + 1]);
                }
                assert(Seq::new(cookies@.len(), |i: int| cookies@[i]@) =~= full.skip(done + 1));
            }
            self.upsert_one(c);
            proof {
                assert(full.take(done + 1).drop_last() =~= full.take(done));
                assert(full.take(done + 1).last() == full[done]);
                lemma_upsert_all_snoc(s0, full.take(done + 1));
            }
        }
        proof {
            assert(full.take(full.len() as int) =~= full);
        }
        self.sweep_now(now);
        proof {
            lemma_store_after_wf(s0, full, now);
        }
    }

    /// The `Cookie` header value for a request to `uri` at time `now`:
    /// `None` when no stored cookie applies, otherwise the matching
    /// `name=value` pairs sorted lexically and joined with `"; "`.
    pub fn get_cookies(&self, uri: &Uri, now: i64) -> (r: Option<String>)
        ensures
            match r {
                None => matching_pairs(self@, uri.https, uri.host@, uri.path@, now).len() == 0,
                Some(h) => {
                    &&& matching_pairs(self@, uri.https, uri.host@, uri.path@, now).len() > 0
                    &&& h@ == header_text(self@, uri.https, uri.host@, uri.path@, now)
                },
            },
    {
        let ghost s = self@;
        let mut pairs: Vec<Vec<char>> = Vec::new();
        let mut i: usize = 0;
        proof {
            assert(char_views(pairs@) =~= matching_pairs(
                s.take(0),
                uri.https,
                uri.host@,
                uri.path@,
                now,
            ));
        }
        while i < self.cookies.len()
            invariant
                i <= self.cookies@.len(),
                s == self@,
                self@ == Seq::new(self.cookies@.len(), |m: int| self.cookies@[m]@),
                char_views(pairs@) == matching_pairs(
                    s.take(i as int),
                    uri.https,
                    uri.host@,
                    uri.path@,
                    now,
                ),
            decreases self.cookies.len() - i,
        {
            let ghost pre = s.take(i as int);
            proof {
                assert(s.take(i + 1 as int).drop_last() =~= pre);
                assert(s.take(i + 1 as int).last() == s[i as int]);
                assert(s[i as int] == self.cookies@[i as int]@);
            }
            let c = &self.cookies[i];
            if c.matches(uri, now) {
                let mut pair = chars_of(c.name.as_str());
                pair.push('=');
                let val = chars_of(c.value.as_str());
                let mut m: usize = 0;
                let ghost base = pair@;
                while m < val.len()
                    invariant
                        m <= val@.len(),
                        pair@ == base + val@.take(m as int),
                    decreases val.len() - m,
                {
                    pair.push(val[m]);
                    m = m + 1;
                    proof {
                        assert(pair@ =~= base + val@.take(m as int));
                    }
                }
                proof {
                    assert(val@.take(val@.len() as int) =~= val@);
                    assert(pair@ =~= render_pair(s[i as int]));
                }
                pairs.push(pair);
                proof {
                    assert(char_views(pairs@) =~= char_views(pairs@.drop_last()).push(
                        pairs@.last()@,
                    ));
                }
            }
            i = i + 1;
        }
        proof {
            assert(s.take(s.len() as int) =~= s);
        }
        if pairs.len() == 0 {
            proof {
                assert(matching_pairs(s, uri.https, uri.host@, uri.path@, now).len()
                    == char_views(pairs@).len());
            }
            return None;
        }
        proof {
            assert(matching_pairs(s, uri.https, uri.host@, uri.path@, now).len() == char_views(
                pairs@,
            ).len());
        }
        let sorted = sort_chars(pairs);
        let sep = chars_of("; ");
        let glued = join_chars(&sorted, &sep);
        Some(string_of(&glued))
    }

    /// Reads every `Set-Cookie` header of a response in the context of the
    /// URI that produced it; headers that cannot be read as cookies are
    /// dropped one by one, and the batch is then stored.
    pub fn ingest(&mut self, headers: &Vec<String>, uri: &Uri, now: i64)
        requires
            jar_wf(old(self)@),
        ensures
            final(self)@ == store_after(
                old(self)@,
                parsed_cookies(
                    Seq::new(headers@.len(), |i: int| headers@[i]@),
                    uri.host@,
                    uri.path@,
                    now,
                ),
                now,
            ),
            jar_wf(final(self)@),
    {
        let ghost hv = Seq::new(headers@.len(), |i: int| headers@[i]@);
        let mut batch: Vec<Cookie> = Vec::new();
        let mut i: usize = 0;
        proof {
            assert(Seq::new(batch@.len(), |m: int| batch@[m]@) =~= parsed_cookies(
                hv.take(0),
                uri.host@,
                uri.path@,
                now,
            ));
        }
        while i < headers.len()
            invariant
                i <= headers@.len(),
                hv == Seq::new(headers@.len(), |m: int| headers@[m]@),
                Seq::new(batch@.len(), |m: int| batch@[m]@) == parsed_cookies(
                    hv.take(i as int),
                    uri.host@,
                    uri.path@,
                    now,
                ),
                jar_wf(self@),
                self@ == old(self)@,
            decreases headers.len() - i,
        {
            let ghost pre = hv.take(i as int);
            proof {
                assert(hv.take(i + 1 as int).drop_last() =~= pre);
                assert(hv.take(i + 1 as int).last() == hv[i as int]);
                assert(hv[i as int] == headers@[i as int]@);
            }
            match Cookie::parse(headers[i].as_str(), uri, now) {
                Some(c) => {
                    batch.push(c);
                    proof {
                        assert(Seq::new(batch@.len(), |m: int| batch@[m]@) =~= Seq::new(
                            batch@.drop_last().len(),
                            |m: int| batch@.drop_last()[m]@,
                        ).push(batch@.last()@));
                    }
                },
                None => {},
            }
            i = i + 1;
        }
        proof {
            assert(hv.take(hv.len() as int) =~= hv);
        }
        self.add(batch, now);
    }
}

/// The cookies successfully parsed from a list of `Set-Cookie` headers, in
/// header order.
pub open spec fn parsed_cookies(
    hs: Seq<Seq<char>>,
    host: Seq<char>,
    upath: Seq<char>,
    now: i64,
) -> Seq<CookieView>
    decreases hs.len(),
{
    if hs.len() == 0 {
        seq![]
    } else {
        let rest = parsed_cookies(hs.drop_last(), host, upath, now);
        match parse_set_cookie(hs.last(), host, upath, now) {
            Some(c) => rest.push(c),
            None => rest,
        }
    }
}

/// The rendered header lists every matching (hence still-unexpired) cookie's
/// `name=value` pair: the sorted pair list is a permutation of the matching
/// pairs — each pair exactly as often as a matching cookie renders it — and
/// it is in lexicographic order. The header text itself is these pairs
/// joined with `"; "`.
pub proof fn lemma_header_lists_every_match(
    s: Seq<CookieView>,
    https: bool,
    host: Seq<char>,
    path: Seq<char>,
    now: i64,
)
    ensures
        sort_lex(matching_pairs(s, https, host, path, now)).to_multiset() == matching_pairs(
            s,
            https,
            host,
            path,
            now,
        ).to_multiset(),
        sorted_lex(sort_lex(matching_pairs(s, https, host, path, now))),
        forall|i: int|
            0 <= i < s.len() && cookie_matches(#[trigger] s[i], https, host, path, now)
                ==> matching_pairs(s, https, host, path, now).contains(render_pair(s[i])),
{
    lemma_sort_lex_props(matching_pairs(s, https, host, path, now));
    lemma_matching_pairs_contain(s, https, host, path, now);
}

proof fn lemma_matching_pairs_contain(
    s: Seq<CookieView>,
    https: bool,
    host: Seq<char>,
    path: Seq<char>,
    now: i64,
)
    ensures
        forall|i: int|
            0 <= i < s.len() && cookie_matches(#[trigger] s[i], https, host, path, now)
                ==> matching_pairs(s, https, host, path, now).contains(render_pair(s[i])),
    decreases s.len(),
{
    if s.len() > 0 {
        let t = s.drop_last();
        lemma_matching_pairs_contain(t, https, host, path, now);
        let rest = matching_pairs(t, https, host, path, now);
        let whole = matching_pairs(s, https, host, path, now);
        assert forall|i: int|
            0 <= i < s.len() && cookie_matches(#[trigger] s[i], https, host, path, now) implies whole.contains(
            render_pair(s[i]),
        ) by {
            if i < s.len() - 1 {
                assert(t[i] == s[i]);
                assert(rest.contains(render_pair(s[i])));
                let w = choose|w: int| 0 <= w < rest.len() && rest[w] == render_pair(s[i]);
                if cookie_matches(s.last(), https, host, path, now) {
                    assert(whole[w] == rest[w]);
                } else {
                    assert(whole == rest);
                }
            } else {
                assert(whole.last() == render_pair(s.last()));
            }
        }
    }
}

/// A cookie whose `Domain` attribute does not domain-match the host of the
/// request that set it is never stored: the whole header is rejected.
pub proof fn lemma_foreign_domain_rejected(
    header: Seq<char>,
    host: Seq<char>,
    upath: Seq<char>,
    now: i64,
)
    requires
        fold_attrs(init_attrs(), split_on(header, ';').drop_first(), now).domain matches Some(d)
            && !domain_match(host, d),
    ensures
        parse_set_cookie(header, host, upath, now) is None,
{
}

/// A `Max-Age` attribute of zero (or fewer) seconds sets the earliest
/// representable expiry: the cookie is expired the moment it is stored.
pub proof fn lemma_max_age_zero_expires_at_once(st: CookieAttrs, seg: Seq<char>, now: i64)
    requires
        named(attr_parts(seg).0, "Max-Age"@),
        attr_parts(seg).1 matches Some(v) && parse_i64_text(v) matches Some(secs) && secs <= 0,
    ensures
        apply_attr(st, seg, now).expiration == Some(i64::MIN),
{
    assert(!named(attr_parts(seg).0, "Expires"@)) by {
        lemma_distinct_attr_names();
    }
    assert(!named(attr_parts(seg).0, "Domain"@)) by {
        lemma_distinct_attr_names();
    }
}

/// The recognized attribute names differ from one another even without
/// regard to case, so one segment can change at most one attribute.
proof fn lemma_distinct_attr_names()
    ensures
        lower_all("Max-Age"@) != lower_all("Expires"@),
        lower_all("Max-Age"@) != lower_all("Domain"@),
        lower_all("Expires"@) != lower_all("Domain"@),
        lower_all("Path"@) != lower_all("Expires"@),
        lower_all("Path"@) != lower_all("Domain"@),
        lower_all("Path"@) != lower_all("Max-Age"@),
        lower_all("Secure"@) != lower_all("Expires"@),
        lower_all("Secure"@) != lower_all("Domain"@),
        lower_all("Secure"@) != lower_all("Max-Age"@),
        lower_all("Secure"@) != lower_all("Path"@),
{
    reveal_strlit("Max-Age");
    reveal_strlit("Expires");
    reveal_strlit("Domain");
    reveal_strlit("Path");
    reveal_strlit("Secure");
    assert(lower_all("Max-Age"@).len() == 7);
    assert(lower_all("Expires"@).len() == 7);
    assert(lower_all("Domain"@).len() == 6);
    assert(lower_all("Path"@).len() == 4);
    assert(lower_all("Secure"@).len() == 6);
    assert(lower_all("Max-Age"@)[0] == lower('M'));
    assert(lower_all("Expires"@)[0] == lower('E'));
    assert(lower_all("Domain"@)[0] == lower('D'));
    assert(lower_all("Secure"@)[0] == lower('S'));
}

/// An expired cookie matches no request, so `header_for` never serves one;
/// in particular a cookie stored as already expired is never served.
pub proof fn lemma_expired_matches_nothing(
    c: CookieView,
    https: bool,
    host: Seq<char>,
    path: Seq<char>,
    now: i64,
)
    requires
        cookie_expired(c, now),
    ensures
        !cookie_matches(c, https, host, path, now),
{
}

/// Round trip: a cookie parsed from a `Set-Cookie` text carries exactly the
/// `name=value` pair of the text's first segment, and rendering it through
/// the header builder on a store holding only this cookie reproduces that
/// pair as the whole header.
pub proof fn lemma_parse_render_round_trip(
    header: Seq<char>,
    host: Seq<char>,
    upath: Seq<char>,
    now: i64,
    c: CookieView,
    https: bool,
    rhost: Seq<char>,
    rpath: Seq<char>,
    at: i64,
)
    requires
        parse_set_cookie(header, host, upath, now) == Some(c),
        cookie_matches(c, https, rhost, rpath, at),
    ensures
        c.name == attr_parts(split_on(header, ';')[0]).0,
        attr_parts(split_on(header, ';')[0]).1 == Some(c.value),
        header_text(seq![c], https, rhost, rpath, at) == render_pair(c),
{
    let single = seq![c];
    assert(single.drop_last() =~= Seq::<CookieView>::empty());
    assert(single.last() == c);
    let mp = matching_pairs(single, https, rhost, rpath, at);
    let rest = matching_pairs(single.drop_last(), https, rhost, rpath, at);
    assert(rest =~= Seq::<Seq<char>>::empty());
    assert(mp =~= seq![render_pair(c)]);
    assert(mp.drop_first() =~= Seq::<Seq<char>>::empty());
    assert(sort_lex(mp) == crate::text::insert_lex(mp[0], sort_lex(mp.drop_first())));
    assert(sort_lex(mp) =~= seq![render_pair(c)]);
    assert(joined(seq![render_pair(c)], "; "@) == render_pair(c));
}

proof fn lemma_upsert_all_snoc(s: Seq<CookieView>, cs: Seq<CookieView>)
    requires
        cs.len() > 0,
    ensures
        upsert_all(s, cs) == upsert(upsert_all(s, cs.drop_last()), cs.last()),
    decreases cs.len(),
{
    if cs.len() == 1 {
        assert(cs.drop_last() =~= Seq::<CookieView>::empty());
        assert(cs.drop_first() =~= Seq::<CookieView>::empty());
        assert(upsert_all(upsert(s, cs[0]), cs.drop_first()) == upsert(s, cs[0]));
        assert(upsert_all(s, cs.drop_last()) == s);
    } else {
        let t = cs.drop_first();
        lemma_upsert_all_snoc(upsert(s, cs[0]), t);
        assert(t.drop_last() =~= cs.drop_last().drop_first());
        assert(t.last() == cs.last());
        assert(cs.drop_last()[0] == cs[0]);
        assert(upsert_all(s, cs) == upsert_all(upsert(s, cs[0]), t));
        assert(upsert_all(s, cs.drop_last()) == upsert_all(
            upsert(s, cs[0]),
            cs.drop_last().drop_first(),
        ));
        assert(upsert_all(upsert(s, cs[0]), t) == upsert(
            upsert_all(upsert(s, cs[0]), t.drop_last()),
            t.last(),
        ));
    }
}

} // verus!
