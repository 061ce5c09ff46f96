//! Cookie store behaviour against real header texts.

use klikbca::cookies::{Cookie, CookieJar, Uri};

const NOW: i64 = 1_700_000_000;

fn https_uri(host: &str, path: &str) -> Uri {
    Uri::new(true, host, path)
}

#[test]
fn parse_keeps_name_value_and_default_path() {
    let uri = https_uri("m.klikbca.com", "/login.jsp");
    let c = Cookie::parse("SESSION=abc", &uri, NOW).expect("cookie parses");
    assert_eq!(c.name, "SESSION");
    assert_eq!(c.value, "abc");
    assert_eq!(c.path, "/");
    assert!(c.host_only);
    assert_eq!(c.domain, "m.klikbca.com");
    assert_eq!(c.expiration, None);
    assert!(!c.secure);
}

#[test]
fn parse_default_path_truncates_at_last_slash() {
    let uri = https_uri("m.klikbca.com", "/a/b/c");
    let c = Cookie::parse("k=v", &uri, NOW).expect("cookie parses");
    assert_eq!(c.path, "/a/b");
}

#[test]
fn parse_without_equals_is_dropped() {
    let uri = https_uri("m.klikbca.com", "/");
    assert!(Cookie::parse("bare-token", &uri, NOW).is_none());
}

#[test]
fn parse_trims_name_and_value() {
    let uri = https_uri("m.klikbca.com", "/");
    let c = Cookie::parse("  name =  v1 ; Secure", &uri, NOW).expect("cookie parses");
    assert_eq!(c.name, "name");
    assert_eq!(c.value, "v1");
    assert!(c.secure);
}

#[test]
fn parse_reads_attributes() {
    let uri = https_uri("m.klikbca.com", "/x/y");
    let c = Cookie::parse(
        "sid=1; Domain=.KlikBCA.com; Path=/x; Secure; Max-Age=60",
        &uri,
        NOW,
    )
    .expect("cookie parses");
    assert_eq!(c.domain, "klikbca.com");
    assert!(!c.host_only);
    assert_eq!(c.path, "/x");
    assert!(c.secure);
    assert_eq!(c.expiration, Some(NOW + 60));
}

// a Domain that does not domain-match the setting host is never stored.
#[test]
fn foreign_domain_is_rejected() {
    let uri = https_uri("m.klikbca.com", "/");
    assert!(Cookie::parse("sid=1; Domain=evil.com", &uri, NOW).is_none());

    let mut jar = CookieJar::new();
    jar.ingest(&vec!["sid=1; Domain=evil.com".to_string()], &uri, NOW);
    assert_eq!(jar.get_cookies(&uri, NOW), None);
}

#[test]
fn top_level_domain_is_rejected() {
    let uri = https_uri("com", "/");
    // the host matches the domain exactly, but a dotless domain is refused
    assert!(Cookie::parse("sid=1; Domain=com", &uri, NOW).is_none());
}

#[test]
fn ipv4_host_never_suffix_matches() {
    let uri = https_uri("1.2.3.4", "/");
    // "1.2.3.4" ends with ".2.3.4", but an IP literal must match exactly
    assert!(Cookie::parse("sid=1; Domain=2.3.4", &uri, NOW).is_none());
}

#[test]
fn ipv6_host_never_suffix_matches() {
    // an IPv4-mapped IPv6 host ends with ".2.3.4" yet is an IP literal
    let uri = https_uri("::ffff:1.2.3.4", "/");
    assert!(Cookie::parse("sid=1; Domain=2.3.4", &uri, NOW).is_none());
    // a host that merely looks similar is a name, so the suffix may match
    let name_uri = https_uri("x.2.3.4x.example", "/");
    assert!(Cookie::parse("sid=1; Domain=2.3.4x.example", &name_uri, NOW).is_some());
}

// a Max-Age=0 cookie is immediately expired: stored then swept,
// header_for returns none for it.
#[test]
fn max_age_zero_expires_at_once() {
    let uri = https_uri("m.klikbca.com", "/");
    let mut jar = CookieJar::new();
    jar.ingest(&vec!["sid=1; Max-Age=0".to_string()], &uri, NOW);
    assert_eq!(jar.get_cookies(&uri, NOW), None);
    // and at any later time as well
    assert_eq!(jar.get_cookies(&uri, NOW + 1000), None);
}

#[test]
fn max_age_counts_from_now() {
    let uri = https_uri("m.klikbca.com", "/");
    let mut jar = CookieJar::new();
    jar.ingest(&vec!["sid=1; Max-Age=10".to_string()], &uri, NOW);
    assert_eq!(jar.get_cookies(&uri, NOW), Some("sid=1".to_string()));
    assert_eq!(jar.get_cookies(&uri, NOW + 5), Some("sid=1".to_string()));
    // the sweep happens on writes; a read after the deadline just filters
    assert_eq!(jar.get_cookies(&uri, NOW + 11), None);
}

#[test]
fn expires_attribute_is_read_as_rfc2822() {
    let uri = https_uri("m.klikbca.com", "/");
    let c = Cookie::parse(
        "sid=1; Expires=Wed, 15 Nov 2023 22:13:20 GMT",
        &uri,
        NOW,
    )
    .expect("cookie parses");
    // 2023-11-15 22:13:20 UTC is epoch second 1_700_086_400
    assert_eq!(c.expiration, Some(1_700_086_400));
}

#[test]
fn malformed_expires_is_ignored() {
    let uri = https_uri("m.klikbca.com", "/");
    let c = Cookie::parse("sid=1; Expires=yesterday-ish", &uri, NOW).expect("cookie parses");
    assert_eq!(c.expiration, None);
}

#[test]
fn clean_max_age_wins_over_expires() {
    let uri = https_uri("m.klikbca.com", "/");
    let c = Cookie::parse(
        "sid=1; Expires=Wed, 15 Nov 2023 22:13:20 GMT; Max-Age=60",
        &uri,
        NOW,
    )
    .expect("cookie parses");
    assert_eq!(c.expiration, Some(NOW + 60));
    let c2 = Cookie::parse(
        "sid=1; Max-Age=60; Expires=Wed, 15 Nov 2023 22:13:20 GMT",
        &uri,
        NOW,
    )
    .expect("cookie parses");
    assert_eq!(c2.expiration, Some(NOW + 60));
}

#[test]
fn malformed_max_age_is_ignored() {
    let uri = https_uri("m.klikbca.com", "/");
    let c = Cookie::parse("sid=1; Max-Age=soon", &uri, NOW).expect("cookie parses");
    assert_eq!(c.expiration, None);
}

#[test]
fn secure_cookie_needs_https() {
    let set_uri = https_uri("m.klikbca.com", "/");
    let mut jar = CookieJar::new();
    jar.ingest(&vec!["sid=1; Secure".to_string()], &set_uri, NOW);
    assert_eq!(jar.get_cookies(&set_uri, NOW), Some("sid=1".to_string()));
    let plain = Uri::new(false, "m.klikbca.com", "/");
    assert_eq!(jar.get_cookies(&plain, NOW), None);
}

#[test]
fn host_only_cookie_matches_exact_host_case_insensitively() {
    let set_uri = https_uri("m.klikbca.com", "/");
    let mut jar = CookieJar::new();
    jar.ingest(&vec!["sid=1".to_string()], &set_uri, NOW);
    let same = https_uri("M.KlikBCA.com", "/");
    assert_eq!(jar.get_cookies(&same, NOW), Some("sid=1".to_string()));
    let sub = https_uri("x.m.klikbca.com", "/");
    assert_eq!(jar.get_cookies(&sub, NOW), None);
}

#[test]
fn domain_cookie_matches_subdomains() {
    let set_uri = https_uri("m.klikbca.com", "/");
    let mut jar = CookieJar::new();
    jar.ingest(&vec!["sid=1; Domain=klikbca.com".to_string()], &set_uri, NOW);
    let sub = https_uri("www.klikbca.com", "/");
    assert_eq!(jar.get_cookies(&sub, NOW), Some("sid=1".to_string()));
    let exact = https_uri("klikbca.com", "/");
    assert_eq!(jar.get_cookies(&exact, NOW), Some("sid=1".to_string()));
    let other = https_uri("notklikbca.com", "/");
    assert_eq!(jar.get_cookies(&other, NOW), None);
}

#[test]
fn path_match_needs_a_boundary() {
    let set_uri = https_uri("m.klikbca.com", "/");
    let mut jar = CookieJar::new();
    jar.ingest(&vec!["sid=1; Path=/a".to_string()], &set_uri, NOW);
    assert_eq!(
        jar.get_cookies(&https_uri("m.klikbca.com", "/a"), NOW),
        Some("sid=1".to_string())
    );
    assert_eq!(
        jar.get_cookies(&https_uri("m.klikbca.com", "/a/b"), NOW),
        Some("sid=1".to_string())
    );
    assert_eq!(jar.get_cookies(&https_uri("m.klikbca.com", "/ab"), NOW), None);
}

// the header contains every still-unexpired matching cookie's
// name=value, each exactly once, sorted lexically.
#[test]
fn header_lists_matching_cookies_sorted() {
    let uri = https_uri("m.klikbca.com", "/");
    let mut jar = CookieJar::new();
    jar.ingest(
        &vec![
            "zeta=26".to_string(),
            "alpha=1".to_string(),
            "gone=0; Max-Age=0".to_string(),
            "midway=13".to_string(),
        ],
        &uri,
        NOW,
    );
    assert_eq!(
        jar.get_cookies(&uri, NOW),
        Some("alpha=1; midway=13; zeta=26".to_string())
    );
}

#[test]
fn same_key_overwrites() {
    let uri = https_uri("m.klikbca.com", "/");
    let mut jar = CookieJar::new();
    jar.ingest(&vec!["sid=old".to_string()], &uri, NOW);
    jar.ingest(&vec!["sid=new".to_string()], &uri, NOW);
    assert_eq!(jar.get_cookies(&uri, NOW), Some("sid=new".to_string()));
}

#[test]
fn bad_headers_are_dropped_one_by_one() {
    let uri = https_uri("m.klikbca.com", "/");
    let mut jar = CookieJar::new();
    jar.ingest(
        &vec![
            "good=1".to_string(),
            "no-equals-sign".to_string(),
            "foreign=1; Domain=elsewhere.org".to_string(),
        ],
        &uri,
        NOW,
    );
    assert_eq!(jar.get_cookies(&uri, NOW), Some("good=1".to_string()));
}

// a cookie parsed from a Set-Cookie string and rendered through the
// header builder reproduces the same name=value pair.
#[test]
fn parse_then_render_round_trips() {
    let uri = https_uri("m.klikbca.com", "/login.jsp");
    let mut jar = CookieJar::new();
    jar.ingest(&vec!["SESSION=abc; Path=/".to_string()], &uri, NOW);
    let header = jar.get_cookies(&uri, NOW).expect("cookie is served");
    assert_eq!(header, "SESSION=abc");
}
