//! The session layer and the orchestrator's request plans.

use klikbca::accounts::{BcaAccount, Method};
use klikbca::clients::{Endpoints, endpoint_url, Session};
use klikbca::dates::Date;
use klikbca::states::{AppState, InputMode};

const NOW: i64 = 1_700_000_000;

#[test]
fn endpoint_urls_render() {
    assert_eq!(
        endpoint_url(Endpoints::Login).to_url(),
        "https://m.klikbca.com/login.jsp"
    );
    assert_eq!(
        endpoint_url(Endpoints::Authentication).to_url(),
        "https://m.klikbca.com/authentication.do"
    );
    assert_eq!(
        endpoint_url(Endpoints::AccountStatement).to_url(),
        "https://m.klikbca.com/accountstmt.do"
    );
    assert_eq!(
        endpoint_url(Endpoints::BalanceInquiry).to_url(),
        "https://m.klikbca.com/balanceinquiry.do"
    );
    assert_eq!(endpoint_url(Endpoints::PubIp).to_url(), "http://icanhazip.com/");
}

#[test]
fn form_encoding_escapes_reserved_bytes() {
    let acc = BcaAccount::new("u 1".to_string(), "p&=?".to_string());
    let reqs = acc.login_requests("1.2.3.4");
    let body = reqs[1].encoded_body().expect("login posts a form");
    assert!(body.starts_with("value%28user_id%29=u+1&value%28pswd%29=p%26%3D%3F&"));
    assert!(reqs[0].encoded_body().is_none());
}

#[test]
fn default_headers_identify_a_mobile_browser() {
    let session = Session::new();
    let uri = endpoint_url(Endpoints::Login);
    let headers = session.request_headers(&uri, NOW);
    assert_eq!(headers.len(), 7);
    assert_eq!(headers[0].0, "User-Agent");
    assert!(headers[0].1.contains("iPhone"));
    assert_eq!(
        headers[1],
        ("Upgrade-Insecure-Requests".to_string(), "1".to_string())
    );
    assert_eq!(headers[3], ("Host".to_string(), "m.klikbca.com".to_string()));
    // no cookie header while the store is empty
    assert!(headers.iter().all(|(k, _)| k != "Cookie"));
}

#[test]
fn login_plan_carries_credentials_and_ip() {
    let acc = BcaAccount::new("u1".to_string(), "p1".to_string());
    let reqs = acc.login_requests("1.2.3.4");
    assert_eq!(reqs.len(), 2);
    assert_eq!(reqs[0].method, Method::Get);
    assert_eq!(reqs[0].uri.to_url(), "https://m.klikbca.com/login.jsp");
    assert!(reqs[0].form.is_none());
    assert_eq!(reqs[1].method, Method::Post);
    assert_eq!(reqs[1].uri.to_url(), "https://m.klikbca.com/authentication.do");
    let form = reqs[1].form.as_ref().expect("login posts a form");
    assert_eq!(form[0], ("value(user_id)".to_string(), "u1".to_string()));
    assert_eq!(form[1], ("value(pswd)".to_string(), "p1".to_string()));
    assert_eq!(form[2], ("value(Submit)".to_string(), "LOGIN".to_string()));
    assert_eq!(form[4], ("value(user_ip)".to_string(), "1.2.3.4".to_string()));
    assert_eq!(form[5], ("user_ip".to_string(), "1.2.3.4".to_string()));
}

#[test]
fn statement_plan_splits_the_range_into_six_fields() {
    let acc = BcaAccount::new("u1".to_string(), "p1".to_string());
    let start = Date::new(2023, 11, 1).expect("valid date");
    let end = Date::new(2023, 11, 7).expect("valid date");
    let reqs = acc.statement_requests(&start, &end);
    assert_eq!(reqs.len(), 2);
    let nav = reqs[0].form.as_ref().expect("navigation posts a form");
    assert_eq!(nav[0], ("value(actions)".to_string(), "acct_stmt".to_string()));
    let form = reqs[1].form.as_ref().expect("statement posts a form");
    assert_eq!(form[2], ("value(startDt)".to_string(), "01".to_string()));
    assert_eq!(form[3], ("value(startMt)".to_string(), "11".to_string()));
    assert_eq!(form[4], ("value(startYr)".to_string(), "2023".to_string()));
    assert_eq!(form[5], ("value(endDt)".to_string(), "07".to_string()));
    assert_eq!(form[6], ("value(endMt)".to_string(), "11".to_string()));
    assert_eq!(form[7], ("value(endYr)".to_string(), "2023".to_string()));
    assert_eq!(form[8], ("value(actions)".to_string(), "acctstmtview".to_string()));
}

#[test]
fn extract_ip_strips_the_trailing_newline() {
    assert_eq!(klikbca::accounts::extract_ip("1.2.3.4\n"), "1.2.3.4");
    assert_eq!(klikbca::accounts::extract_ip(" 10.0.0.1 \r\n"), "10.0.0.1");
}

// a login round against a stubbed reply transitions the session to
// logged-in, and the next request to the same host and path carries the
// cookie the reply set.
#[test]
fn login_round_trip_carries_the_session_cookie() {
    let acc = BcaAccount::new("u1".to_string(), "p1".to_string());
    let mut session = Session::new();
    let today = Date::new(2023, 11, 7).expect("valid date");
    let mut state = AppState::new(&today);
    assert!(!state.is_logged_in);

    let reqs = acc.login_requests("1.2.3.4");
    // the stub server answers the authentication post with a session cookie
    let auth_uri = &reqs[1].uri;
    session.absorb_response(&vec!["SESSION=abc; Path=/".to_string()], auth_uri, NOW);
    state.toggle_login();

    assert!(state.is_logged_in);
    let headers = session.request_headers(auth_uri, NOW);
    assert!(headers.contains(&("Cookie".to_string(), "SESSION=abc".to_string())));
}

#[test]
fn app_state_updates_dates_from_the_input_line() {
    let today = Date::new(2023, 11, 7).expect("valid date");
    let mut state = AppState::new(&today);
    assert_eq!(state.input_mode, InputMode::Normal);
    // the default range covers the seven days up to today
    assert_eq!(
        (state.start_date.year, state.start_date.month, state.start_date.day),
        (2023, 10, 31)
    );
    assert_eq!(state.end_date, today);

    state.input_string = "01/10/2023 - 15/10/2023".to_string();
    state.update_dates().expect("range parses");
    assert_eq!(
        (state.start_date.year, state.start_date.month, state.start_date.day),
        (2023, 10, 1)
    );
    assert_eq!(
        (state.end_date.year, state.end_date.month, state.end_date.day),
        (2023, 10, 15)
    );

    state.input_string = "just one date".to_string();
    assert!(state.update_dates().is_err());
}

#[test]
fn table_selection_wraps_both_ways() {
    let today = Date::new(2023, 11, 7).expect("valid date");
    let mut state = AppState::new(&today);
    // an empty table keeps an empty selection
    state.on_down();
    assert_eq!(state.account_mutations.selected, None);

    state.account_mutations.items = vec![
        vec!["a".to_string()],
        vec!["b".to_string()],
        vec!["c".to_string()],
    ];
    state.on_down();
    assert_eq!(state.account_mutations.selected, Some(0));
    state.on_down();
    assert_eq!(state.account_mutations.selected, Some(1));
    state.on_up();
    assert_eq!(state.account_mutations.selected, Some(0));
    state.on_up();
    assert_eq!(state.account_mutations.selected, Some(2));
    state.on_down();
    assert_eq!(state.account_mutations.selected, Some(0));
}
