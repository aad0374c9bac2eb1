use axum::response::IntoResponse;
use axum_extra::extract::cookie::{Cookie, Key, SignedCookieJar};
use inertia_axum::csrf::{hex_bytes, percent_decode, raw_cookies, Csrf, CsrfVerdict, CSRF_MISMATCH};
use inertia_axum::middleware::Method;

const KEY: [u8; 64] = [9u8; 64];

/// The raw (percent-encoded) value of a token cookie signed with `KEY`, as sent.
fn signed(token: &str) -> String {
    let jar = SignedCookieJar::new(Key::from(&KEY)).add(Cookie::new("XSRF-TOKEN", token.to_string()));
    let res = (jar, ()).into_response();
    let set = res.headers().get(axum::http::header::SET_COOKIE).unwrap().to_str().unwrap().to_string();
    set.split(';').next().unwrap().trim_start_matches("XSRF-TOKEN=").to_string()
}

fn csrf() -> Csrf {
    Csrf::new(KEY.to_vec()).exempt("/api".into()).exempt("/hooks/".into())
}

#[test]
fn unsafe_requests_need_the_token_back() {
    let raw = signed("tok123");
    let cookies = vec![format!("theme=dark; XSRF-TOKEN={raw}")];
    let c = csrf();
    assert_eq!(c.check(Method::Post, "/form", &cookies, Some(&raw)), CsrfVerdict::Pass { issue_token: false });
    // The client may echo it decoded, as `decodeURIComponent` gives it.
    let decoded = percent_decode(&raw);
    assert_eq!(c.check(Method::Post, "/form", &cookies, Some(&decoded)), CsrfVerdict::Pass { issue_token: false });
    assert_eq!(c.check(Method::Post, "/form", &cookies, Some("forged")), CsrfVerdict::Reject);
    assert_eq!(c.check(Method::Delete, "/form", &cookies, None), CsrfVerdict::Reject);
    assert_eq!(CSRF_MISMATCH, 419);
}

#[test]
fn unsigned_tokens_are_not_valid() {
    let cookies = vec!["XSRF-TOKEN=madeup".to_string()];
    let c = csrf();
    assert!(c.valid_tokens(&cookies).is_empty());
    assert_eq!(c.check(Method::Put, "/form", &cookies, Some("madeup")), CsrfVerdict::Reject);
    assert_eq!(c.check(Method::Get, "/form", &cookies, None), CsrfVerdict::Pass { issue_token: true });
}

#[test]
fn safe_methods_and_exempt_paths_pass() {
    let c = csrf();
    for m in [Method::Get, Method::Head, Method::Options, Method::Trace] {
        assert_eq!(c.check(m, "/form", &vec![], None), CsrfVerdict::Pass { issue_token: true });
    }
    assert_eq!(c.check(Method::Post, "/api", &vec![], None), CsrfVerdict::Pass { issue_token: true });
    assert_eq!(c.check(Method::Post, "/api/x", &vec![], None), CsrfVerdict::Pass { issue_token: true });
    assert_eq!(c.check(Method::Post, "/apiary", &vec![], None), CsrfVerdict::Reject);
    assert_eq!(c.check(Method::Post, "/hooks/stripe", &vec![], None), CsrfVerdict::Pass { issue_token: true });
    assert!(c.is_exempt("/hooks/"));
    assert!(!c.is_exempt("/hook"));
}

#[test]
fn raw_cookies_are_found_in_every_header() {
    let headers = vec!["a=1; XSRF-TOKEN=x%3D".to_string(), " XSRF-TOKEN = y ;XSRF-TOKEN=z".to_string()];
    assert_eq!(raw_cookies(&headers, "XSRF-TOKEN"), ["x%3D", "z"]);
}

#[test]
fn percent_decoding() {
    assert_eq!(percent_decode("a%3Db%2f"), "a=b/");
    assert_eq!(percent_decode("%zz%4"), "%zz%4");
    assert_eq!(percent_decode("%C3%A9"), "é");
    assert_eq!(percent_decode("%FF"), "%FF");
    assert_eq!(percent_decode("%+f"), "\u{f}");
}

#[test]
fn tokens_are_64_hex_digits() {
    let t = csrf().new_token().unwrap();
    assert_eq!(t.len(), 64);
    assert!(t.chars().all(|c| c.is_ascii_hexdigit() && !c.is_ascii_uppercase()));
    assert_eq!(hex_bytes(&vec![0, 15, 255]), "000fff");
    assert_eq!(percent_decode(&t), t, "an issued token decodes to itself");
}
