use inertia_axum::inertia::{first_visit, FirstVisit, PageRoute};
use inertia_axum::ssr::SsrResponse;
use inertia_axum::form::{form_outcome, FormOutcome};
use inertia_axum::config::InertiaConfig;
use inertia_axum::flash::FlashData;
use inertia_axum::inertia::{header_list, same_site_location, Inertia, LocationAnswer, PrecognitionAnswer, RequestHeaders};
use inertia_axum::json::JsonValue;
use inertia_axum::props::{Prop, Props};
use inertia_axum::resolve::ResolveError;
use inertia_axum::scroll::MergeIntent;

fn t(s: &str) -> JsonValue {
    JsonValue::Text(s.into())
}

fn obj(e: Vec<(&str, JsonValue)>) -> JsonValue {
    JsonValue::Object(e.into_iter().map(|(k, v)| (k.to_string(), v)).collect())
}

fn headers(f: impl FnOnce(&mut RequestHeaders)) -> RequestHeaders {
    let mut h = RequestHeaders { url: "/feed?page=2".into(), inertia: true, ..Default::default() };
    f(&mut h);
    h
}

fn ctx(h: RequestHeaders) -> Inertia {
    Inertia::from_request(InertiaConfig::new().with_version("1".into()), h, None)
}

fn back(host: Option<&str>, referer: Option<&str>, allowed: &[&str]) -> String {
    let mut config = InertiaConfig::new();
    config.allowed_redirect_hosts = allowed.iter().map(|s| s.to_string()).collect();
    let h = RequestHeaders {
        url: "/back".into(),
        referer: referer.map(String::from),
        host: host.map(String::from),
        ..Default::default()
    };
    Inertia::from_request(config, h, None).back().location
}

#[test]
fn same_site_referers_become_relative_urls() {
    let cases = [
        ("app.test", "http://app.test/form?step=2", "/form?step=2"),
        ("app.test", "https://app.test/form", "/form"),
        ("app.test", "https://APP.test/x", "/x"),
        ("app.test:8080", "http://app.test:8080/a", "/a"),
        ("app.test", "http://app.test", "/"),
        ("app.test", "/local/path?q=1", "/local/path?q=1"),
    ];
    for (host, referer, expected) in cases {
        assert_eq!(back(Some(host), Some(referer), &[]), expected, "{referer}");
    }
}

#[test]
fn other_sites_and_tricks_fall_back() {
    let cases = [
        "https://evil.example/phish",
        "http://app.test:9999/other-port",
        "http://app.test@evil.example/userinfo-trick",
        "//evil.example/protocol-relative",
        "/\\\\evil.example/backslash",
        "javascript:alert(1)",
        "ftp://app.test/file",
        "not a url",
    ];
    for referer in cases {
        assert_eq!(back(Some("app.test"), Some(referer), &[]), "/", "{referer}");
        assert_eq!(same_site_location(referer, Some("app.test"), &vec![]), None, "{referer}");
    }
}

#[test]
fn missing_referer_or_host_falls_back() {
    assert_eq!(back(Some("app.test"), None, &[]), "/");
    assert_eq!(back(None, Some("http://app.test/a"), &[]), "/");
}

#[test]
fn allowed_hosts_cover_proxies_that_rewrite_host() {
    let allowed = ["app.example.com"];
    assert_eq!(back(Some("127.0.0.1:5150"), Some("https://app.example.com/settings"), &allowed), "/settings");
    assert_eq!(back(Some("127.0.0.1:5150"), Some("https://evil.example/"), &allowed), "/");
}

#[test]
fn back_or_uses_its_fallback() {
    let h = RequestHeaders { referer: Some("https://evil.example/".into()), host: Some("app.test".into()), ..Default::default() };
    let i = Inertia::from_request(InertiaConfig::new(), h, None);
    assert_eq!(i.back_or("/dashboard".into()).location, "/dashboard");
}

#[test]
fn partial_headers_apply_to_their_component_only() {
    let i = ctx(headers(|h| {
        h.partial_component = Some("Feed".into());
        h.partial_data = Some("stats, categories,".into());
        h.partial_except = Some("user.email".into());
        h.merge_intent = Some("prepend".into());
        h.except_once = Some("plans".into());
    }));
    let req = i.prop_request("Feed");
    assert!(req.partial);
    assert_eq!(req.only, ["stats", "categories"]);
    assert_eq!(req.except, ["user.email"]);
    assert_eq!(req.merge_intent, MergeIntent::Prepend);
    assert_eq!(req.except_once, ["plans"]);
    let other = i.prop_request("Other");
    assert!(!other.partial && other.only.is_empty());
    assert_eq!(other.except_once, ["plans"]);
}

#[test]
fn partial_headers_are_ignored_without_x_inertia() {
    let i = ctx(headers(|h| {
        h.inertia = false;
        h.partial_component = Some("Feed".into());
        h.partial_data = Some("stats".into());
        h.except_once = Some("plans".into());
    }));
    let req = i.prop_request("Feed");
    assert!(!req.partial);
    assert!(req.except_once.is_empty());
}

#[test]
fn header_lists_ignore_blanks() {
    assert_eq!(header_list(Some(" a , ,b,")), ["a", "b"]);
    assert!(header_list(None).is_empty());
}

#[test]
fn error_bag_and_precognition_headers() {
    let i = ctx(headers(|h| {
        h.error_bag = Some("login".into());
        h.precognition = Some("TRUE".into());
        h.precognition_validate_only = Some("email,address".into());
    }));
    assert_eq!(i.error_bag.as_deref(), Some("login"));
    assert!(i.is_precognitive());
    let errors = obj(vec![
        ("name", t("The name is required.")),
        ("email", JsonValue::Array(vec![t("Invalid email."), t("Already taken.")])),
        ("address.street", t("Required.")),
    ]);
    match i.precognition_response(Ok(errors)) {
        PrecognitionAnswer::Invalid(e) => {
            let k: Vec<&str> = e.iter().map(|(k, _)| k.as_str()).collect();
            assert_eq!(k, ["email", "address.street"]);
        }
        other => panic!("{other:?}"),
    }
    let only_addr = ctx(headers(|h| {
        h.precognition = Some("true".into());
        h.precognition_validate_only = Some("addr".into());
    }));
    assert_eq!(only_addr.precognition_response(Ok(obj(vec![("address.street", t("Required."))]))), PrecognitionAnswer::Valid);
    let all = ctx(headers(|h| h.precognition = Some("true".into())));
    match all.precognition_response(Ok(obj(vec![("a", t("x")), ("b", t("y")), ("c", t("z"))]))) {
        PrecognitionAnswer::Invalid(e) => assert_eq!(e.len(), 3),
        other => panic!("{other:?}"),
    }
    assert_eq!(all.precognition_response(Ok(t("nope"))), PrecognitionAnswer::ServerError);
    let empty_bag = ctx(headers(|h| h.error_bag = Some(String::new())));
    assert!(empty_bag.error_bag.is_none() && !empty_bag.is_precognitive());
}

#[test]
fn location_is_a_409_for_inertia_requests() {
    let i = ctx(headers(|_| {}));
    assert_eq!(i.location("https://example.com/pay"), LocationAnswer::Conflict("https://example.com/pay".into()));
    let plain = ctx(headers(|h| h.inertia = false));
    assert_eq!(plain.location("https://example.com/pay"), LocationAnswer::Found("https://example.com/pay".into()));
    assert_eq!(i.location("bad\nvalue"), LocationAnswer::ServerError);
}

#[test]
fn shared_props_errors_and_the_page_object() {
    let mut flash = FlashData::new();
    flash.errors.push(("name".into(), t("The name is required.")));
    flash.flash.push(("toast".into(), t("Saved")));
    let h = headers(|_| {});
    let i = Inertia::from_request(InertiaConfig::new().with_version("1".into()).with_encrypt_history(true), h, Some(flash));
    let shared = Props::new()
        .with("app_name".into(), Prop::value(t("demo")))
        .with("title".into(), Prop::value(t("shared title")));
    let page_props = Props::new().with("title".into(), Prop::value(t("Form")));
    let (props, shared_keys) = i.assemble_props(page_props, shared);
    assert_eq!(shared_keys, ["app_name"]);
    assert_eq!(props.keys(), ["app_name", "title", "errors"]);
    let page = i.build_page("Form", props, shared_keys, vec![], 0).unwrap();
    assert_eq!(page.component, "Form");
    assert_eq!(page.url, "/feed?page=2");
    assert_eq!(page.version, "1");
    assert!(page.encrypt_history && !page.clear_history);
    assert_eq!(
        page.props,
        obj(vec![
            ("app_name", t("demo")),
            ("title", t("Form")),
            ("errors", obj(vec![("name", t("The name is required."))])),
        ])
    );
    assert_eq!(page.flash, vec![("toast".to_string(), t("Saved"))]);
    assert_eq!(page.shared_props, ["app_name"]);

    let i = i.encrypt_history(false).clear_history();
    let (props, keys) = i.assemble_props(Props::new(), Props::new());
    let page = i.build_page("Empty", props, keys, vec![], 0).unwrap();
    assert!(!page.encrypt_history && page.clear_history);
    assert_eq!(page.props, obj(vec![("errors", obj(vec![("name", t("The name is required."))]))]));
}

#[test]
fn errors_survive_a_partial_reload_and_failures_propagate() {
    let i = ctx(headers(|h| {
        h.partial_component = Some("Form".into());
        h.partial_data = Some("other".into());
    }));
    let (props, keys) = i.assemble_props(Props::new().with("x".into(), Prop::value(t("1"))), Props::new());
    let page = i.build_page("Form", props, keys, vec![], 0).unwrap();
    assert_eq!(page.props, obj(vec![("errors", obj(vec![]))]));
    let (props, keys) = i.assemble_props(Props::new().with("other".into(), Prop::lazy(0)), Props::new());
    assert_eq!(
        i.build_page("Form", props, keys, vec![], 0).unwrap_err(),
        ResolveError::Unresolved { path: "other".into() }
    );
}

#[test]
fn flash_added_during_the_request_and_client_markup() {
    let i = ctx(headers(|_| {})).flash("toast".into(), Ok(t("now")));
    assert_eq!(i.flash.flash, vec![("toast".to_string(), t("now"))]);
    let i = i.flash("bad".into(), Err("cannot serialize".into()));
    assert_eq!(i.flash.flash.len(), 1);
    assert_eq!(
        i.client_markup(r#"{"a":"</script>"}"#),
        r#"<script data-page="app" type="application/json">{"a":"\u003c/script\u003e"}</script><div id="app"></div>"#
    );
}

fn submitted_errors() -> JsonValue {
    obj(vec![
        ("name", t("The name is required.")),
        ("email", JsonValue::Array(vec![t("Invalid email."), t("Already taken.")])),
        ("address.street", t("Required.")),
    ])
}

fn precognition(validate_only: Option<&str>) -> Inertia {
    ctx(headers(|h| {
        h.inertia = false;
        h.precognition = Some("true".into());
        h.precognition_validate_only = validate_only.map(String::from);
    }))
}

#[test]
fn errors_come_back_as_422_limited_to_the_validated_fields() {
    assert_eq!(
        precognition(Some("email")).precognition_response(Ok(submitted_errors())),
        PrecognitionAnswer::Invalid(vec![(
            "email".to_string(),
            JsonValue::Array(vec![t("Invalid email."), t("Already taken.")])
        )])
    );
}

#[test]
fn valid_fields_get_204_with_the_success_header() {
    assert_eq!(
        precognition(Some("phone")).precognition_response(Ok(submitted_errors())),
        PrecognitionAnswer::Valid
    );
}

#[test]
fn without_validate_only_every_error_is_returned() {
    match precognition(None).precognition_response(Ok(submitted_errors())) {
        PrecognitionAnswer::Invalid(e) => assert_eq!(e.len(), 3),
        other => panic!("{other:?}"),
    }
}

#[test]
fn nested_fields_match_their_parent() {
    assert_eq!(
        precognition(Some("address")).precognition_response(Ok(submitted_errors())),
        PrecognitionAnswer::Invalid(vec![("address.street".to_string(), t("Required."))])
    );
    assert_eq!(
        precognition(Some("addr")).precognition_response(Ok(submitted_errors())),
        PrecognitionAnswer::Valid,
        "a prefix that is not a path segment does not match"
    );
}

#[test]
fn ordinary_requests_are_not_precognitive() {
    let i = ctx(headers(|h| h.precognition = Some("false".into())));
    assert!(!i.is_precognitive());
    assert!(!ctx(headers(|_| {})).is_precognitive());
}

fn render(i: &Inertia, component: &str) -> inertia_axum::page::Page {
    let (props, keys) = i.assemble_props(Props::new(), Props::new());
    i.build_page(component, props, keys, vec![], 0).unwrap()
}

#[test]
fn history_flags_are_omitted_by_default() {
    let page = render(&ctx(headers(|_| {})), "Home");
    assert!(!page.encrypt_history && !page.clear_history);
}

#[test]
fn encryption_can_be_enabled_globally_or_per_page() {
    assert!(render(&ctx(headers(|_| {})).encrypt_history(true), "Secret").encrypt_history);
    let global = || Inertia::from_request(InertiaConfig::new().with_encrypt_history(true), headers(|_| {}), None);
    assert!(render(&global(), "Home").encrypt_history);
    assert!(!render(&global().encrypt_history(false), "Public").encrypt_history, "a page can opt out");
}

#[test]
fn clear_history_on_the_current_page() {
    assert!(render(&ctx(headers(|_| {})).clear_history(), "Home").clear_history);
}

#[test]
fn clear_history_survives_a_redirect_once() {
    let redirect = ctx(headers(|_| {})).redirect("/".into()).clear_history();
    let flashed = match redirect.into_response() {
        inertia_axum::flash::RedirectResponse::Found { location, flash: Some(d) } => {
            assert_eq!(location, "/");
            d
        }
        other => panic!("{other:?}"),
    };
    let next = Inertia::from_request(InertiaConfig::new(), headers(|_| {}), Some(flashed));
    let page = render(&next, "Home");
    assert!(page.clear_history);
    assert!(page.flash.is_empty(), "clearHistory is not flash data");
    assert_eq!(page.props, obj(vec![("errors", obj(vec![]))]));
}

#[test]
fn the_header_only_counts_on_inertia_requests() {
    let i = ctx(headers(|h| {
        h.inertia = false;
        h.except_once = Some("plans".into());
    }));
    let props = Props::new().with("plans".into(), Prop::lazy(0).once());
    let req = i.prop_request("Billing");
    assert_eq!(props.lazy_needed(&req, 0), vec![0]);
    let r = props.resolve(&req, vec![Some(Ok(t("plans-value")))], 0).unwrap();
    assert_eq!(r.props, vec![("plans".to_string(), t("plans-value"))]);
}

#[test]
fn merge_intent_is_ignored_outside_partial_reloads() {
    let i = ctx(headers(|h| h.merge_intent = Some("prepend".into())));
    let props = Props::new().with("posts".into(), Prop::value(obj(vec![("data", JsonValue::Array(vec![]))])).merge());
    let r = props.resolve(&i.prop_request("Posts/Index"), vec![], 0).unwrap();
    assert_eq!(r.merge_props, ["posts"]);
    assert!(r.prepend_props.is_empty());
}

#[test]
fn custom_app_id_is_used_in_mount_markup() {
    let i = Inertia::from_request(InertiaConfig::new().with_app_id("root".into()), headers(|h| h.inertia = false), None);
    let html = i.client_markup("{}");
    assert!(html.starts_with(r#"<script data-page="root" type="application/json">"#));
    assert!(html.ends_with(r#"</script><div id="root"></div>"#));
}

#[test]
fn precognition_validates_without_running_the_handler() {
    let i = precognition(Some("email"));
    let errors = vec![("name".to_string(), t("Too short.")), ("email".to_string(), t("Invalid email."))];
    match form_outcome(&i, Some(errors)) {
        FormOutcome::Precognition(PrecognitionAnswer::Invalid(e)) => {
            assert_eq!(e, vec![("email".to_string(), t("Invalid email."))])
        }
        other => panic!("{other:?}"),
    }
    match form_outcome(&i, Some(vec![("name".to_string(), t("Too short."))])) {
        FormOutcome::Precognition(PrecognitionAnswer::Valid) => {}
        other => panic!("{other:?}"),
    }
    assert!(matches!(form_outcome(&i, None), FormOutcome::Precognition(PrecognitionAnswer::Valid)));
}

#[test]
fn ssr_only_on_first_visits_with_client_fallback() {
    assert_eq!(ctx(headers(|_| {})).page_route(true), PageRoute::Json);
    let first = ctx(headers(|h| h.inertia = false));
    assert_eq!(first.page_route(true), PageRoute::ServerRender);
    assert_eq!(first.page_route(false), PageRoute::ClientRender);
    let ssr = SsrResponse { head: vec!["<title>A</title>".into(), "<meta x>".into()], body: "<div>ssr</div>".into() };
    assert_eq!(
        first_visit(Some(ssr)),
        FirstVisit::Server { head: "<title>A</title>\n<meta x>".into(), body: "<div>ssr</div>".into() }
    );
    assert_eq!(first_visit(None), FirstVisit::Client);
}
