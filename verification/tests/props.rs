use inertia_axum::json::JsonValue;
use inertia_axum::props::{Prop, Props, PropsError};
use inertia_axum::resolve::{PropRequest, ResolveError};
use inertia_axum::scroll::{MergeIntent, ScrollMeta};

fn t(s: &str) -> JsonValue {
    JsonValue::Text(s.into())
}

fn n(v: u64) -> JsonValue {
    JsonValue::Number(v.to_string())
}

fn obj(e: Vec<(&str, JsonValue)>) -> JsonValue {
    JsonValue::Object(e.into_iter().map(|(k, v)| (k.to_string(), v)).collect())
}

const POSTS: usize = 0;
const CATEGORIES: usize = 1;
const STATS: usize = 2;
const COMMENTS: usize = 3;
const LINKS: usize = 4;
const COUNT: usize = 5;

fn feed() -> Props {
    Props::new()
        .with("title".into(), Prop::value(t("Feed")))
        .with("user".into(), Prop::value(obj(vec![("name", t("Ann")), ("email", t("ann@example.com"))])))
        .with("auth".into(), Prop::always(Prop::value(obj(vec![("id", n(1))]))))
        .with("posts".into(), Prop::lazy(POSTS).merge().match_on("id".into()))
        .with("notifications".into(), Prop::value(JsonValue::Array(vec![t("n1")])).prepend())
        .with("conversations".into(), Prop::value(obj(vec![("data", JsonValue::Array(vec![]))])).deep_merge())
        .with("categories".into(), Prop::optional(CATEGORIES))
        .with("stats".into(), Prop::defer(STATS))
        .with("comments".into(), Prop::defer(COMMENTS).group("sidebar".into()).merge())
        .with(
            "sidebar".into(),
            Prop::nested(
                Props::new()
                    .with("links".into(), Prop::optional(LINKS))
                    .with("count".into(), Prop::defer(COUNT).group("sidebar".into()))
                    .with("label".into(), Prop::value(t("Side"))),
            ),
        )
}

fn vals() -> Vec<Option<Result<JsonValue, String>>> {
    vec![
        Some(Ok(JsonValue::Array(vec![obj(vec![("id", n(1))])]))),
        Some(Ok(JsonValue::Array(vec![t("a"), t("b")]))),
        Some(Ok(n(42))),
        Some(Ok(JsonValue::Array(vec![]))),
        Some(Ok(JsonValue::Array(vec![t("x")]))),
        Some(Ok(n(3))),
    ]
}

fn list(s: &str) -> Vec<String> {
    s.split(',').filter(|x| !x.is_empty()).map(String::from).collect()
}

fn partial(only: &str, except: &str) -> PropRequest {
    PropRequest {
        partial: true,
        only: list(only),
        except: list(except),
        reset: vec![],
        merge_intent: MergeIntent::Append,
        except_once: vec![],
    }
}

fn keys(entries: &[(String, JsonValue)]) -> Vec<String> {
    let mut k: Vec<String> = entries.iter().map(|(k, _)| k.clone()).collect();
    k.sort();
    k
}

fn get<'a>(entries: &'a [(String, JsonValue)], key: &str) -> &'a JsonValue {
    &entries.iter().find(|(k, _)| k == key).unwrap().1
}

#[test]
fn full_visit_skips_optional_and_announces_deferred() {
    let req = PropRequest::full_visit();
    assert_eq!(feed().lazy_needed(&req, 0), vec![POSTS]);
    let r = feed().resolve(&req, vals(), 0).unwrap();
    assert_eq!(keys(&r.props), ["auth", "conversations", "notifications", "posts", "sidebar", "title", "user"]);
    assert_eq!(get(&r.props, "sidebar"), &obj(vec![("label", t("Side"))]));
    assert_eq!(
        r.deferred_props,
        vec![
            ("default".to_string(), "stats".to_string()),
            ("sidebar".to_string(), "comments".to_string()),
            ("sidebar".to_string(), "sidebar.count".to_string()),
        ]
    );
    assert_eq!(r.merge_props, ["posts"]);
    assert_eq!(r.prepend_props, ["notifications"]);
    assert_eq!(r.deep_merge_props, ["conversations"]);
    assert_eq!(r.match_props_on, ["posts.id"]);
}

#[test]
fn only_the_needed_lazy_values_are_read() {
    let req = PropRequest::full_visit();
    let mut v: Vec<Option<Result<JsonValue, String>>> = (0..6).map(|_| None).collect();
    v[POSTS] = Some(Ok(n(7)));
    let r = feed().resolve(&req, v, 0).unwrap();
    assert_eq!(get(&r.props, "posts"), &n(7));
}

#[test]
fn partial_only_returns_requested_and_always_props() {
    let req = partial("stats,categories", "");
    assert_eq!(feed().lazy_needed(&req, 0), vec![CATEGORIES, STATS]);
    let r = feed().resolve(&req, vals(), 0).unwrap();
    assert_eq!(keys(&r.props), ["auth", "categories", "stats"]);
    assert_eq!(get(&r.props, "stats"), &n(42));
    assert!(r.deferred_props.is_empty());
    assert!(r.merge_props.is_empty());
}

#[test]
fn partial_loads_a_deferred_group() {
    let req = partial("comments,sidebar.count", "");
    assert_eq!(feed().lazy_needed(&req, 0), vec![COMMENTS, COUNT]);
    let r = feed().resolve(&req, vals(), 0).unwrap();
    assert_eq!(keys(&r.props), ["auth", "comments", "sidebar"]);
    assert_eq!(get(&r.props, "sidebar"), &obj(vec![("count", n(3))]));
    assert_eq!(r.merge_props, ["comments"]);
}

#[test]
fn partial_except_removes_props() {
    let req = partial("", "posts,sidebar,user.email,auth");
    let r = feed().resolve(&req, vals(), 0).unwrap();
    assert_eq!(
        keys(&r.props),
        ["auth", "categories", "comments", "conversations", "notifications", "stats", "title", "user"]
    );
    assert_eq!(get(&r.props, "user"), &obj(vec![("name", t("Ann"))]));
    assert!(!feed().lazy_needed(&req, 0).contains(&POSTS));
}

#[test]
fn only_narrows_before_except() {
    let req = partial("user,sidebar", "sidebar.links");
    let r = feed().resolve(&req, vals(), 0).unwrap();
    assert_eq!(keys(&r.props), ["auth", "sidebar", "user"]);
    assert_eq!(get(&r.props, "sidebar"), &obj(vec![("count", n(3)), ("label", t("Side"))]));
    assert_eq!(feed().lazy_needed(&req, 0), vec![COUNT]);
}

#[test]
fn dot_paths_reach_into_nested_props_and_plain_values() {
    let req = partial("sidebar.links,user.name", "");
    let r = feed().resolve(&req, vals(), 0).unwrap();
    assert_eq!(get(&r.props, "sidebar"), &obj(vec![("links", JsonValue::Array(vec![t("x")]))]));
    assert_eq!(get(&r.props, "user"), &obj(vec![("name", t("Ann"))]));
    assert_eq!(feed().lazy_needed(&req, 0), vec![LINKS]);
}

#[test]
fn reset_drops_merge_metadata() {
    let mut req = partial("posts,notifications", "");
    req.reset = vec!["posts".into()];
    let r = feed().resolve(&req, vals(), 0).unwrap();
    assert_eq!(get(&r.props, "posts"), &JsonValue::Array(vec![obj(vec![("id", n(1))])]));
    assert!(r.merge_props.is_empty());
    assert!(r.match_props_on.is_empty());
    assert_eq!(r.prepend_props, ["notifications"]);
}

#[test]
fn failures_name_the_prop() {
    let props = Props::new().with("boom".into(), Prop::lazy(0));
    let err = props.resolve(&PropRequest::full_visit(), vec![Some(Err("db down".into()))], 0).unwrap_err();
    assert_eq!(err, ResolveError::Lazy { path: "boom".into(), message: "db down".into() });
    let props = Props::new().with("boom".into(), Prop::lazy(3));
    let err = props.resolve(&PropRequest::full_visit(), vec![], 0).unwrap_err();
    assert_eq!(err, ResolveError::Unresolved { path: "boom".into() });
    let props = Props::new().with("bad".into(), Prop::from_result(Err("key must be a string".into())));
    let err = props.resolve(&PropRequest::full_visit(), vec![], 0).unwrap_err();
    assert_eq!(err, ResolveError::Serialize { path: "bad".into(), message: "key must be a string".into() });
}

#[test]
fn once_props_are_listed_and_skipped_when_the_client_has_them() {
    let props = || {
        Props::new()
            .with("plans".into(), Prop::lazy(0).once())
            .with("rates".into(), Prop::lazy(1).once_as("fx".into()).expires_at(5000))
            .with("ttl".into(), Prop::lazy(2).expires_in(1000))
    };
    let v = || vec![Some(Ok(n(1))), Some(Ok(n(2))), Some(Ok(n(3)))];
    let r = props().resolve(&PropRequest::full_visit(), v(), 100).unwrap();
    assert_eq!(keys(&r.props), ["plans", "rates", "ttl"]);
    let once: Vec<String> = r.once_props.iter().map(|(k, _)| k.clone()).collect();
    assert_eq!(once, ["plans", "fx", "ttl"]);
    assert_eq!(r.once_props[1].1, obj(vec![("prop", t("rates")), ("expiresAt", n(5000))]));
    assert_eq!(r.once_props[2].1, obj(vec![("prop", t("ttl")), ("expiresAt", n(1100))]));
    assert_eq!(r.once_props[0].1, obj(vec![("prop", t("plans")), ("expiresAt", JsonValue::Null)]));

    let mut req = PropRequest::full_visit();
    req.except_once = vec!["plans".into(), "fx".into()];
    assert_eq!(props().lazy_needed(&req, 100), vec![2]);
    let r = props().resolve(&req, v(), 100).unwrap();
    assert_eq!(keys(&r.props), ["ttl"]);
    assert_eq!(r.once_props.len(), 3);

    let fresh = Props::new().with("plans".into(), Prop::lazy(0).once().fresh(true));
    assert_eq!(fresh.lazy_needed(&req, 100), vec![0]);
}

#[test]
fn scroll_props_merge_their_items() {
    let props = Props::new()
        .with("posts".into(), Prop::value(obj(vec![("data", JsonValue::Array(vec![n(1)]))])).match_on("id".into()))
        .scroll("posts", ScrollMeta::numbered(1, 2).match_on("uuid".into()))
        .scroll("nope", ScrollMeta::numbered(1, 1));
    let r = props.resolve(&PropRequest::full_visit(), vec![], 0).unwrap();
    assert_eq!(r.merge_props, ["posts.data"]);
    assert_eq!(r.match_props_on, ["posts.data.uuid", "posts.data.id"]);
    assert_eq!(r.scroll_props.len(), 1);
    assert_eq!(r.scroll_props[0].0, "posts");

    let mut req = partial("posts", "");
    req.merge_intent = MergeIntent::Prepend;
    let props = Props::new()
        .with("posts".into(), Prop::value(obj(vec![("data", JsonValue::Array(vec![]))])).scroll(ScrollMeta::numbered(2, 2)));
    let r = props.resolve(&req, vec![], 0).unwrap();
    assert_eq!(r.prepend_props, ["posts.data"]);
}

#[test]
fn insert_replaces_and_merge_lets_the_other_win() {
    let a = Props::new().with("x".into(), Prop::value(n(1))).with("y".into(), Prop::value(n(2)));
    let b = Props::new().with("y".into(), Prop::value(n(3))).with("z".into(), Prop::value(n(4)));
    let m = a.merge(b);
    assert_eq!(m.keys(), ["x", "y", "z"]);
    let r = m.resolve(&PropRequest::full_visit(), vec![], 0).unwrap();
    assert_eq!(get(&r.props, "y"), &n(3));
    let p = Props::new().with("x".into(), Prop::value(n(1))).with("x".into(), Prop::value(n(5)));
    assert_eq!(p.keys(), ["x"]);
    assert!(p.contains_key("x") && !p.contains_key("y"));
    assert!(Props::new().is_empty());
}

#[test]
fn props_from_json_values() {
    let p = Props::from_json(obj(vec![("a", n(1))])).unwrap();
    assert_eq!(p.keys(), ["a"]);
    assert!(Props::from_json(JsonValue::Null).unwrap().is_empty());
    assert_eq!(Props::from_json(n(5)).unwrap_err(), PropsError::NotAnObject);
}

const PLANS: usize = 0;
const COUNTRIES: usize = 1;
const RATES: usize = 2;
const REPORT: usize = 3;

fn billing(fresh: bool) -> Props {
    Props::new()
        .with("title".into(), Prop::value(t("Billing")))
        .with("plans".into(), Prop::lazy(PLANS).once())
        .with("countries".into(), Prop::lazy(COUNTRIES).once_as("geo".into()).expires_in(60_000))
        .with("rates".into(), Prop::lazy(RATES).once().fresh(fresh))
        .with("report".into(), Prop::defer(REPORT).once())
}

fn billing_vals() -> Vec<Option<Result<JsonValue, String>>> {
    vec![Some(Ok(t("plans-value"))), Some(Ok(t("countries-value"))), Some(Ok(t("rates-value"))), Some(Ok(n(1)))]
}

fn except_once(keys: &[&str]) -> PropRequest {
    let mut req = PropRequest::full_visit();
    req.except_once = keys.iter().map(|k| k.to_string()).collect();
    req
}

fn once_entry<'a>(r: &'a inertia_axum::meta::Resolved, key: &str) -> Option<&'a JsonValue> {
    r.once_props.iter().find(|(k, _)| k == key).map(|(_, v)| v)
}

#[test]
fn first_visit_resolves_and_describes_once_props() {
    let req = PropRequest::full_visit();
    assert_eq!(billing(false).lazy_needed(&req, 0), vec![PLANS, COUNTRIES, RATES]);
    let r = billing(false).resolve(&req, billing_vals(), 0).unwrap();
    assert_eq!(get(&r.props, "plans"), &t("plans-value"));
    assert_eq!(once_entry(&r, "plans"), Some(&obj(vec![("prop", t("plans")), ("expiresAt", JsonValue::Null)])));
    assert_eq!(once_entry(&r, "geo").map(|v| get_obj(v, "prop")), Some(&t("countries")));
    assert!(once_entry(&r, "report").is_none(), "deferred once props are described when they load");
    assert_eq!(r.deferred_props, vec![("default".to_string(), "report".to_string())]);
}

fn get_obj<'a>(v: &'a JsonValue, key: &str) -> &'a JsonValue {
    match v {
        JsonValue::Object(e) => get(e, key),
        other => panic!("{other:?}"),
    }
}

#[test]
fn expiry_is_a_unix_timestamp_in_milliseconds() {
    let now: u64 = 1_700_000_000_000;
    let r = billing(false).resolve(&PropRequest::full_visit(), billing_vals(), now).unwrap();
    assert_eq!(get_obj(once_entry(&r, "geo").unwrap(), "expiresAt"), &n(now + 60_000));
}

#[test]
fn once_props_the_client_has_are_not_resolved_or_sent() {
    let req = except_once(&["plans", "geo"]);
    assert_eq!(billing(false).lazy_needed(&req, 0), vec![RATES]);
    let r = billing(false).resolve(&req, billing_vals(), 0).unwrap();
    assert_eq!(keys(&r.props), ["rates", "title"]);
    assert_eq!(get_obj(once_entry(&r, "plans").unwrap(), "prop"), &t("plans"));
    assert_eq!(get_obj(once_entry(&r, "geo").unwrap(), "prop"), &t("countries"));
}

#[test]
fn deferred_once_props_the_client_has_are_not_deferred_again() {
    let req = except_once(&["report"]);
    assert!(!billing(false).lazy_needed(&req, 0).contains(&REPORT));
    let r = billing(false).resolve(&req, billing_vals(), 0).unwrap();
    assert!(r.deferred_props.is_empty());
    assert_eq!(get_obj(once_entry(&r, "report").unwrap(), "prop"), &t("report"));
}

#[test]
fn fresh_once_props_are_always_resolved() {
    let req = except_once(&["rates"]);
    assert!(billing(true).lazy_needed(&req, 0).contains(&RATES));
    let r = billing(true).resolve(&req, billing_vals(), 0).unwrap();
    assert_eq!(get(&r.props, "rates"), &t("rates-value"));
}

#[test]
fn an_explicit_partial_reload_refreshes_a_once_prop() {
    let mut req = partial("plans,report", "");
    req.except_once = vec!["plans".into()];
    assert_eq!(billing(false).lazy_needed(&req, 0), vec![PLANS, REPORT]);
    let r = billing(false).resolve(&req, billing_vals(), 0).unwrap();
    assert_eq!(get(&r.props, "plans"), &t("plans-value"));
    assert_eq!(once_entry(&r, "report"), Some(&obj(vec![("prop", t("report")), ("expiresAt", JsonValue::Null)])));
}
