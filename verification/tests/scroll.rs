use inertia_axum::json::JsonValue;
use inertia_axum::scroll::{MergeIntent, ScrollData, ScrollMeta};

fn n(v: u64) -> Option<JsonValue> {
    Some(JsonValue::Number(v.to_string()))
}

#[test]
fn numbered_pagination_edges() {
    let meta = |c, l| ScrollMeta::numbered(c, l);
    assert_eq!(meta(1, 1), ScrollMeta::cursor(n(1), None, None));
    assert_eq!(meta(3, 3), ScrollMeta::cursor(n(3), n(2), None));
    assert_eq!(meta(0, 5), ScrollMeta::cursor(n(1), None, n(2)), "page 0 clamps to 1");
}

#[test]
fn merge_intent_reads_prepend_in_any_case() {
    assert_eq!(MergeIntent::from_header(Some(" PrePend ")), MergeIntent::Prepend);
    assert_eq!(MergeIntent::from_header(Some("append")), MergeIntent::Append);
    assert_eq!(MergeIntent::from_header(Some("bogus")), MergeIntent::Append);
    assert_eq!(MergeIntent::from_header(None), MergeIntent::Append);
}

#[test]
fn scroll_meta_json_and_builders() {
    let m = ScrollMeta::numbered(2, 5).page_name("p".into()).wrapper("items".into()).match_on("id".into());
    assert_eq!(m.wrapper, "items");
    assert_eq!(m.match_on, vec!["id".to_string()]);
    let j = m.to_json(true);
    let expected = JsonValue::Object(vec![
        ("pageName".into(), JsonValue::Text("p".into())),
        ("previousPage".into(), JsonValue::Number("1".into())),
        ("nextPage".into(), JsonValue::Number("3".into())),
        ("currentPage".into(), JsonValue::Number("2".into())),
        ("reset".into(), JsonValue::Bool(true)),
    ]);
    assert_eq!(j, expected);
    let d = ScrollData::new(vec![1, 2]);
    assert_eq!(d.data, vec![1, 2]);
}

use inertia_axum::meta::Resolved;
use inertia_axum::props::{Prop, Props};
use inertia_axum::resolve::PropRequest;

fn num(v: u64) -> JsonValue {
    JsonValue::Number(v.to_string())
}

fn text(s: &str) -> JsonValue {
    JsonValue::Text(s.into())
}

fn obj(e: Vec<(&str, JsonValue)>) -> JsonValue {
    JsonValue::Object(e.into_iter().map(|(k, v)| (k.to_string(), v)).collect())
}

fn items(page: u64) -> JsonValue {
    obj(vec![("data", JsonValue::Array((1..=3).map(|i| obj(vec![("id", num((page - 1) * 3 + i))])).collect()))])
}

const POSTS: usize = 0;

fn posts(page: u64) -> Props {
    Props::new()
        .with("title".into(), Prop::value(text("Posts")))
        .with("posts".into(), Prop::lazy(POSTS).scroll(ScrollMeta::numbered(page, 3)).match_on("id".into()))
        .with(
            "users".into(),
            Prop::value(obj(vec![("items", JsonValue::Array(vec![text("u1")]))])).scroll(
                ScrollMeta::cursor(Some(text("c2")), Some(text("c1")), None)
                    .page_name("users".into())
                    .wrapper("items".into()),
            ),
        )
}

fn scroll_request(only: &[&str], intent: MergeIntent, reset: &[&str]) -> PropRequest {
    PropRequest {
        partial: true,
        only: only.iter().map(|s| s.to_string()).collect(),
        except: vec![],
        reset: reset.iter().map(|s| s.to_string()).collect(),
        merge_intent: intent,
        except_once: vec![],
    }
}

fn load(page: u64, req: &PropRequest) -> (Resolved, Vec<usize>) {
    let needed = posts(page).lazy_needed(req, 0);
    (posts(page).resolve(req, vec![Some(Ok(items(page)))], 0).unwrap(), needed)
}

fn scroll_json(page_name: &str, prev: JsonValue, next: JsonValue, current: JsonValue, reset: bool) -> JsonValue {
    obj(vec![
        ("pageName", text(page_name)),
        ("previousPage", prev),
        ("nextPage", next),
        ("currentPage", current),
        ("reset", JsonValue::Bool(reset)),
    ])
}

#[test]
fn full_visit_sends_items_merge_paths_and_scroll_metadata() {
    let (r, _) = load(1, &PropRequest::full_visit());
    assert_eq!(r.props.iter().find(|(k, _)| k == "posts").unwrap().1, items(1));
    assert_eq!(r.merge_props, ["posts.data", "users.items"]);
    assert_eq!(r.match_props_on, ["posts.data.id"]);
    assert_eq!(
        r.scroll_props,
        vec![
            ("posts".to_string(), scroll_json("page", JsonValue::Null, num(2), num(1), false)),
            ("users".to_string(), scroll_json("users", text("c1"), JsonValue::Null, text("c2"), false)),
        ]
    );
}

#[test]
fn loading_the_next_page_appends() {
    let (r, needed) = load(2, &scroll_request(&["posts"], MergeIntent::Append, &[]));
    assert_eq!(needed, vec![POSTS]);
    assert_eq!(r.props, vec![("posts".to_string(), items(2))]);
    assert_eq!(r.merge_props, ["posts.data"]);
    assert!(r.prepend_props.is_empty());
    assert_eq!(r.scroll_props, vec![("posts".to_string(), scroll_json("page", num(1), num(3), num(2), false))]);
}

#[test]
fn loading_the_previous_page_prepends() {
    let (r, _) = load(1, &scroll_request(&["posts"], MergeIntent::Prepend, &[]));
    assert_eq!(r.prepend_props, ["posts.data"]);
    assert!(r.merge_props.is_empty());
    assert_eq!(r.match_props_on, ["posts.data.id"]);
}

#[test]
fn reset_replaces_the_items_and_flags_the_client() {
    let (r, _) = load(1, &scroll_request(&["posts"], MergeIntent::Append, &["posts"]));
    assert!(r.merge_props.is_empty() && r.match_props_on.is_empty());
    assert_eq!(r.scroll_props, vec![("posts".to_string(), scroll_json("page", JsonValue::Null, num(2), num(1), true))]);
}

#[test]
fn scroll_props_left_out_of_a_partial_reload_are_not_resolved_or_described() {
    let (r, needed) = load(1, &scroll_request(&["title"], MergeIntent::Append, &[]));
    assert!(needed.is_empty());
    assert!(r.scroll_props.is_empty() && r.merge_props.is_empty());
}

#[test]
fn scroll_data_serializes_under_data() {
    let d = ScrollData::new(vec![num(1), num(2)]);
    assert_eq!(d.to_json(), obj(vec![("data", JsonValue::Array(vec![num(1), num(2)]))]));
}
