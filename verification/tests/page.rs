use inertia_axum::json::JsonValue;
use inertia_axum::page::{escape_script_json, is_false, mount_markup, Page};

#[test]
fn mount_markup_holds_the_script_then_the_root() {
    assert_eq!(
        mount_markup("app", "{}"),
        r#"<script data-page="app" type="application/json">{}</script><div id="app"></div>"#
    );
}

#[test]
fn script_json_escapes_tags() {
    assert_eq!(escape_script_json(r#"{"x":"</script><b>"}"#), r#"{"x":"\u003c/script\u003e\u003cb\u003e"}"#);
    assert_eq!(escape_script_json("plain"), "plain");
}

#[test]
fn a_new_page_has_no_metadata() {
    let p = Page::new("Home".into(), JsonValue::Object(vec![]), "/".into(), "".into());
    assert!(p.merge_props.is_empty() && p.deferred_props.is_empty() && p.flash.is_empty());
    assert!(is_false(&p.clear_history) && is_false(&p.encrypt_history));
    assert!(!is_false(&true));
}
