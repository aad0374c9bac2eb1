use inertia_axum::middleware::{after_handler, before_handler, has_inertia_vary, Before, Method};

#[test]
fn stale_assets_get_a_409_with_the_location() {
    assert_eq!(
        before_handler(true, Method::Get, Some("old"), "1", "/users?page=2"),
        Before::Conflict { location: Some("/users?page=2".into()), version: Some("1".into()) }
    );
    assert_eq!(before_handler(true, Method::Get, Some("1"), "1", "/"), Before::Continue);
    assert_eq!(before_handler(true, Method::Get, None, "", "/"), Before::Continue);
    assert_eq!(
        before_handler(true, Method::Get, None, "1", "/"),
        Before::Conflict { location: Some("/".into()), version: Some("1".into()) }
    );
    assert_eq!(before_handler(false, Method::Get, Some("old"), "1", "/"), Before::Continue);
    assert_eq!(before_handler(true, Method::Post, Some("old"), "1", "/"), Before::Continue);
}

#[test]
fn redirects_after_put_patch_delete_become_303() {
    assert_eq!(after_handler(true, Method::Put, 302), 303);
    assert_eq!(after_handler(true, Method::Patch, 302), 303);
    assert_eq!(after_handler(true, Method::Delete, 302), 303);
    assert_eq!(after_handler(true, Method::Post, 302), 302);
    assert_eq!(after_handler(false, Method::Put, 302), 302);
    assert_eq!(after_handler(true, Method::Put, 200), 200);
}

#[test]
fn vary_is_added_once() {
    assert!(!has_inertia_vary(&vec![]));
    assert!(has_inertia_vary(&vec!["Accept-Encoding, x-inertia".into()]));
    assert!(!has_inertia_vary(&vec!["Accept".into(), "X-Inertia-Version".into()]));
}

const VERSION: &str = "abc123";

#[test]
fn stale_version_on_get_returns_409_with_location() {
    assert_eq!(
        before_handler(true, Method::Get, Some("old"), VERSION, "/users?page=2"),
        Before::Conflict { location: Some("/users?page=2".into()), version: Some(VERSION.into()) }
    );
}

#[test]
fn stale_version_is_ignored_for_non_get_and_non_inertia_requests() {
    assert_eq!(before_handler(true, Method::Post, Some("old"), VERSION, "/users/1"), Before::Continue);
    assert_eq!(before_handler(false, Method::Get, Some("old"), VERSION, "/users"), Before::Continue);
}

#[test]
fn found_becomes_see_other_for_inertia_put_patch_delete() {
    for method in [Method::Put, Method::Patch, Method::Delete] {
        assert_eq!(after_handler(true, method, 302), 303, "{method:?}");
    }
}

#[test]
fn found_is_kept_for_get_post_and_non_inertia_requests() {
    for method in [Method::Get, Method::Post] {
        assert_eq!(after_handler(true, method, 302), 302, "{method:?}");
    }
    assert_eq!(after_handler(false, Method::Put, 302), 302);
}

#[test]
fn vary_is_appended_not_overwritten() {
    assert!(!has_inertia_vary(&vec!["Accept-Encoding".into()]), "X-Inertia is appended after Accept-Encoding");
    assert!(has_inertia_vary(&vec!["Accept-Encoding".into(), "X-Inertia".into()]));
}

#[test]
fn missing_version_matches_empty_client_version() {
    assert_eq!(before_handler(true, Method::Get, None, "", "/"), Before::Continue);
    assert_eq!(inertia_axum::config::InertiaConfig::new().version_str(), "");
}
