use inertia_axum::flash::{is_header_value, to_object, FlashData, InertiaRedirect, ObjectError, RedirectError, RedirectResponse};
use inertia_axum::json::JsonValue;

fn t(s: &str) -> JsonValue {
    JsonValue::Text(s.into())
}

fn obj(e: Vec<(&str, JsonValue)>) -> JsonValue {
    JsonValue::Object(e.into_iter().map(|(k, v)| (k.to_string(), v)).collect())
}

#[test]
fn errors_without_a_bag_are_added_to_the_errors() {
    let r = InertiaRedirect::new("/form".into(), None)
        .with_errors(Ok(obj(vec![("name", t("The name is required."))])))
        .with_errors(Ok(obj(vec![("email", t("The email is taken."))])));
    assert_eq!(
        r.data.errors,
        vec![("name".to_string(), t("The name is required.")), ("email".to_string(), t("The email is taken."))]
    );
}

#[test]
fn errors_go_under_the_bag_and_accumulate() {
    let r = InertiaRedirect::new("/form".into(), Some("login".into()))
        .with_errors(Ok(obj(vec![("name", t("n"))])))
        .with_errors(Ok(obj(vec![("email", t("e"))])))
        .with_errors(Ok(JsonValue::Null));
    let last = r.data.errors.last().unwrap();
    assert_eq!(last.0, "login");
    assert_eq!(last.1, obj(vec![("name", t("n")), ("email", t("e"))]));
    assert!(r.error.is_none());
}

#[test]
fn invalid_errors_and_flash_values_make_a_server_error() {
    let r = InertiaRedirect::new("/form".into(), None).with_errors(Ok(t("not an object")));
    assert_eq!(r.error, Some(RedirectError::InvalidErrors(ObjectError::NotAnObject)));
    assert_eq!(r.into_response(), RedirectResponse::ServerError);
    let r = InertiaRedirect::new("/form".into(), None).with_flash("k".into(), Err("boom".into()));
    assert_eq!(r.into_response(), RedirectResponse::ServerError);
    assert_eq!(InertiaRedirect::new("bad\u{7f}".into(), None).into_response(), RedirectResponse::ServerError);
}

#[test]
fn redirects_carry_flash_data_when_there_is_some() {
    let r = InertiaRedirect::new("/form".into(), None).with_flash("message".into(), Ok(t("Saved!")));
    match r.into_response() {
        RedirectResponse::Found { location, flash: Some(d) } => {
            assert_eq!(location, "/form");
            assert_eq!(d.flash, vec![("message".to_string(), t("Saved!"))]);
        }
        other => panic!("{other:?}"),
    }
    let plain = InertiaRedirect::new("/".into(), None).into_response();
    assert_eq!(plain, RedirectResponse::Found { location: "/".into(), flash: None });
    let cleared = InertiaRedirect::new("/".into(), None).clear_history().into_response();
    match cleared {
        RedirectResponse::Found { flash: Some(d), .. } => assert!(d.clear_history),
        other => panic!("{other:?}"),
    }
}

#[test]
fn flash_data_emptiness_and_objects() {
    assert!(FlashData::new().is_empty());
    let mut d = FlashData::new();
    d.clear_history = true;
    assert!(!d.is_empty());
    assert_eq!(to_object(Ok(JsonValue::Null)).unwrap(), vec![]);
    assert_eq!(to_object(Err("x".into())).unwrap_err(), ObjectError::Serialize("x".into()));
    assert!(is_header_value("/ok?a=b\tc"));
    assert!(!is_header_value("a\nb"));
}
