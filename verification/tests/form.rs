use inertia_axum::form::{arrays_from_numeric_objects, fields_to_tree, from_urlencoded, parse_index_exec, split_brackets, FieldValue, FormError};
use inertia_axum::json::JsonValue;

fn t(s: &str) -> JsonValue {
    JsonValue::Text(s.into())
}

fn obj(e: Vec<(&str, JsonValue)>) -> JsonValue {
    JsonValue::Object(e.into_iter().map(|(k, v)| (k.to_string(), v)).collect())
}

fn text_fields(f: &[(&str, &str)]) -> Vec<(String, FieldValue)> {
    f.iter().map(|(k, v)| (k.to_string(), FieldValue::Text(v.to_string()))).collect()
}

fn urlencoded(fields: &[(String, String)]) -> Vec<u8> {
    fields.iter().map(|(k, v)| format!("{k}={v}")).collect::<Vec<_>>().join("&").into_bytes()
}

#[test]
fn field_count_is_bounded() {
    let fields = |n: usize| -> Vec<(String, String)> {
        std::iter::once(("name".to_string(), "Ann".to_string()))
            .chain((1..n).map(|i| (format!("meta%5Bk{i}%5D"), "v".to_string())))
            .collect()
    };
    assert!(from_urlencoded(&urlencoded(&fields(1000))).is_ok());
    assert_eq!(from_urlencoded(&urlencoded(&fields(1001))), Err(FormError::TooManyFields));
}

#[test]
fn bracket_names_split_into_paths() {
    assert_eq!(split_brackets("user[address][street]"), vec!["user", "address", "street"]);
    assert_eq!(split_brackets("tags[]"), vec!["tags", ""]);
    assert_eq!(split_brackets("plain"), vec!["plain"]);
    assert_eq!(split_brackets("a[b][c"), vec!["a", "b"]);
    assert_eq!(split_brackets("a[b]x[c"), vec!["a"]);
}

#[test]
fn nested_objects_and_arrays() {
    let tree = fields_to_tree(text_fields(&[
        ("user[name]", "Ann"),
        ("user[address][street]", "Main"),
        ("tags[1]", "b"),
        ("tags[0]", "a"),
        ("tags[]", "c"),
        ("title", "x"),
    ]))
    .unwrap();
    assert_eq!(
        tree,
        obj(vec![
            ("user", obj(vec![("name", t("Ann")), ("address", obj(vec![("street", t("Main"))]))])),
            ("tags", JsonValue::Array(vec![t("a"), t("b"), t("c")])),
            ("title", t("x")),
        ])
    );
}

#[test]
fn files_are_marked_and_the_marker_cannot_be_forged() {
    let fields = vec![
        ("avatar".to_string(), FieldValue::File(0)),
        ("fake[$inertia_file]".to_string(), FieldValue::Text("0".into())),
    ];
    let tree = fields_to_tree(fields).unwrap();
    assert_eq!(tree, obj(vec![("avatar", obj(vec![("$inertia_file", JsonValue::Number("0".into()))]))]));
}

#[test]
fn nesting_is_bounded() {
    let deep = format!("a{}", "[b]".repeat(32));
    assert_eq!(fields_to_tree(text_fields(&[(deep.as_str(), "x")])), Err(FormError::TooDeep));
    let ok = format!("a{}", "[b]".repeat(31));
    assert!(fields_to_tree(text_fields(&[(ok.as_str(), "x")])).is_ok());
}

#[test]
fn indices_and_numeric_objects() {
    assert_eq!(parse_index_exec("12"), Some(12));
    assert_eq!(parse_index_exec("+3"), Some(3));
    assert_eq!(parse_index_exec(""), None);
    assert_eq!(parse_index_exec("1a"), None);
    assert_eq!(parse_index_exec("99999999999999999999999"), None);
    let v = obj(vec![("2", t("c")), ("0", t("a")), ("1", obj(vec![("0", t("x"))]))]);
    assert_eq!(
        arrays_from_numeric_objects(v),
        JsonValue::Array(vec![t("a"), JsonValue::Array(vec![t("x")]), t("c")])
    );
    let mixed = obj(vec![("0", t("a")), ("k", t("b"))]);
    assert_eq!(arrays_from_numeric_objects(mixed), obj(vec![("0", t("a")), ("k", t("b"))]));
    assert_eq!(arrays_from_numeric_objects(obj(vec![])), obj(vec![]));
}

#[test]
fn a_text_value_is_replaced_by_an_object_when_nested_below() {
    let tree = fields_to_tree(text_fields(&[("a", "1"), ("a[b]", "2")])).unwrap();
    assert_eq!(tree, obj(vec![("a", obj(vec![("b", t("2"))]))]));
}

fn file(i: u64) -> JsonValue {
    obj(vec![("$inertia_file", JsonValue::Number(i.to_string()))])
}

#[test]
fn urlencoded_forms_work_too() {
    let tree = from_urlencoded(b"name=Ann&age=7&newsletter=on&tags%5B%5D=a&tags%5B%5D=b").unwrap();
    assert_eq!(
        tree,
        obj(vec![
            ("name", t("Ann")),
            ("age", t("7")),
            ("newsletter", t("on")),
            ("tags", JsonValue::Array(vec![t("a"), t("b")])),
        ])
    );
    assert_eq!(
        from_urlencoded(b"name=Ann&age=7&newsletter=0").unwrap(),
        obj(vec![("name", t("Ann")), ("age", t("7")), ("newsletter", t("0"))])
    );
}

#[test]
fn deeply_nested_field_names_are_rejected() {
    let body = format!("name=Ann&age=7&bio{}=x", "[a]".repeat(100_000)).into_bytes();
    assert_eq!(from_urlencoded(&body), Err(FormError::TooDeep));
    let name = format!("bio{}", "[a]".repeat(40));
    assert_eq!(
        fields_to_tree(text_fields(&[("name", "Ann"), ("age", "7"), (name.as_str(), "x")])),
        Err(FormError::TooDeep)
    );
}

#[test]
fn appended_items_follow_explicit_indices() {
    let tree = from_urlencoded(b"name=Ann&age=7&tags%5B1%5D=a&tags%5B%5D=b").unwrap();
    assert_eq!(
        tree,
        obj(vec![("name", t("Ann")), ("age", t("7")), ("tags", JsonValue::Array(vec![t("a"), t("b")]))])
    );
}

#[test]
fn inertia_default_bracket_format() {
    let mut fields = text_fields(&[("name", "Ann"), ("age", "30"), ("newsletter", "0")]);
    fields.push(("photos[]".into(), FieldValue::File(0)));
    fields.push(("photos[]".into(), FieldValue::File(1)));
    fields.extend(text_fields(&[("tags[]", "x"), ("tags[]", "y"), ("bio", "")]));
    assert_eq!(
        fields_to_tree(fields).unwrap(),
        obj(vec![
            ("name", t("Ann")),
            ("age", t("30")),
            ("newsletter", t("0")),
            ("photos", JsonValue::Array(vec![file(0), file(1)])),
            ("tags", JsonValue::Array(vec![t("x"), t("y")])),
            ("bio", t("")),
        ])
    );
}
