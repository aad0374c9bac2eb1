use inertia_axum::json::JsonValue;
use inertia_axum::templates::{generation_plan, verb_for, GenerateError, InertiaGenerate, Template};

#[test]
fn verbs_follow_loco() {
    assert_eq!(verb_for("index"), "get");
    assert_eq!(verb_for("show"), "get");
    assert_eq!(verb_for("create"), "post");
    assert_eq!(verb_for("update"), "put");
    assert_eq!(verb_for("destroy"), "delete");
}

#[test]
fn delete_is_a_delete_too() {
    assert_eq!(verb_for("delete"), "delete");
    assert_eq!(verb_for("Create"), "get");
}

fn field<'a>(v: &'a JsonValue, key: &str) -> &'a JsonValue {
    match v {
        JsonValue::Object(m) => &m.iter().find(|(k, _)| k == key).unwrap().1,
        _ => panic!("not an object"),
    }
}

#[test]
fn plan_renders_controller_pages_of_get_actions_and_tests() {
    let actions = vec!["index".to_string(), "show".to_string(), "create".to_string()];
    let runs = generation_plan("my_app", "blog_posts", &actions).unwrap();
    let kinds: Vec<Template> = runs.iter().map(|(t, _)| *t).collect();
    assert_eq!(kinds, vec![Template::Controller, Template::Page, Template::Page, Template::Test]);
    let vars = &runs[0].1;
    assert_eq!(field(vars, "name"), &JsonValue::Text("blog_posts".into()));
    assert_eq!(field(vars, "pkg_name"), &JsonValue::Text("my_app".into()));
    match field(vars, "actions") {
        JsonValue::Array(items) => {
            assert_eq!(items.len(), 3);
            assert_eq!(field(&items[2], "verb"), &JsonValue::Text("post".into()));
            assert_eq!(field(&items[2], "page"), &JsonValue::Bool(false));
            assert_eq!(field(&items[1], "page"), &JsonValue::Bool(true));
        }
        _ => panic!("actions must be a list"),
    }
    let page = &runs[2].1;
    assert_eq!(field(field(page, "action"), "name"), &JsonValue::Text("show".into()));
    assert_eq!(&runs[3].1, vars);
}

#[test]
fn plan_defaults_to_an_index_page_and_requires_a_name() {
    let runs = generation_plan("my_app", "posts", &Vec::new()).unwrap();
    assert_eq!(runs.len(), 3);
    assert_eq!(field(field(&runs[1].1, "action"), "name"), &JsonValue::Text("index".into()));
    assert_eq!(generation_plan("my_app", "", &Vec::new()).unwrap_err(), GenerateError::MissingName);
}

#[test]
fn task_reads_name_and_comma_separated_actions() {
    let task = InertiaGenerate::new("my_app".into());
    let runs = task.plan(Some("posts"), Some(" index, ,create ,")).unwrap();
    assert_eq!(runs.len(), 3);
    assert_eq!(task.plan(None, Some("index")).unwrap_err(), GenerateError::MissingName);
}
