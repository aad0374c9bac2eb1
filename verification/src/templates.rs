//! The `inertia_generate` task: which templates to render with which variables, for an
//! Inertia controller with one page per `GET` action and request tests.

use vstd::prelude::*;
use crate::json::{model_entries, push_entry, JsonValue, SpecJson};
use crate::narrow::strs;
use crate::text::{comma_list, spec_comma_list};

verus! {

/// The HTTP method for an action, following Loco's generator.
pub open spec fn spec_verb(action: Seq<char>) -> Seq<char> {
    if action == "create"@ {
        "post"@
    } else if action == "update"@ {
        "put"@
    } else if action == "delete"@ || action == "destroy"@ {
        "delete"@
    } else {
        "get"@
    }
}

/// The HTTP method for an action, following Loco's generator: `create` is POST, `update`
/// PUT, `delete` and `destroy` DELETE, anything else GET.
pub fn verb_for(action: &str) -> (r: &'static str)
    ensures
        r@ == spec_verb(action@),
{
    if crate::json::str_eq(action, "create") {
        "post"
    } else if crate::json::str_eq(action, "update") {
        "put"
    } else if crate::json::str_eq(action, "delete") || crate::json::str_eq(action, "destroy") {
        "delete"
    } else {
        "get"
    }
}

/// A template of the generator.
#[derive(Clone, Copy, PartialEq, Eq, Structural, Debug)]
pub enum Template {
    Controller,
    Page,
    Test,
}

/// Why nothing was generated.
#[derive(PartialEq, Eq, Structural, Debug)]
pub enum GenerateError {
    /// `name` is required, e.g. `name:posts`.
    MissingName,
}

/// The variables of one action: `{ name, verb, page }` (a page for GET actions).
pub open spec fn action_vars(a: Seq<char>) -> SpecJson {
    SpecJson::Object(seq![
        ("name"@, SpecJson::Text(a)),
        ("verb"@, SpecJson::Text(spec_verb(a))),
        ("page"@, SpecJson::Bool(spec_verb(a) == "get"@)),
    ])
}

/// The variables of the controller and test templates.
pub open spec fn generator_vars(name: Seq<char>, actions: Seq<Seq<char>>, pkg_name: Seq<char>) -> SpecJson {
    SpecJson::Object(seq![
        ("name"@, SpecJson::Text(name)),
        ("actions"@, SpecJson::Array(actions.map_values(|a: Seq<char>| action_vars(a)))),
        ("pkg_name"@, SpecJson::Text(pkg_name)),
    ])
}

/// The variables of a page template.
pub open spec fn page_vars(name: Seq<char>, a: Seq<char>) -> SpecJson {
    SpecJson::Object(seq![("name"@, SpecJson::Text(name)), ("action"@, action_vars(a))])
}

/// The actions generated: those given, or `index` when none are.
pub open spec fn effective_actions(actions: Seq<Seq<char>>) -> Seq<Seq<char>> {
    if actions.len() == 0 { seq!["index"@] } else { actions }
}

/// The page templates of the GET actions, in order.
pub open spec fn page_runs(name: Seq<char>, actions: Seq<Seq<char>>) -> Seq<(Template, SpecJson)>
    decreases actions.len(),
{
    if actions.len() == 0 {
        Seq::empty()
    } else {
        let before = page_runs(name, actions.drop_last());
        if spec_verb(actions.last()) == "get"@ { before.push((Template::Page, page_vars(name, actions.last()))) } else { before }
    }
}

/// The templates to render, in order, with their variables: the controller, a page per GET
/// action, the tests.
pub open spec fn spec_plan(pkg_name: Seq<char>, name: Seq<char>, actions: Seq<Seq<char>>) -> Seq<(Template, SpecJson)> {
    let acts = effective_actions(actions);
    let vars = generator_vars(name, acts, pkg_name);
    seq![(Template::Controller, vars)] + page_runs(name, acts) + seq![(Template::Test, vars)]
}

/// The models of planned runs.
pub open spec fn runs_model(runs: Seq<(Template, JsonValue)>) -> Seq<(Template, SpecJson)> {
    runs.map_values(|r: (Template, JsonValue)| (r.0, r.1.model()))
}

fn text(s: &str) -> (r: JsonValue)
    ensures
        r.model() == SpecJson::Text(s@),
{
    JsonValue::Text(s.to_owned())
}

fn action_json(a: &str) -> (r: JsonValue)
    ensures
        r.model() == action_vars(a@),
{
    let verb = verb_for(a);
    let mut m: Vec<(String, JsonValue)> = Vec::new();
    assert(model_entries(m@) =~= Seq::<(Seq<char>, SpecJson)>::empty());
    push_entry(&mut m, "name".to_owned(), text(a));
    push_entry(&mut m, "verb".to_owned(), text(verb));
    push_entry(&mut m, "page".to_owned(), JsonValue::Bool(crate::json::str_eq(verb, "get")));
    assert(model_entries(m@) =~= action_vars(a@)->Object_0);
    JsonValue::Object(m)
}

impl Template {
    /// A copy.
    pub fn copy(&self) -> (r: Template)
        ensures
            r == *self,
    {
        *self
    }
}

/// The templates to render, in order, with their variables; `name` is required.
pub fn generation_plan(pkg_name: &str, name: &str, actions: &Vec<String>) -> (r: Result<Vec<(Template, JsonValue)>, GenerateError>)
    ensures
        name@.len() == 0 ==> r == Err::<Vec<(Template, JsonValue)>, GenerateError>(GenerateError::MissingName),
        name@.len() > 0 ==> (r matches Ok(runs) && runs_model(runs@) == spec_plan(pkg_name@, name@, strs(actions@))),
{
    if name.unicode_len() == 0 {
        return Err(GenerateError::MissingName);
    }
    let mut acts: Vec<String> = Vec::new();
    if actions.len() == 0 {
        acts.push("index".to_owned());
        assert(strs(acts@) =~= seq!["index"@]);
    } else {
        acts = crate::inertia::clone_strings(actions);
    }
    let ghost a = strs(acts@);
    assert(a == effective_actions(strs(actions@)));
    let mut items: Vec<JsonValue> = Vec::new();
    let mut pages: Vec<(Template, JsonValue)> = Vec::new();
    let mut i: usize = 0;
    assert(crate::json::model_items(items@) =~= a.subrange(0, 0).map_values(|x: Seq<char>| action_vars(x)));
    assert(runs_model(pages@) =~= page_runs(name@, a.subrange(0, 0)));
    while i < acts.len()
        invariant
            i <= acts@.len(),
            a == strs(acts@),
            crate::json::model_items(items@) == a.subrange(0, i as int).map_values(|x: Seq<char>| action_vars(x)),
            runs_model(pages@) == page_runs(name@, a.subrange(0, i as int)),
        decreases acts@.len() - i,
    {
        let ghost before = items@;
        let ghost pbefore = pages@;
        items.push(action_json(acts[i].as_str()));
        assert(items@.drop_last() == before);
        assert(a.subrange(0, i + 1).drop_last() == a.subrange(0, i as int));
        assert(a.subrange(0, i + 1).map_values(|x: Seq<char>| action_vars(x))
            =~= a.subrange(0, i as int).map_values(|x: Seq<char>| action_vars(x)).push(action_vars(acts@[i as int]@)));
        if crate::json::str_eq(verb_for(acts[i].as_str()), "get") {
            let mut pv: Vec<(String, JsonValue)> = Vec::new();
            assert(model_entries(pv@) =~= Seq::<(Seq<char>, SpecJson)>::empty());
            push_entry(&mut pv, "name".to_owned(), text(name));
            push_entry(&mut pv, "action".to_owned(), action_json(acts[i].as_str()));
            assert(model_entries(pv@) =~= page_vars(name@, acts@[i as int]@)->Object_0);
            pages.push((Template::Page, JsonValue::Object(pv)));
            assert(runs_model(pages@) =~= runs_model(pbefore).push((Template::Page, page_vars(name@, acts@[i as int]@))));
        }
        i = i + 1;
    }
    assert(a.subrange(0, a.len() as int) == a);
    let mut vars: Vec<(String, JsonValue)> = Vec::new();
    assert(model_entries(vars@) =~= Seq::<(Seq<char>, SpecJson)>::empty());
    push_entry(&mut vars, "name".to_owned(), text(name));
    push_entry(&mut vars, "actions".to_owned(), JsonValue::Array(items));
    push_entry(&mut vars, "pkg_name".to_owned(), text(pkg_name));
    let ghost vm = generator_vars(name@, a, pkg_name@);
    assert(model_entries(vars@) =~= vm->Object_0);
    let v1 = JsonValue::Object(vars);
    let v2 = v1.deep_clone();
    let mut runs: Vec<(Template, JsonValue)> = Vec::new();
    runs.push((Template::Controller, v1));
    let ghost r1 = runs@;
    runs.append(&mut pages);
    runs.push((Template::Test, v2));
    assert(runs_model(runs@) =~= seq![(Template::Controller, vm)] + page_runs(name@, a) + seq![(Template::Test, vm)]);
    Ok(runs)
}

/// `cargo loco task inertia_generate name:<controller> actions:<a,b,c>`.
pub struct InertiaGenerate {
    pub pkg_name: String,
}

impl InertiaGenerate {
    /// The task for the app crate `pkg_name`.
    pub fn new(pkg_name: String) -> (r: InertiaGenerate)
        ensures
            r.pkg_name == pkg_name,
    {
        InertiaGenerate { pkg_name }
    }

    /// The plan for the task's command line variables: `name` (missing counts as empty) and
    /// `actions`, a comma separated list (items trimmed, blanks dropped).
    pub fn plan(&self, name: Option<&str>, actions: Option<&str>) -> (r: Result<Vec<(Template, JsonValue)>, GenerateError>)
        ensures
            ({
                let n = match name { Some(x) => x@, None => Seq::empty() };
                let acts = match actions { Some(a) => spec_comma_list(a@), None => Seq::empty() };
                &&& n.len() == 0 ==> r == Err::<Vec<(Template, JsonValue)>, GenerateError>(GenerateError::MissingName)
                &&& n.len() > 0 ==> (r matches Ok(runs) && runs_model(runs@) == spec_plan(self.pkg_name@, n, acts))
            }),
    {
        let acts = match actions {
            Some(a) => comma_list(a),
            None => {
                let v: Vec<String> = Vec::new();
                assert(strs(v@) =~= Seq::<Seq<char>>::empty());
                v
            },
        };
        let n: &str = match name {
            Some(x) => x,
            None => {
                proof {
                    reveal_strlit("");
                }
                assert(""@ =~= Seq::<char>::empty());
                ""
            },
        };
        generation_plan(self.pkg_name.as_str(), n, &acts)
    }
}

} // verus!
