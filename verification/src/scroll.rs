//! Infinite scroll: a prop whose items live under a wrapper key (`posts.data`) and are merged
//! page by page, plus the pagination metadata the client keeps in `scrollProps`.

use vstd::prelude::*;
use crate::json::{model_items, push_entry, JsonValue, SpecJson};
use crate::num::{decimal, to_decimal};
use crate::text::{chars_eq_ignore_case, eq_ignore_case, spec_trim, to_chars, trim_range};

verus! {

/// The wire shape of a scroll prop with the default wrapper: `{ "data": [...] }`.
pub struct ScrollData<T> {
    /// The items of this page.
    pub data: Vec<T>,
}

impl<T> ScrollData<T> {
    pub fn new(data: Vec<T>) -> (r: Self)
        ensures
            r.data == data,
    {
        ScrollData { data }
    }
}

impl ScrollData<JsonValue> {
    /// The prop value: `{ "data": [...] }`, the items in order.
    pub fn to_json(self) -> (r: JsonValue)
        ensures
            r.model() == SpecJson::Object(seq![(seq!['d', 'a', 't', 'a'], SpecJson::Array(model_items(self.data@)))]),
    {
        let mut entries: Vec<(String, JsonValue)> = Vec::new();
        proof {
            reveal_strlit("data");
        }
        assert("data"@ =~= seq!['d', 'a', 't', 'a']);
        push_entry(&mut entries, "data".to_owned(), JsonValue::Array(self.data));
        assert(crate::json::model_entries(entries@) =~= seq![(seq!['d', 'a', 't', 'a'], SpecJson::Array(model_items(self.data@)))]) by {
            assert(crate::json::model_entries(Seq::<(String, JsonValue)>::empty()) =~= Seq::<(Seq<char>, SpecJson)>::empty());
        }
        JsonValue::Object(entries)
    }
}

/// Whether the client wants the loaded page after (`append`) or before (`prepend`) the items
/// it already has: `X-Inertia-Infinite-Scroll-Merge-Intent`.
#[derive(Clone, Copy, PartialEq, Eq, Structural, Debug)]
pub enum MergeIntent {
    Append,
    Prepend,
}

/// `prepend`, compared up to ASCII case.
pub open spec fn is_prepend(v: Seq<char>) -> bool {
    eq_ignore_case(spec_trim(v), seq!['p', 'r', 'e', 'p', 'e', 'n', 'd'])
}

impl MergeIntent {
    /// The header value, trimmed: `prepend` (any ASCII case) prepends, anything else appends.
    pub fn from_header(value: Option<&str>) -> (r: Self)
        ensures
            r == (match value {
                Some(v) if is_prepend(v@) => MergeIntent::Prepend,
                _ => MergeIntent::Append,
            }),
    {
        match value {
            Some(v) => {
                let c = to_chars(v);
                let t = trim_range(&c, 0, c.len());
                assert(c@.subrange(0, c@.len() as int) == c@);
                let p = ['p', 'r', 'e', 'p', 'e', 'n', 'd'];
                let ps = p.as_slice();
                assert(ps@ == seq!['p', 'r', 'e', 'p', 'e', 'n', 'd']);
                if chars_eq_ignore_case(t.as_slice(), ps) {
                    MergeIntent::Prepend
                } else {
                    MergeIntent::Append
                }
            },
            None => MergeIntent::Append,
        }
    }
}

/// Where the client is in the pagination. Pages are numbers or opaque cursors.
#[derive(Debug, PartialEq, Eq)]
pub struct ScrollMeta {
    pub page_name: String,
    pub current_page: JsonValue,
    pub previous_page: JsonValue,
    pub next_page: JsonValue,
    pub wrapper: String,
    pub match_on: Vec<String>,
}

/// A page number as JSON.
pub open spec fn page_number(n: nat) -> SpecJson {
    SpecJson::Number(decimal(n))
}

/// An optional page as JSON (`null` when there is none).
pub open spec fn page_json(p: Option<JsonValue>) -> SpecJson {
    match p {
        Some(v) => v.model(),
        None => SpecJson::Null,
    }
}

/// The `scrollProps` entry of a scroll prop.
pub open spec fn spec_scroll_json(meta: ScrollMeta, reset: bool) -> SpecJson {
    SpecJson::Object(seq![
        (seq!['p', 'a', 'g', 'e', 'N', 'a', 'm', 'e'], SpecJson::Text(meta.page_name@)),
        (seq!['p', 'r', 'e', 'v', 'i', 'o', 'u', 's', 'P', 'a', 'g', 'e'], meta.previous_page.model()),
        (seq!['n', 'e', 'x', 't', 'P', 'a', 'g', 'e'], meta.next_page.model()),
        (seq!['c', 'u', 'r', 'r', 'e', 'n', 't', 'P', 'a', 'g', 'e'], meta.current_page.model()),
        (seq!['r', 'e', 's', 'e', 't'], SpecJson::Bool(reset)),
    ])
}

fn page_value(p: Option<JsonValue>) -> (r: JsonValue)
    ensures
        r.model() == page_json(p),
{
    match p {
        Some(v) => v,
        None => JsonValue::Null,
    }
}

fn number(n: u64) -> (r: JsonValue)
    ensures
        r.model() == page_number(n as nat),
{
    JsonValue::Number(to_decimal(n))
}

impl ScrollMeta {
    /// Page-number pagination: `current` of `last` pages, 1-based (page 0 counts as 1).
    pub fn numbered(current: u64, last: u64) -> (r: Self)
        ensures
            ({
                let c = if current == 0 { 1 } else { current as nat };
                &&& r.page_name@ == seq!['p', 'a', 'g', 'e']
                &&& r.wrapper@ == seq!['d', 'a', 't', 'a']
                &&& r.match_on@.len() == 0
                &&& r.current_page.model() == page_number(c)
                &&& r.previous_page.model() == (if c > 1 { page_number((c - 1) as nat) } else { SpecJson::Null })
                &&& r.next_page.model() == (if c < last { page_number(c + 1) } else { SpecJson::Null })
            }),
    {
        let current = if current == 0 { 1 } else { current };
        let previous = if current > 1 { Some(number(current - 1)) } else { None };
        let next = if current < last { Some(number(current + 1)) } else { None };
        Self::cursor(Some(number(current)), previous, next)
    }

    /// Cursor (or any other) pagination; `None` means there is no such page.
    pub fn cursor(current: Option<JsonValue>, previous: Option<JsonValue>, next: Option<JsonValue>) -> (r: Self)
        ensures
            r.page_name@ == seq!['p', 'a', 'g', 'e'],
            r.wrapper@ == seq!['d', 'a', 't', 'a'],
            r.match_on@.len() == 0,
            r.current_page.model() == page_json(current),
            r.previous_page.model() == page_json(previous),
            r.next_page.model() == page_json(next),
    {
        let page_name = "page".to_owned();
        let wrapper = "data".to_owned();
        proof {
            reveal_strlit("page");
            reveal_strlit("data");
        }
        ScrollMeta {
            page_name,
            current_page: page_value(current),
            previous_page: page_value(previous),
            next_page: page_value(next),
            wrapper,
            match_on: Vec::new(),
        }
    }

    /// Query parameter carrying the page (default `page`).
    pub fn page_name(self, name: String) -> (r: Self)
        ensures
            r == (ScrollMeta { page_name: name, ..self }),
    {
        ScrollMeta { page_name: name, ..self }
    }

    /// Key of the items inside the prop value (default `data`).
    pub fn wrapper(self, wrapper: String) -> (r: Self)
        ensures
            r == (ScrollMeta { wrapper, ..self }),
    {
        ScrollMeta { wrapper, ..self }
    }

    /// De-duplicate merged items by this field.
    pub fn match_on(self, key: String) -> (r: Self)
        ensures
            r.match_on@ == self.match_on@.push(key),
            r.page_name == self.page_name,
            r.wrapper == self.wrapper,
            r.current_page == self.current_page,
            r.previous_page == self.previous_page,
            r.next_page == self.next_page,
    {
        let mut s = self;
        s.match_on.push(key);
        s
    }

    /// The `scrollProps` entry: page name, previous, next and current page, and `reset`.
    pub fn to_json(&self, reset: bool) -> (r: JsonValue)
        ensures
            r.model() == spec_scroll_json(*self, reset),
    {
        let mut entries: Vec<(String, JsonValue)> = Vec::new();
        proof {
            reveal_strlit("pageName");
            reveal_strlit("previousPage");
            reveal_strlit("nextPage");
            reveal_strlit("currentPage");
            reveal_strlit("reset");
        }
        assert(crate::json::model_entries(entries@) == Seq::<(Seq<char>, SpecJson)>::empty());
        assert("pageName"@ =~= seq!['p', 'a', 'g', 'e', 'N', 'a', 'm', 'e']);
        assert("previousPage"@ =~= seq!['p', 'r', 'e', 'v', 'i', 'o', 'u', 's', 'P', 'a', 'g', 'e']);
        assert("nextPage"@ =~= seq!['n', 'e', 'x', 't', 'P', 'a', 'g', 'e']);
        assert("currentPage"@ =~= seq!['c', 'u', 'r', 'r', 'e', 'n', 't', 'P', 'a', 'g', 'e']);
        assert("reset"@ =~= seq!['r', 'e', 's', 'e', 't']);
        push_entry(&mut entries, "pageName".to_owned(), JsonValue::Text(self.page_name.clone()));
        push_entry(&mut entries, "previousPage".to_owned(), self.previous_page.deep_clone());
        push_entry(&mut entries, "nextPage".to_owned(), self.next_page.deep_clone());
        push_entry(&mut entries, "currentPage".to_owned(), self.current_page.deep_clone());
        push_entry(&mut entries, "reset".to_owned(), JsonValue::Bool(reset));
        assert(crate::json::model_entries(entries@) =~= spec_scroll_json(*self, reset)->Object_0);
        JsonValue::Object(entries)
    }
}

} // verus!
