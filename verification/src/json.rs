//! A JSON document model owned by the library. Numbers keep their decimal text, so no
//! value is ever rounded; objects keep their entries in insertion order.

use vstd::prelude::*;

verus! {

/// A JSON value.
#[derive(Debug, PartialEq, Eq)]
pub enum JsonValue {
    Null,
    Bool(bool),
    /// A number, as its JSON text (e.g. `42`, `-1.5e3`).
    Number(String),
    Text(String),
    Array(Vec<JsonValue>),
    /// Entries in insertion order; `object_insert` keeps keys unique.
    Object(Vec<(String, JsonValue)>),
}

/// The mathematical JSON value a [`JsonValue`] stands for.
pub enum SpecJson {
    Null,
    Bool(bool),
    Number(Seq<char>),
    Text(Seq<char>),
    Array(Seq<SpecJson>),
    Object(Seq<(Seq<char>, SpecJson)>),
}

impl JsonValue {
    /// The value as a [`SpecJson`].
    pub open spec fn model(self) -> SpecJson
        decreases self,
    {
        match self {
            JsonValue::Null => SpecJson::Null,
            JsonValue::Bool(b) => SpecJson::Bool(b),
            JsonValue::Number(n) => SpecJson::Number(n@),
            JsonValue::Text(t) => SpecJson::Text(t@),
            JsonValue::Array(items) => SpecJson::Array(model_items(items@)),
            JsonValue::Object(entries) => SpecJson::Object(model_entries(entries@)),
        }
    }
}

/// The models of a list of values.
pub open spec fn model_items(items: Seq<JsonValue>) -> Seq<SpecJson>
    decreases items,
{
    if items.len() == 0 {
        Seq::empty()
    } else {
        model_items(items.drop_last()).push(items.last().model())
    }
}

/// No list occurs anywhere in the value: not the value itself, nor any value inside an
/// object at any depth.
pub open spec fn has_no_lists(v: SpecJson) -> bool
    decreases v,
{
    match v {
        SpecJson::Array(_) => false,
        SpecJson::Object(m) => entries_have_no_lists(m),
        _ => true,
    }
}

/// No value of the entries holds a list at any depth.
pub open spec fn entries_have_no_lists(m: Seq<(Seq<char>, SpecJson)>) -> bool
    decreases m,
{
    if m.len() == 0 {
        true
    } else {
        entries_have_no_lists(m.drop_last()) && has_no_lists(m.last().1)
    }
}

/// The models of object entries.
pub open spec fn model_entries(entries: Seq<(String, JsonValue)>) -> Seq<(Seq<char>, SpecJson)>
    decreases entries,
{
    if entries.len() == 0 {
        Seq::empty()
    } else {
        model_entries(entries.drop_last()).push((entries.last().0@, entries.last().1.model()))
    }
}

/// The value stored under `key`: the last entry with that key.
pub open spec fn lookup(entries: Seq<(String, JsonValue)>, key: Seq<char>) -> Option<JsonValue>
    decreases entries.len(),
{
    if entries.len() == 0 {
        None
    } else if entries.last().0@ == key {
        Some(entries.last().1)
    } else {
        lookup(entries.drop_last(), key)
    }
}

/// No key occurs twice.
pub open spec fn unique_keys<V>(entries: Seq<(String, V)>) -> bool {
    forall|i: int, j: int|
        0 <= i < j < entries.len() ==> #[trigger] entries[i].0@ != #[trigger] entries[j].0@
}

/// Index of the first entry keyed `key`, if any.
pub open spec fn first_index<V>(entries: Seq<(String, V)>, key: Seq<char>) -> Option<int> {
    if exists|i: int| 0 <= i < entries.len() && entries[i].0@ == key
        && forall|j: int| 0 <= j < i ==> entries[j].0@ != key {
        Some(choose|i: int| 0 <= i < entries.len() && entries[i].0@ == key
            && forall|j: int| 0 <= j < i ==> entries[j].0@ != key)
    } else {
        None
    }
}

/// `entries` with `key` set to `value`: the first entry with that key is replaced, or the
/// pair is appended when there is none.
pub open spec fn spec_insert<V>(entries: Seq<(String, V)>, key: String, value: V) -> Seq<(String, V)> {
    match first_index(entries, key@) {
        Some(i) => entries.update(i, (key, value)),
        None => entries.push((key, value)),
    }
}

pub(crate) proof fn lemma_first_index<V>(entries: Seq<(String, V)>, key: Seq<char>, i: int)
    requires
        0 <= i < entries.len(),
        entries[i].0@ == key,
        forall|j: int| 0 <= j < i ==> entries[j].0@ != key,
    ensures
        first_index(entries, key) == Some(i),
{
    let c = choose|c: int| 0 <= c < entries.len() && entries[c].0@ == key
        && forall|j: int| 0 <= j < c ==> entries[j].0@ != key;
    if c < i {
        assert(entries[c].0@ != key);
    }
    if i < c {
        assert(entries[i].0@ != key);
    }
}

pub(crate) proof fn lemma_no_index<V>(entries: Seq<(String, V)>, key: Seq<char>)
    requires
        forall|j: int| 0 <= j < entries.len() ==> entries[j].0@ != key,
    ensures
        first_index(entries, key) is None,
{
}

/// The value of the first entry keyed `key`, if any.
pub open spec fn entry_at<V>(entries: Seq<(String, V)>, key: Seq<char>) -> Option<V> {
    match first_index(entries, key) {
        Some(i) => Some(entries[i].1),
        None => None,
    }
}

proof fn lemma_has_first<V>(entries: Seq<(String, V)>, key: Seq<char>, j: int)
    requires
        0 <= j < entries.len(),
        entries[j].0@ == key,
    ensures
        first_index(entries, key) is Some,
    decreases j,
{
    if exists|k: int| 0 <= k < j && entries[k].0@ == key {
        let k = choose|k: int| 0 <= k < j && entries[k].0@ == key;
        lemma_has_first(entries, key, k);
    } else {
        lemma_first_index(entries, key, j);
    }
}

pub(crate) proof fn lemma_first_index_some<V>(entries: Seq<(String, V)>, key: Seq<char>)
    requires
        first_index(entries, key) is Some,
    ensures
        ({
            let i = first_index(entries, key)->0;
            &&& 0 <= i < entries.len()
            &&& entries[i].0@ == key
            &&& forall|j: int| 0 <= j < i ==> entries[j].0@ != key
        }),
{
}

pub(crate) proof fn lemma_first_index_none<V>(entries: Seq<(String, V)>, key: Seq<char>)
    requires
        first_index(entries, key) is None,
    ensures
        forall|j: int| 0 <= j < entries.len() ==> entries[j].0@ != key,
{
    assert forall|j: int| 0 <= j < entries.len() implies entries[j].0@ != key by {
        if entries[j].0@ == key {
            lemma_has_first(entries, key, j);
        }
    }
}

/// A read gives back what an insert wrote, and an insert leaves every other key as it was.
pub proof fn lemma_insert_then_read<V>(entries: Seq<(String, V)>, key: String, value: V, other: Seq<char>)
    ensures
        entry_at(spec_insert(entries, key, value), key@) == Some(value),
        other != key@ ==> entry_at(spec_insert(entries, key, value), other) == entry_at(entries, other),
{
    let after = spec_insert(entries, key, value);
    match first_index(entries, key@) {
        Some(i) => {
            lemma_first_index_some(entries, key@);
            lemma_first_index(after, key@, i);
            if other != key@ {
                match first_index(entries, other) {
                    Some(j) => {
                        lemma_first_index_some(entries, other);
                        lemma_first_index(after, other, j);
                    },
                    None => {
                        lemma_first_index_none(entries, other);
                        lemma_no_index(after, other);
                    },
                }
            }
        },
        None => {
            lemma_first_index_none(entries, key@);
            lemma_first_index(after, key@, entries.len() as int);
            if other != key@ {
                match first_index(entries, other) {
                    Some(j) => {
                        lemma_first_index_some(entries, other);
                        lemma_first_index(after, other, j);
                    },
                    None => {
                        lemma_first_index_none(entries, other);
                        lemma_no_index(after, other);
                    },
                }
            }
        },
    }
}

/// The keys of entries, in order.
pub open spec fn entry_keys<V>(entries: Seq<(String, V)>) -> Seq<Seq<char>> {
    entries.map_values(|e: (String, V)| e.0@)
}

/// An insert keeps the keys in order: a key already there stays in its place, a new one
/// goes last; no key comes to occur twice.
pub proof fn lemma_insert_keeps_keys<V>(entries: Seq<(String, V)>, key: String, value: V)
    ensures
        entry_keys(spec_insert(entries, key, value)) == if entry_keys(entries).contains(key@) {
            entry_keys(entries)
        } else {
            entry_keys(entries).push(key@)
        },
        unique_keys(entries) ==> unique_keys(spec_insert(entries, key, value)),
{
    let after = spec_insert(entries, key, value);
    match first_index(entries, key@) {
        Some(i) => {
            lemma_first_index_some(entries, key@);
            assert(entry_keys(entries)[i] == key@);
            assert(entry_keys(entries).contains(key@));
            assert(entry_keys(after) =~= entry_keys(entries));
            if unique_keys(entries) {
                assert forall|a: int, b: int| 0 <= a < b < after.len() implies
                    #[trigger] after[a].0@ != #[trigger] after[b].0@ by {
                    assert(entries[a].0@ != entries[b].0@);
                }
            }
        },
        None => {
            lemma_first_index_none(entries, key@);
            assert(!entry_keys(entries).contains(key@)) by {
                if entry_keys(entries).contains(key@) {
                    let j = choose|j: int| 0 <= j < entry_keys(entries).len() && entry_keys(entries)[j] == key@;
                    assert(entries[j].0@ == key@);
                }
            }
            assert(entry_keys(after) =~= entry_keys(entries).push(key@));
            if unique_keys(entries) {
                assert forall|a: int, b: int| 0 <= a < b < after.len() implies
                    #[trigger] after[a].0@ != #[trigger] after[b].0@ by {
                    if b == entries.len() {
                        assert(entries[a].0@ != key@);
                    } else {
                        assert(entries[a].0@ != entries[b].0@);
                    }
                }
            }
        },
    }
}

pub(crate) proof fn lemma_model_items_step(s: Seq<JsonValue>, i: int)
    requires
        0 <= i < s.len(),
    ensures
        model_items(s.subrange(0, i + 1)) == model_items(s.subrange(0, i)).push(s[i].model()),
{
    assert(s.subrange(0, i + 1).drop_last() == s.subrange(0, i));
}

/// The model of entries has an entry per entry, each the model of the one it comes from.
pub(crate) proof fn lemma_model_entries_index(s: Seq<(String, JsonValue)>)
    ensures
        model_entries(s).len() == s.len(),
        forall|i: int| 0 <= i < s.len() ==> #[trigger] model_entries(s)[i] == (s[i].0@, s[i].1.model()),
    decreases s.len(),
{
    if s.len() > 0 {
        lemma_model_entries_index(s.drop_last());
    }
}

pub proof fn lemma_model_entries_step(s: Seq<(String, JsonValue)>, i: int)
    requires
        0 <= i < s.len(),
    ensures
        model_entries(s.subrange(0, i + 1)) == model_entries(s.subrange(0, i)).push((s[i].0@, s[i].1.model())),
{
    assert(s.subrange(0, i + 1).drop_last() == s.subrange(0, i));
}

/// The models of concatenated entries are the concatenated models.
pub proof fn lemma_model_entries_concat(a: Seq<(String, JsonValue)>, b: Seq<(String, JsonValue)>)
    ensures
        model_entries(a + b) == model_entries(a) + model_entries(b),
    decreases b.len(),
{
    if b.len() == 0 {
        assert(a + b == a);
        assert(model_entries(a) + model_entries(b) == model_entries(a));
    } else {
        lemma_model_entries_concat(a, b.drop_last());
        assert((a + b).drop_last() == a + b.drop_last());
    }
}

impl JsonValue {
    /// A copy of this value.
    #[verifier::loop_isolation(false)]
    pub fn deep_clone(&self) -> (r: JsonValue)
        ensures
            r.model() == self.model(),
        decreases self,
    {
        match self {
            JsonValue::Null => JsonValue::Null,
            JsonValue::Bool(b) => JsonValue::Bool(*b),
            JsonValue::Number(n) => JsonValue::Number(n.clone()),
            JsonValue::Text(t) => JsonValue::Text(t.clone()),
            JsonValue::Array(items) => {
                let mut out: Vec<JsonValue> = Vec::new();
                let mut i: usize = 0;
                while i < items.len()
                    invariant
                        i <= items@.len(),
                        model_items(out@) == model_items(items@.subrange(0, i as int)),
                    decreases items@.len() - i,
                {
                    proof {
                        lemma_model_items_step(items@, i as int);
                    }
                    assert(decreases_to!(self => items@[i as int])) by {
                        assert(decreases_to!(self => self->Array_0));
                        assert(decreases_to!(self->Array_0 => self->Array_0@));
                        assert(decreases_to!(self->Array_0@ => self->Array_0@[i as int]));
                    }
                    let c = items[i].deep_clone();
                    let ghost before = out@;
                    out.push(c);
                    assert(out@.drop_last() == before);
                    i = i + 1;
                }
                assert(items@.subrange(0, items@.len() as int) == items@);
                JsonValue::Array(out)
            },
            JsonValue::Object(entries) => {
                let mut out: Vec<(String, JsonValue)> = Vec::new();
                let mut i: usize = 0;
                while i < entries.len()
                    invariant
                        i <= entries@.len(),
                        model_entries(out@) == model_entries(entries@.subrange(0, i as int)),
                    decreases entries@.len() - i,
                {
                    proof {
                        lemma_model_entries_step(entries@, i as int);
                    }
                    assert(decreases_to!(self => entries@[i as int].1)) by {
                        let f = self->Object_0;
                        assert(decreases_to!(self => self->Object_0));
                        assert(decreases_to!(f => f@));
                        assert(decreases_to!(f@ => f@[i as int]));
                        assert(decreases_to!(f@[i as int] => f@[i as int].1));
                    }
                    let c = entries[i].1.deep_clone();
                    let k = entries[i].0.clone();
                    let ghost before = out@;
                    out.push((k, c));
                    assert(out@.drop_last() == before);
                    i = i + 1;
                }
                assert(entries@.subrange(0, entries@.len() as int) == entries@);
                JsonValue::Object(out)
            },
        }
    }
}

/// Appends an entry to an object's entries.
pub fn push_entry(out: &mut Vec<(String, JsonValue)>, key: String, value: JsonValue)
    ensures
        final(out)@ == old(out)@.push((key, value)),
        model_entries(final(out)@) == model_entries(old(out)@).push((key@, value.model())),
{
    let ghost before = out@;
    out.push((key, value));
    assert(out@.drop_last() == before);
}

/// Compares two strings by their characters.
pub fn str_eq(a: &str, b: &str) -> (r: bool)
    ensures
        r == (a@ == b@),
{
    let n = a.unicode_len();
    if n != b.unicode_len() {
        return false;
    }
    let mut i: usize = 0;
    while i < n
        invariant
            n == a@.len(),
            n == b@.len(),
            i <= n,
            a@.subrange(0, i as int) == b@.subrange(0, i as int),
        decreases n - i,
    {
        if a.get_char(i) != b.get_char(i) {
            assert(a@[i as int] != b@[i as int]);
            return false;
        }
        assert(a@.subrange(0, i + 1) == a@.subrange(0, i as int).push(a@[i as int]));
        assert(b@.subrange(0, i + 1) == b@.subrange(0, i as int).push(b@[i as int]));
        i = i + 1;
    }
    assert(a@ == a@.subrange(0, n as int));
    assert(b@ == b@.subrange(0, n as int));
    true
}

/// Position of `key` among the keys of `entries`, if any.
pub fn find_key<V>(entries: &Vec<(String, V)>, key: &str) -> (r: Option<usize>)
    ensures
        match r {
            Some(i) => i < entries@.len() && entries@[i as int].0@ == key@
                && forall|j: int| 0 <= j < i ==> entries@[j].0@ != key@,
            None => forall|j: int| 0 <= j < entries@.len() ==> entries@[j].0@ != key@,
        },
{
    let mut i: usize = 0;
    while i < entries.len()
        invariant
            i <= entries@.len(),
            forall|j: int| 0 <= j < i ==> entries@[j].0@ != key@,
        decreases entries@.len() - i,
    {
        if str_eq(entries[i].0.as_str(), key) {
            return Some(i);
        }
        i = i + 1;
    }
    None
}

/// Sets `key` to `value`: replaces the first entry with that key, or appends one.
pub fn object_insert<V>(entries: &mut Vec<(String, V)>, key: String, value: V)
    ensures
        final(entries)@ == spec_insert(old(entries)@, key, value),
        unique_keys(old(entries)@) ==> unique_keys(final(entries)@),
{
    let ghost k = key@;
    match find_key(entries, key.as_str()) {
        Some(i) => {
            proof {
                lemma_first_index(old(entries)@, k, i as int);
            }
            entries.set(i, (key, value));
            proof {
                if unique_keys(old(entries)@) {
                    assert forall|a: int, b: int| 0 <= a < b < entries@.len() implies
                        #[trigger] entries@[a].0@ != #[trigger] entries@[b].0@ by {
                        if a != i && b != i {
                            assert(old(entries)@[a].0@ != old(entries)@[b].0@);
                        } else if a == i {
                            assert(old(entries)@[a].0@ != old(entries)@[b].0@);
                        } else {
                            assert(old(entries)@[a].0@ != old(entries)@[b].0@);
                        }
                    }
                }
            }
        },
        None => {
            proof {
                lemma_no_index(old(entries)@, k);
            }
            entries.push((key, value));
        },
    }
}

} // verus!
