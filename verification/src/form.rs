//! Form input as the Inertia client sends it: bracket-named fields (`user[name]`, `tags[0]`,
//! `tags[]`) turned into nested objects and arrays, the field limits, and what a validated
//! (or Precognition) submission is answered.

use vstd::prelude::*;
use crate::csrf::{split_all, split_once, split_once_exec};
use crate::flash::InertiaRedirect;
use crate::inertia::{Inertia, PrecognitionAnswer};
use crate::json::{entries_have_no_lists, has_no_lists, lemma_model_entries_index, lemma_model_entries_step, model_entries, model_items, push_entry, JsonValue, SpecJson};
use crate::narrow::strs;
use crate::num::{decimal, to_decimal};
use crate::text::{from_chars, segments, to_chars};

verus! {

/// Most fields (text and files) accepted in one form, like PHP's `max_input_vars`.
pub const MAX_FIELDS: usize = 1000;

/// Deepest bracket nesting accepted in a field name (`a[b][c]` is 3).
pub const MAX_FIELD_DEPTH: usize = 32;

/// Marks where a file sits in the field tree. Only files put it there: text fields stay
/// strings whatever they contain.
pub open spec fn file_marker() -> Seq<char> {
    "$inertia_file"@
}

/// A submitted form that has passed validation.
pub struct InertiaForm<T>(pub T);

/// A form field's value.
#[derive(Debug, Clone, PartialEq, Eq)]
pub enum FieldValue {
    Text(String),
    /// Index into the uploaded files.
    File(usize),
}

/// Why form data was refused (answered `422`).
#[derive(PartialEq, Eq, Structural, Debug)]
pub enum FormError {
    /// More than [`MAX_FIELDS`] fields.
    TooManyFields,
    /// A field name nesting deeper than [`MAX_FIELD_DEPTH`].
    TooDeep,
}

/// The bracket keys of the parts after the first `[`: each part that ends with `]`, without it.
pub open spec fn bracket_keys(parts: Seq<Seq<char>>) -> Seq<Seq<char>>
    decreases parts.len(),
{
    if parts.len() == 0 {
        Seq::empty()
    } else {
        let before = bracket_keys(parts.drop_last());
        let p = parts.last();
        if p.len() > 0 && p.last() == ']' { before.push(p.drop_last()) } else { before }
    }
}

/// `user[address][street]` → `user`, `address`, `street`.
pub open spec fn spec_split_brackets(name: Seq<char>) -> Seq<Seq<char>> {
    match split_once(name, '[') {
        None => seq![name],
        Some((head, rest)) => seq![head] + bracket_keys(segments(rest, '[')),
    }
}

/// `user[address][street]` → `user`, `address`, `street`.
pub fn split_brackets(name: &str) -> (r: Vec<String>)
    ensures
        strs(r@) == spec_split_brackets(name@),
{
    let v = to_chars(name);
    let mut out: Vec<String> = Vec::new();
    match split_once_exec(&v, '[') {
        None => {
            out.push(name.to_owned());
            assert(strs(out@) =~= seq![name@]);
        },
        Some((head, rest)) => {
            out.push(from_chars(head.as_slice()));
            let parts = split_all(&rest, '[');
            let ghost ps = parts@.map_values(|x: Vec<char>| x@);
            let mut i: usize = 0;
            assert(ps.subrange(0, 0) =~= Seq::<Seq<char>>::empty());
            assert(strs(out@) =~= seq![head@] + bracket_keys(ps.subrange(0, 0)));
            while i < parts.len()
                invariant
                    i <= parts@.len(),
                    ps == parts@.map_values(|x: Vec<char>| x@),
                    strs(out@) == seq![head@] + bracket_keys(ps.subrange(0, i as int)),
                decreases parts@.len() - i,
            {
                assert(ps.subrange(0, i + 1).drop_last() == ps.subrange(0, i as int));
                assert(ps.subrange(0, i + 1).last() == parts@[i as int]@);
                let p = &parts[i];
                if p.len() > 0 && p[p.len() - 1] == ']' {
                    let key = crate::text::from_char_range(p.as_slice(), 0, p.len() - 1);
                    assert(p@.subrange(0, p@.len() - 1) == p@.drop_last());
                    let ghost before = out@;
                    out.push(key);
                    assert(strs(out@) =~= strs(before).push(p@.drop_last()));
                }
                i = i + 1;
            }
            assert(ps.subrange(0, ps.len() as int) == ps);
        },
    }
    out
}

/// The value of a string of decimal digits.
pub open spec fn digits_value(s: Seq<char>) -> nat
    decreases s.len(),
{
    if s.len() == 0 { 0 } else { digits_value(s.drop_last()) * 10 + (s.last() as nat - 48) as nat }
}

/// Only decimal digits.
pub open spec fn all_digits(s: Seq<char>) -> bool {
    forall|i: int| 0 <= i < s.len() ==> '0' <= #[trigger] s[i] && s[i] <= '9'
}

/// An array index as `usize::from_str` reads it: an optional `+`, then at least one digit,
/// the value fitting in a `usize`.
pub open spec fn parse_index(s: Seq<char>) -> Option<nat> {
    let d = if s.len() > 0 && s[0] == '+' { s.drop_first() } else { s };
    if d.len() > 0 && all_digits(d) && digits_value(d) <= usize::MAX { Some(digits_value(d)) } else { None }
}

/// Exec form of [`parse_index`].
pub fn parse_index_exec(s: &str) -> (r: Option<usize>)
    ensures
        match r {
            Some(n) => parse_index(s@) == Some(n as nat),
            None => parse_index(s@) is None,
        },
{
    let v = to_chars(s);
    let start: usize = if v.len() > 0 && v[0] == '+' { 1 } else { 0 };
    let ghost d = if s@.len() > 0 && s@[0] == '+' { s@.drop_first() } else { s@ };
    assert(d == v@.subrange(start as int, v@.len() as int));
    if start >= v.len() {
        return None;
    }
    let mut value: usize = 0;
    let mut i: usize = start;
    while i < v.len()
        invariant
            v@ == s@,
            start <= i <= v@.len(),
            d == v@.subrange(start as int, v@.len() as int),
            d == if s@.len() > 0 && s@[0] == '+' { s@.drop_first() } else { s@ },
            all_digits(v@.subrange(start as int, i as int)),
            value as nat == digits_value(v@.subrange(start as int, i as int)),
        decreases v@.len() - i,
    {
        let c = v[i];
        assert(v@.subrange(start as int, i + 1).drop_last() == v@.subrange(start as int, i as int));
        if !('0' <= c && c <= '9') {
            assert(!all_digits(d)) by {
                assert(d[i - start] == c);
            }
            return None;
        }
        let digit = (c as u32 - 48) as usize;
        if value > (usize::MAX - digit) / 10 {
            proof {
                lemma_digits_grow(v@.subrange(start as int, v@.len() as int), (i + 1 - start) as int);
                assert(v@.subrange(start as int, v@.len() as int).subrange(0, i + 1 - start) == v@.subrange(start as int, i + 1));
            }
            assert(!(digits_value(d) <= usize::MAX)) by (nonlinear_arith)
                requires
                    value as nat * 10 + digit > usize::MAX,
                    digits_value(d) >= value as nat * 10 + digit,
            {
            }
            return None;
        }
        value = value * 10 + digit;
        i = i + 1;
    }
    assert(v@.subrange(start as int, v@.len() as int) == d);
    Some(value)
}

pub(crate) proof fn lemma_digits_grow(s: Seq<char>, k: int)
    requires
        0 <= k <= s.len(),
    ensures
        digits_value(s) >= digits_value(s.subrange(0, k)),
    decreases s.len() - k,
{
    if k < s.len() {
        lemma_digits_grow(s, k + 1);
        assert(s.subrange(0, k + 1).drop_last() == s.subrange(0, k));
    } else {
        assert(s.subrange(0, k) == s);
    }
}

/// The value of the first entry keyed `k`.
pub open spec fn mget(m: Seq<(Seq<char>, SpecJson)>, k: Seq<char>) -> Option<SpecJson>
    decreases m.len(),
{
    if m.len() == 0 {
        None
    } else if m[0].0 == k {
        Some(m[0].1)
    } else {
        mget(m.drop_first(), k)
    }
}

/// `m` with `k` set to `v`: the first entry keyed `k` replaced, or the pair appended.
pub open spec fn mput(m: Seq<(Seq<char>, SpecJson)>, k: Seq<char>, v: SpecJson) -> Seq<(Seq<char>, SpecJson)>
    decreases m.len(),
{
    if m.len() == 0 {
        seq![(k, v)]
    } else if m[0].0 == k {
        m.update(0, (k, v))
    } else {
        seq![m[0]] + mput(m.drop_first(), k, v)
    }
}

proof fn lemma_mput_at(m: Seq<(Seq<char>, SpecJson)>, k: Seq<char>, v: SpecJson, i: int)
    requires
        0 <= i < m.len(),
        m[i].0 == k,
        forall|j: int| 0 <= j < i ==> m[j].0 != k,
    ensures
        mput(m, k, v) == m.update(i, (k, v)),
        mget(m, k) == Some(m[i].1),
    decreases i,
{
    if i > 0 {
        lemma_mput_at(m.drop_first(), k, v, i - 1);
        assert(seq![m[0]] + m.drop_first().update(i - 1, (k, v)) =~= m.update(i, (k, v)));
    }
}

proof fn lemma_mput_none(m: Seq<(Seq<char>, SpecJson)>, k: Seq<char>, v: SpecJson)
    requires
        forall|j: int| 0 <= j < m.len() ==> m[j].0 != k,
    ensures
        mput(m, k, v) == m.push((k, v)),
        mget(m, k) is None,
    decreases m.len(),
{
    if m.len() > 0 {
        lemma_mput_none(m.drop_first(), k, v);
        assert(seq![m[0]] + m.drop_first().push((k, v)) =~= m.push((k, v)));
    }
}

/// The largest key that is an array index, if any.
pub open spec fn max_index(m: Seq<(Seq<char>, SpecJson)>) -> Option<nat>
    decreases m.len(),
{
    if m.len() == 0 {
        None
    } else {
        let before = max_index(m.drop_last());
        match parse_index(m.last().0) {
            Some(x) => match before {
                Some(y) => Some(if x > y { x } else { y }),
                None => Some(x),
            },
            None => before,
        }
    }
}

/// The key `name[]` gets: one past the largest index (`0` past the largest `usize`), or
/// the number of entries when no key is an index.
pub open spec fn next_key(m: Seq<(Seq<char>, SpecJson)>) -> Seq<char> {
    decimal(match max_index(m) {
        Some(x) => if x == usize::MAX { 0 } else { x + 1 },
        None => m.len(),
    })
}

/// `m` with `v` stored under `path` (an empty segment meaning the next index), creating
/// objects on the way and replacing values that are not objects.
pub open spec fn ins_path(m: Seq<(Seq<char>, SpecJson)>, path: Seq<Seq<char>>, v: SpecJson) -> Seq<(Seq<char>, SpecJson)>
    decreases path.len(),
{
    if path.len() == 0 {
        m
    } else {
        let key = if path[0].len() == 0 { next_key(m) } else { path[0] };
        if path.len() == 1 {
            mput(m, key, v)
        } else {
            let child = match mget(m, key) {
                Some(SpecJson::Object(c)) => c,
                _ => Seq::empty(),
            };
            mput(m, key, SpecJson::Object(ins_path(child, path.drop_first(), v)))
        }
    }
}

fn next_key_exec(entries: &Vec<(String, JsonValue)>) -> (r: String)
    ensures
        r@ == next_key(model_entries(entries@)),
{
    let ghost me = model_entries(entries@);
    proof {
        lemma_model_entries_index(entries@);
    }
    let mut best: Option<usize> = None;
    let mut i: usize = 0;
    assert(me.subrange(0, 0) =~= Seq::<(Seq<char>, SpecJson)>::empty());
    while i < entries.len()
        invariant
            i <= entries@.len(),
            me == model_entries(entries@),
            me.len() == entries@.len(),
            forall|j: int| 0 <= j < entries@.len() ==> #[trigger] me[j] == (entries@[j].0@, entries@[j].1.model()),
            match best {
                Some(b) => max_index(me.subrange(0, i as int)) == Some(b as nat),
                None => max_index(me.subrange(0, i as int)) is None,
            },
        decreases entries@.len() - i,
    {
        assert(me.subrange(0, i + 1).drop_last() == me.subrange(0, i as int));
        assert(me.subrange(0, i + 1).last() == me[i as int]);
        match parse_index_exec(entries[i].0.as_str()) {
            Some(x) => {
                best = match best {
                    Some(b) => Some(if x > b { x } else { b }),
                    None => Some(x),
                };
            },
            None => {},
        }
        i = i + 1;
    }
    assert(me.subrange(0, me.len() as int) == me);
    let n: usize = match best {
        Some(b) => if b == usize::MAX { 0 } else { b + 1 },
        None => entries.len(),
    };
    to_decimal(n as u64)
}

/// Exec form of [`ins_path`] on the segments `path[at..]`.
pub fn insert_path(entries: Vec<(String, JsonValue)>, path: &Vec<String>, at: usize, value: JsonValue) -> (r: Vec<(String, JsonValue)>)
    requires
        at <= path@.len(),
    ensures
        model_entries(r@) == ins_path(model_entries(entries@), strs(path@).skip(at as int), value.model()),
    decreases path@.len() - at,
{
    let ghost rest = strs(path@).skip(at as int);
    if at == path.len() {
        assert(rest.len() == 0);
        return entries;
    }
    assert(rest[0] == path@[at as int]@);
    let key: String = if path[at].unicode_len() == 0 { next_key_exec(&entries) } else { path[at].clone() };
    let ghost m = model_entries(entries@);
    proof {
        lemma_model_entries_index(entries@);
    }
    let pos = crate::json::find_key(&entries, key.as_str());
    let mut entries = entries;
    if at + 1 == path.len() {
        assert(rest.len() == 1);
        match pos {
            Some(i) => {
                proof {
                    lemma_mput_at(m, key@, value.model(), i as int);
                }
                let ghost e0 = entries@;
                entries.set(i, (key, value));
                proof {
                    lemma_model_entries_index(entries@);
                }
                assert(model_entries(entries@) =~= m.update(i as int, (key@, value.model())));
            },
            None => {
                proof {
                    lemma_mput_none(m, key@, value.model());
                }
                push_entry(&mut entries, key, value);
            },
        }
        entries
    } else {
        assert(rest.drop_first() == strs(path@).skip(at + 1));
        match pos {
            Some(i) => {
                proof {
                    lemma_mput_at(m, key@, value.model(), i as int);
                }
                let (k, old) = entries.remove(i);
                let child: Vec<(String, JsonValue)> = match old {
                    JsonValue::Object(c) => c,
                    _ => Vec::new(),
                };
                assert(model_entries(child@) == match mget(m, key@) { Some(SpecJson::Object(c)) => c, _ => Seq::empty() });
                let new_child = insert_path(child, path, at + 1, value);
                let ghost nv = SpecJson::Object(model_entries(new_child@));
                proof {
                    lemma_mput_at(m, key@, nv, i as int);
                }
                entries.insert(i, (key, JsonValue::Object(new_child)));
                proof {
                    lemma_model_entries_index(entries@);
                }
                assert(model_entries(entries@) =~= m.update(i as int, (k@, nv)));
                entries
            },
            None => {
                assert(Seq::<(Seq<char>, SpecJson)>::empty() == match mget(m, key@) { Some(SpecJson::Object(c)) => c, _ => Seq::<(Seq<char>, SpecJson)>::empty() }) by {
                    lemma_mput_none(m, key@, value.model());
                }
                let empty: Vec<(String, JsonValue)> = Vec::new();
                assert(model_entries(empty@) =~= Seq::<(Seq<char>, SpecJson)>::empty());
                let new_child = insert_path(empty, path, at + 1, value);
                proof {
                    lemma_mput_none(m, key@, SpecJson::Object(model_entries(new_child@)));
                }
                push_entry(&mut entries, key, JsonValue::Object(new_child));
                entries
            },
        }
    }
}

/// Every key is an array index.
pub open spec fn all_indices(m: Seq<(Seq<char>, SpecJson)>) -> bool {
    forall|i: int| 0 <= i < m.len() ==> #[trigger] parse_index(m[i].0) is Some
}

/// `x` placed in `s` (sorted by index) after every item whose index is not larger.
pub open spec fn insert_sorted(s: Seq<(nat, SpecJson)>, x: (nat, SpecJson)) -> Seq<(nat, SpecJson)>
    decreases s.len(),
{
    if s.len() == 0 {
        seq![x]
    } else if s.last().0 <= x.0 {
        s.push(x)
    } else {
        insert_sorted(s.drop_last(), x).push(s.last())
    }
}

/// No object whose keys are all array indices occurs anywhere in the value.
pub open spec fn no_index_objects(v: SpecJson) -> bool
    decreases v,
{
    match v {
        SpecJson::Object(m) => !(m.len() > 0 && forall|i: int| 0 <= i < m.len() ==> #[trigger] parse_index(m[i].0) is Some)
            && no_index_entries(m),
        SpecJson::Array(items) => no_index_items(items),
        _ => true,
    }
}

/// [`no_index_objects`] of every value of the entries.
pub open spec fn no_index_entries(m: Seq<(Seq<char>, SpecJson)>) -> bool
    decreases m,
{
    if m.len() == 0 { true } else { no_index_entries(m.drop_last()) && no_index_objects(m.last().1) }
}

/// [`no_index_objects`] of every item.
pub open spec fn no_index_items(s: Seq<SpecJson>) -> bool
    decreases s,
{
    if s.len() == 0 { true } else { no_index_items(s.drop_last()) && no_index_objects(s.last()) }
}

proof fn lemma_no_index_items_all(s: Seq<SpecJson>)
    requires
        forall|i: int| 0 <= i < s.len() ==> no_index_objects(#[trigger] s[i]),
    ensures
        no_index_items(s),
    decreases s.len(),
{
    if s.len() > 0 {
        assert forall|i: int| 0 <= i < s.drop_last().len() implies no_index_objects(#[trigger] s.drop_last()[i]) by {
            assert(s.drop_last()[i] == s[i]);
        }
        lemma_no_index_items_all(s.drop_last());
    }
}

proof fn lemma_insert_sorted_members(s: Seq<(nat, SpecJson)>, x: (nat, SpecJson))
    ensures
        insert_sorted(s, x).len() == s.len() + 1,
        forall|k: int| 0 <= k < insert_sorted(s, x).len() ==>
            #[trigger] insert_sorted(s, x)[k] == x || s.contains(insert_sorted(s, x)[k]),
    decreases s.len(),
{
    if s.len() > 0 {
        lemma_insert_sorted_members(s.drop_last(), x);
        let r = insert_sorted(s, x);
        assert forall|k: int| 0 <= k < r.len() implies #[trigger] r[k] == x || s.contains(r[k]) by {
            if s.last().0 <= x.0 {
                if k < s.len() {
                    assert(r[k] == s[k]);
                }
            } else {
                let q = insert_sorted(s.drop_last(), x);
                if k < q.len() {
                    assert(r[k] == q[k]);
                    if s.drop_last().contains(q[k]) {
                        let j = choose|j: int| 0 <= j < s.drop_last().len() && s.drop_last()[j] == q[k];
                        assert(s[j] == q[k]);
                    }
                } else {
                    assert(r[k] == s[s.len() - 1]);
                }
            }
        }
    }
}

proof fn lemma_sort_members(s: Seq<(nat, SpecJson)>)
    ensures
        sort_by_index(s).len() == s.len(),
        forall|k: int| 0 <= k < sort_by_index(s).len() ==> s.contains(#[trigger] sort_by_index(s)[k]),
    decreases s.len(),
{
    if s.len() > 0 {
        lemma_sort_members(s.drop_last());
        let p = sort_by_index(s.drop_last());
        lemma_insert_sorted_members(p, s.last());
        assert forall|k: int| 0 <= k < sort_by_index(s).len() implies s.contains(#[trigger] sort_by_index(s)[k]) by {
            let e = sort_by_index(s)[k];
            if e == s.last() {
                assert(s[s.len() - 1] == e);
            } else {
                assert(p.contains(e));
                let j = choose|j: int| 0 <= j < p.len() && p[j] == e;
                assert(s.drop_last().contains(p[j]));
                let jj = choose|jj: int| 0 <= jj < s.drop_last().len() && s.drop_last()[jj] == e;
                assert(s[jj] == e);
            }
        }
    }
}

/// Converting a tree without lists (as the field tree is before conversion) leaves no
/// object whose keys are all indices at any depth: each such object has become a list, in
/// objects and lists alike, however deep.
pub proof fn lemma_arrays_leave_no_index_objects(v: SpecJson)
    requires
        has_no_lists(v),
    ensures
        no_index_objects(arrays_from(v)),
    decreases v, 2int,
{
    match v {
        SpecJson::Object(m) => {
            if m.len() > 0 && all_indices(m) {
                lemma_indexed_converted(m);
                let s = sort_by_index(indexed(m));
                lemma_sort_members(indexed(m));
                let items = s.map_values(|e: (nat, SpecJson)| e.1);
                assert forall|i: int| 0 <= i < items.len() implies no_index_objects(#[trigger] items[i]) by {
                    assert(indexed(m).contains(s[i]));
                    let j = choose|j: int| 0 <= j < indexed(m).len() && indexed(m)[j] == s[i];
                    assert(no_index_objects(indexed(m)[j].1));
                }
                lemma_no_index_items_all(items);
            } else {
                lemma_arrays_entries_converted(m);
                let r = arrays_entries(m);
                if r.len() > 0 && forall|i: int| 0 <= i < r.len() ==> #[trigger] parse_index(r[i].0) is Some {
                    assert forall|i: int| 0 <= i < m.len() implies #[trigger] parse_index(m[i].0) is Some by {
                        assert(r[i].0 == m[i].0);
                        assert(parse_index(r[i].0) is Some);
                    }
                    assert(all_indices(m));
                }
            }
        },
        _ => {},
    }
}

/// The converted entries keep their keys, and no value holds an all-index object.
proof fn lemma_arrays_entries_converted(m: Seq<(Seq<char>, SpecJson)>)
    requires
        entries_have_no_lists(m),
    ensures
        arrays_entries(m).len() == m.len(),
        forall|i: int| 0 <= i < m.len() ==> (#[trigger] arrays_entries(m)[i]).0 == m[i].0,
        no_index_entries(arrays_entries(m)),
    decreases m, 1int,
{
    if m.len() > 0 {
        lemma_arrays_entries_converted(m.drop_last());
        lemma_arrays_leave_no_index_objects(m.last().1);
        let r = arrays_entries(m);
        assert(r.drop_last() == arrays_entries(m.drop_last()));
        assert forall|i: int| 0 <= i < m.len() implies (#[trigger] arrays_entries(m)[i]).0 == m[i].0 by {
            if i < m.len() - 1 {
                assert(r[i] == arrays_entries(m.drop_last())[i]);
                assert(m[i] == m.drop_last()[i]);
            }
        }
    }
}

/// Every converted value among the indexed ones holds no all-index object.
proof fn lemma_indexed_converted(m: Seq<(Seq<char>, SpecJson)>)
    requires
        entries_have_no_lists(m),
    ensures
        indexed(m).len() == m.len(),
        forall|i: int| 0 <= i < indexed(m).len() ==> no_index_objects(#[trigger] indexed(m)[i].1),
    decreases m, 1int,
{
    if m.len() > 0 {
        lemma_indexed_converted(m.drop_last());
        lemma_arrays_leave_no_index_objects(m.last().1);
        let r = indexed(m);
        assert forall|i: int| 0 <= i < r.len() implies no_index_objects(#[trigger] r[i].1) by {
            if i < m.len() - 1 {
                assert(r[i] == indexed(m.drop_last())[i]);
            }
        }
    }
}

proof fn lemma_no_lists_all(m: Seq<(Seq<char>, SpecJson)>)
    ensures
        entries_have_no_lists(m) == forall|i: int| 0 <= i < m.len() ==> has_no_lists(#[trigger] m[i].1),
    decreases m.len(),
{
    if m.len() > 0 {
        lemma_no_lists_all(m.drop_last());
        if forall|i: int| 0 <= i < m.len() ==> has_no_lists(#[trigger] m[i].1) {
            assert forall|i: int| 0 <= i < m.drop_last().len() implies has_no_lists(#[trigger] m.drop_last()[i].1) by {
                assert(m.drop_last()[i] == m[i]);
            }
            assert(has_no_lists(m[m.len() - 1].1));
        }
        if entries_have_no_lists(m) {
            assert forall|i: int| 0 <= i < m.len() implies has_no_lists(#[trigger] m[i].1) by {
                if i < m.len() - 1 {
                    assert(m.drop_last()[i] == m[i]);
                }
            }
        }
    }
}

proof fn lemma_mget_no_lists(m: Seq<(Seq<char>, SpecJson)>, k: Seq<char>)
    requires
        forall|i: int| 0 <= i < m.len() ==> has_no_lists(#[trigger] m[i].1),
    ensures
        mget(m, k) matches Some(x) ==> has_no_lists(x),
    decreases m.len(),
{
    if m.len() > 0 && m[0].0 != k {
        assert forall|i: int| 0 <= i < m.drop_first().len() implies has_no_lists(#[trigger] m.drop_first()[i].1) by {
            assert(m.drop_first()[i] == m[i + 1]);
        }
        lemma_mget_no_lists(m.drop_first(), k);
    }
}

proof fn lemma_mput_no_lists(m: Seq<(Seq<char>, SpecJson)>, k: Seq<char>, v: SpecJson)
    requires
        forall|i: int| 0 <= i < m.len() ==> has_no_lists(#[trigger] m[i].1),
        has_no_lists(v),
    ensures
        forall|i: int| 0 <= i < mput(m, k, v).len() ==> has_no_lists(#[trigger] mput(m, k, v)[i].1),
    decreases m.len(),
{
    if m.len() > 0 && m[0].0 != k {
        assert forall|i: int| 0 <= i < m.drop_first().len() implies has_no_lists(#[trigger] m.drop_first()[i].1) by {
            assert(m.drop_first()[i] == m[i + 1]);
        }
        lemma_mput_no_lists(m.drop_first(), k, v);
        let r = mput(m, k, v);
        let t = mput(m.drop_first(), k, v);
        assert forall|i: int| 0 <= i < r.len() implies has_no_lists(#[trigger] r[i].1) by {
            if i > 0 {
                assert(r[i] == t[i - 1]);
            } else {
                assert(r[0] == m[0]);
            }
        }
    }
}

proof fn lemma_ins_path_no_lists(m: Seq<(Seq<char>, SpecJson)>, path: Seq<Seq<char>>, v: SpecJson)
    requires
        forall|i: int| 0 <= i < m.len() ==> has_no_lists(#[trigger] m[i].1),
        has_no_lists(v),
    ensures
        forall|i: int| 0 <= i < ins_path(m, path, v).len() ==> has_no_lists(#[trigger] ins_path(m, path, v)[i].1),
    decreases path.len(),
{
    if path.len() > 0 {
        let key = if path[0].len() == 0 { next_key(m) } else { path[0] };
        if path.len() == 1 {
            lemma_mput_no_lists(m, key, v);
        } else {
            lemma_mget_no_lists(m, key);
            let child = match mget(m, key) {
                Some(SpecJson::Object(c)) => c,
                _ => Seq::empty(),
            };
            lemma_no_lists_all(child);
            lemma_ins_path_no_lists(child, path.drop_first(), v);
            let inner = ins_path(child, path.drop_first(), v);
            lemma_no_lists_all(inner);
            lemma_mput_no_lists(m, key, SpecJson::Object(inner));
        }
    }
}

proof fn lemma_build_tree_no_lists(fields: Seq<(String, FieldValue)>)
    ensures
        build_tree(fields) matches Ok(m) ==> forall|i: int| 0 <= i < m.len() ==> has_no_lists(#[trigger] m[i].1),
    decreases fields.len(),
{
    if fields.len() > 0 {
        lemma_build_tree_no_lists(fields.drop_last());
        match build_tree(fields.drop_last()) {
            Ok(m) => {
                let fv = field_json(fields.last().1);
                match fields.last().1 {
                    FieldValue::File(n) => {
                        let e = seq![(file_marker(), SpecJson::Number(decimal(n as nat)))];
                        assert(e.drop_last() =~= Seq::<(Seq<char>, SpecJson)>::empty());
                        assert(entries_have_no_lists(e.drop_last()));
                        assert(has_no_lists(e.last().1));
                        assert(entries_have_no_lists(e));
                        assert(has_no_lists(fv));
                    },
                    _ => {},
                }
                lemma_ins_path_no_lists(m, spec_split_brackets(fields.last().0@), fv);
            },
            Err(_) => {},
        }
    }
}

/// The field tree holds no object whose keys are all array indices, at any depth: indexed
/// and appended fields (`tags[0]`, `tags[]`) come out as lists wherever they are nested.
pub proof fn lemma_field_tree_has_lists_for_indices(fields: Seq<(String, FieldValue)>)
    ensures
        spec_fields_to_tree(fields) matches Ok(v) ==> no_index_objects(v),
{
    lemma_build_tree_no_lists(fields);
    match build_tree(fields) {
        Ok(m) => {
            lemma_no_lists_all(m);
            lemma_arrays_leave_no_index_objects(SpecJson::Object(m));
        },
        Err(_) => {},
    }
}

/// The items sorted by index, keeping the order of equal indices.
pub open spec fn sort_by_index(s: Seq<(nat, SpecJson)>) -> Seq<(nat, SpecJson)>
    decreases s.len(),
{
    if s.len() == 0 { Seq::empty() } else { insert_sorted(sort_by_index(s.drop_last()), s.last()) }
}

/// Objects whose keys are all indices (`{"0": a, "1": b}`) become arrays, in index order;
/// recursively.
pub open spec fn arrays_from(v: SpecJson) -> SpecJson
    decreases v,
{
    match v {
        SpecJson::Object(m) => if m.len() > 0 && all_indices(m) {
            SpecJson::Array(sort_by_index(indexed(m)).map_values(|e: (nat, SpecJson)| e.1))
        } else {
            SpecJson::Object(arrays_entries(m))
        },
        _ => v,
    }
}

/// Each entry's index and converted value.
pub open spec fn indexed(m: Seq<(Seq<char>, SpecJson)>) -> Seq<(nat, SpecJson)>
    decreases m,
{
    if m.len() == 0 {
        Seq::empty()
    } else {
        indexed(m.drop_last()).push((match parse_index(m.last().0) { Some(x) => x, None => 0 }, arrays_from(m.last().1)))
    }
}

/// Each entry with its value converted.
pub open spec fn arrays_entries(m: Seq<(Seq<char>, SpecJson)>) -> Seq<(Seq<char>, SpecJson)>
    decreases m,
{
    if m.len() == 0 {
        Seq::empty()
    } else {
        arrays_entries(m.drop_last()).push((m.last().0, arrays_from(m.last().1)))
    }
}

/// The model of indexed values.
pub open spec fn items_model(s: Seq<(usize, JsonValue)>) -> Seq<(nat, SpecJson)> {
    s.map_values(|e: (usize, JsonValue)| (e.0 as nat, e.1.model()))
}

fn insert_sorted_exec(s: &mut Vec<(usize, JsonValue)>, x: (usize, JsonValue))
    ensures
        items_model(final(s)@) == insert_sorted(items_model(old(s)@), (x.0 as nat, x.1.model())),
{
    let ghost sm = items_model(s@);
    let ghost xm = (x.0 as nat, x.1.model());
    let mut j: usize = s.len();
    assert(sm.subrange(0, j as int) == sm);
    assert(sm.subrange(j as int, sm.len() as int) =~= Seq::<(nat, SpecJson)>::empty());
    while j > 0 && s[j - 1].0 > x.0
        invariant
            s@ == old(s)@,
            xm == (x.0 as nat, x.1.model()),
            sm == items_model(s@),
            j <= s@.len(),
            insert_sorted(sm, xm) == insert_sorted(sm.subrange(0, j as int), xm) + sm.subrange(j as int, sm.len() as int),
        decreases j,
    {
        let ghost pre = sm.subrange(0, j as int);
        assert(sm[j - 1] == (s@[j - 1].0 as nat, s@[j - 1].1.model()));
        assert(pre.last() == sm[j - 1]);
        assert(pre.len() > 0);
        assert(sm[j - 1].0 > xm.0);
        assert(!(pre.last().0 <= xm.0));
        assert(pre.drop_last() == sm.subrange(0, j - 1));
        assert(insert_sorted(pre, xm) == insert_sorted(sm.subrange(0, j - 1), xm).push(sm[j - 1]));
        assert(sm.subrange(j - 1, sm.len() as int) =~= seq![sm[j - 1]] + sm.subrange(j as int, sm.len() as int));
        assert(insert_sorted(sm.subrange(0, j - 1), xm).push(sm[j - 1]) + sm.subrange(j as int, sm.len() as int)
            =~= insert_sorted(sm.subrange(0, j - 1), xm) + sm.subrange(j - 1, sm.len() as int));
        j = j - 1;
    }
    let ghost pre = sm.subrange(0, j as int);
    if j > 0 {
        assert(sm[j - 1] == (s@[j - 1].0 as nat, s@[j - 1].1.model()));
    }
    assert(insert_sorted(pre, xm) == pre.push(xm));
    s.insert(j, x);
    assert(items_model(s@) =~= pre.push(xm) + sm.subrange(j as int, sm.len() as int));
}

/// Exec form of [`arrays_from`].
#[verifier::loop_isolation(false)]
pub fn arrays_from_numeric_objects(v: JsonValue) -> (r: JsonValue)
    ensures
        r.model() == arrays_from(v.model()),
    decreases v,
{
    let ghost v0 = v;
    match v {
        JsonValue::Object(m) => {
            let ghost orig = m@;
            let ghost mm = model_entries(orig);
            proof {
                lemma_model_entries_index(orig);
            }
            let mut is_list = m.len() > 0;
            let mut i: usize = 0;
            while i < m.len() && is_list
                invariant
                    i <= m@.len(),
                    mm.len() == m@.len(),
                    is_list ==> m@.len() > 0,
                    is_list ==> forall|j: int| 0 <= j < i ==> #[trigger] parse_index(mm[j].0) is Some,
                    !is_list ==> !(mm.len() > 0 && all_indices(mm)),
                decreases m@.len() - i,
            {
                assert(mm[i as int].0 == m@[i as int].0@);
                if parse_index_exec(m[i].0.as_str()).is_none() {
                    is_list = false;
                }
                i = i + 1;
            }
            assert(is_list == (mm.len() > 0 && all_indices(mm)));
            let mut src = m;
            let ghost mut k: int = 0;
            assert(orig.subrange(0, 0) =~= Seq::<(String, JsonValue)>::empty());
            if is_list {
                let mut sorted: Vec<(usize, JsonValue)> = Vec::new();
                let ghost mut unsorted: Seq<(nat, SpecJson)> = Seq::empty();
                assert(items_model(sorted@) =~= Seq::<(nat, SpecJson)>::empty());
                while src.len() > 0
                    invariant
                        0 <= k <= orig.len(),
                        orig.len() == k + src@.len(),
                        src@ == orig.subrange(k, orig.len() as int),
                        mm == model_entries(orig),
                        all_indices(mm),
                        unsorted == indexed(model_entries(orig.subrange(0, k))),
                        items_model(sorted@) == sort_by_index(unsorted),
                    decreases src@.len(),
                {
                    let (key, child) = src.remove(0);
                    assert(orig[k] == (key, child));
                    proof {
                        lemma_model_entries_step(orig, k);
                        assert(mm[k] == (key@, child.model()));
                        assert(parse_index(mm[k].0) is Some);
                    }
                    let idx = match parse_index_exec(key.as_str()) {
                        Some(x) => x,
                        None => 0,
                    };
                    assert(decreases_to!(v0 => child)) by {
                        assert(decreases_to!(v0 => v0->Object_0));
                        assert(decreases_to!(v0->Object_0 => v0->Object_0@));
                        assert(decreases_to!(v0->Object_0@ => v0->Object_0@[k]));
                        assert(decreases_to!(v0->Object_0@[k] => v0->Object_0@[k].1));
                    }
                    let c = arrays_from_numeric_objects(child);
                    let ghost x = model_entries(orig.subrange(0, k));
                    assert(x.push((key@, child.model())).drop_last() == x);
                    insert_sorted_exec(&mut sorted, (idx, c));
                    proof {
                        unsorted = unsorted.push((idx as nat, c.model()));
                        assert(unsorted.drop_last() == indexed(x));
                        k = k + 1;
                    }
                }
                assert(orig.subrange(0, orig.len() as int) == orig);
                let mut items: Vec<JsonValue> = Vec::new();
                let mut t: usize = 0;
                let ghost sm = items_model(sorted@);
                assert(model_items(items@) =~= sm.subrange(0, 0).map_values(|e: (nat, SpecJson)| e.1));
                while t < sorted.len()
                    invariant
                        t <= sorted@.len(),
                        sm == items_model(sorted@),
                        model_items(items@) == sm.subrange(0, t as int).map_values(|e: (nat, SpecJson)| e.1),
                    decreases sorted@.len() - t,
                {
                    let c = sorted[t].1.deep_clone();
                    let ghost before = items@;
                    items.push(c);
                    assert(items@.drop_last() == before);
                    assert(sm.subrange(0, t + 1).map_values(|e: (nat, SpecJson)| e.1)
                        =~= sm.subrange(0, t as int).map_values(|e: (nat, SpecJson)| e.1).push(sm[t as int].1));
                    t = t + 1;
                }
                assert(sm.subrange(0, sm.len() as int) == sm);
                JsonValue::Array(items)
            } else {
                let mut out: Vec<(String, JsonValue)> = Vec::new();
                while src.len() > 0
                    invariant
                        0 <= k <= orig.len(),
                        orig.len() == k + src@.len(),
                        src@ == orig.subrange(k, orig.len() as int),
                        model_entries(out@) == arrays_entries(model_entries(orig.subrange(0, k))),
                    decreases src@.len(),
                {
                    let (key, child) = src.remove(0);
                    assert(orig[k] == (key, child));
                    proof {
                        lemma_model_entries_step(orig, k);
                    }
                    assert(decreases_to!(v0 => child)) by {
                        assert(decreases_to!(v0 => v0->Object_0));
                        assert(decreases_to!(v0->Object_0 => v0->Object_0@));
                        assert(decreases_to!(v0->Object_0@ => v0->Object_0@[k]));
                        assert(decreases_to!(v0->Object_0@[k] => v0->Object_0@[k].1));
                    }
                    let c = arrays_from_numeric_objects(child);
                    let ghost x = model_entries(orig.subrange(0, k));
                    assert(x.push((key@, child.model())).drop_last() == x);
                    push_entry(&mut out, key, c);
                    proof {
                        k = k + 1;
                    }
                }
                assert(orig.subrange(0, orig.len() as int) == orig);
                JsonValue::Object(out)
            }
        },
        other => other,
    }
}

/// The JSON a field value stands for: its text, or a file marker with the file's index.
pub open spec fn field_json(v: FieldValue) -> SpecJson {
    match v {
        FieldValue::Text(t) => SpecJson::Text(t@),
        FieldValue::File(i) => SpecJson::Object(seq![(file_marker(), SpecJson::Number(decimal(i as nat)))]),
    }
}

/// The field tree of the first fields, or the first error.
pub open spec fn build_tree(fields: Seq<(String, FieldValue)>) -> Result<Seq<(Seq<char>, SpecJson)>, FormError>
    decreases fields.len(),
{
    if fields.len() == 0 {
        Ok(Seq::empty())
    } else {
        match build_tree(fields.drop_last()) {
            Err(e) => Err(e),
            Ok(m) => {
                let path = spec_split_brackets(fields.last().0@);
                if path.len() > MAX_FIELD_DEPTH {
                    Err(FormError::TooDeep)
                } else if path.contains(file_marker()) {
                    Ok(m)
                } else {
                    Ok(ins_path(m, path, field_json(fields.last().1)))
                }
            },
        }
    }
}

/// `user[address][street]=x`, `tags[0]=a`, `tags[]=b` → nested objects and arrays. Field
/// names naming the file marker are ignored, so text cannot pass for a file.
pub open spec fn spec_fields_to_tree(fields: Seq<(String, FieldValue)>) -> Result<SpecJson, FormError> {
    match build_tree(fields) {
        Ok(m) => Ok(arrays_from(SpecJson::Object(m))),
        Err(e) => Err(e),
    }
}

fn field_value_json(v: FieldValue) -> (r: JsonValue)
    ensures
        r.model() == field_json(v),
{
    match v {
        FieldValue::Text(t) => JsonValue::Text(t),
        FieldValue::File(i) => {
            proof {
                reveal_strlit("$inertia_file");
            }
            let mut m: Vec<(String, JsonValue)> = Vec::new();
            assert(model_entries(m@) =~= Seq::<(Seq<char>, SpecJson)>::empty());
            push_entry(&mut m, "$inertia_file".to_owned(), JsonValue::Number(to_decimal(i as u64)));
            assert(model_entries(m@) =~= seq![(file_marker(), SpecJson::Number(decimal(i as nat)))]);
            JsonValue::Object(m)
        },
    }
}

/// Exec form of [`spec_fields_to_tree`].
pub fn fields_to_tree(fields: Vec<(String, FieldValue)>) -> (r: Result<JsonValue, FormError>)
    ensures
        match spec_fields_to_tree(fields@) {
            Ok(v) => r matches Ok(x) && x.model() == v,
            Err(e) => r == Err::<JsonValue, FormError>(e),
        },
{
    let ghost orig = fields@;
    let mut src = fields;
    let mut root: Vec<(String, JsonValue)> = Vec::new();
    let ghost mut i: int = 0;
    assert(orig.subrange(0, 0) =~= Seq::<(String, FieldValue)>::empty());
    assert(model_entries(root@) =~= Seq::<(Seq<char>, SpecJson)>::empty());
    proof {
        reveal_strlit("$inertia_file");
    }
    while src.len() > 0
        invariant
            0 <= i <= orig.len(),
            orig.len() == i + src@.len(),
            src@ == orig.subrange(i, orig.len() as int),
            orig == fields@,
            build_tree(orig.subrange(0, i)) == Ok::<Seq<(Seq<char>, SpecJson)>, FormError>(model_entries(root@)),
        decreases src@.len(),
    {
        let (name, value) = src.remove(0);
        assert(orig[i] == (name, value));
        assert(orig.subrange(0, i + 1).drop_last() == orig.subrange(0, i));
        let path = split_brackets(name.as_str());
        assert(strs(path@).len() == path@.len());
        assert(orig.subrange(0, i + 1).last() == (name, value));
        if path.len() > MAX_FIELD_DEPTH {
            proof {
                assert(build_tree(orig.subrange(0, i + 1)) == Err::<Seq<(Seq<char>, SpecJson)>, FormError>(FormError::TooDeep));
                lemma_tree_prefix_err(orig, i + 1);
            }
            return Err(FormError::TooDeep);
        }
        let mut marked = false;
        let mut j: usize = 0;
        while j < path.len() && !marked
            invariant
                j <= path@.len(),
                marked == exists|k: int| 0 <= k < j && #[trigger] strs(path@)[k] == file_marker(),
            decreases path@.len() - j,
        {
            if crate::json::str_eq(path[j].as_str(), "$inertia_file") {
                assert(strs(path@)[j as int] == file_marker());
                marked = true;
            }
            j = j + 1;
        }
        assert(marked == strs(path@).contains(file_marker()));
        if !marked {
            let v = field_value_json(value);
            let r0 = root;
            root = insert_path(r0, &path, 0, v);
            assert(strs(path@).skip(0) == strs(path@));
        }
        proof {
            i = i + 1;
        }
    }
    assert(orig.subrange(0, orig.len() as int) == orig);
    Ok(arrays_from_numeric_objects(JsonValue::Object(root)))
}

proof fn lemma_tree_prefix_err(f: Seq<(String, FieldValue)>, j: int)
    requires
        0 <= j <= f.len(),
        build_tree(f.subrange(0, j)) is Err,
    ensures
        build_tree(f) == build_tree(f.subrange(0, j)),
    decreases f.len(),
{
    if j == f.len() {
        assert(f.subrange(0, j) == f);
    } else {
        assert(f.drop_last().subrange(0, j) == f.subrange(0, j));
        lemma_tree_prefix_err(f.drop_last(), j);
    }
}

/// The `(name, value)` pairs `form_urlencoded::parse` reads from a body.
pub uninterp spec fn urlencoded_pairs(body: Seq<u8>) -> Seq<(Seq<char>, Seq<char>)>;

/// The views of string pairs.
pub open spec fn pairs_view(s: Seq<(String, String)>) -> Seq<(Seq<char>, Seq<char>)> {
    s.map_values(|p: (String, String)| (p.0@, p.1@))
}

/// The first `limit` pairs of `form_urlencoded::parse(body)` (owned): the contract names
/// them after the body and claims only that they are a prefix of that sequence, all of it
/// when there are fewer than `limit`.
#[verifier::external_body]
fn parse_urlencoded(body: &[u8], limit: usize) -> (r: Vec<(String, String)>)
    ensures
        r@.len() <= limit,
        r@.len() <= urlencoded_pairs(body@).len(),
        pairs_view(r@) == urlencoded_pairs(body@).subrange(0, r@.len() as int),
        r@.len() < limit ==> r@.len() == urlencoded_pairs(body@).len(),
{
    form_urlencoded::parse(body).into_owned().take(limit).collect()
}

/// Text fields from pairs.
pub open spec fn text_fields(p: Seq<(Seq<char>, Seq<char>)>, f: Seq<(String, FieldValue)>) -> bool {
    p.len() == f.len() && forall|i: int| 0 <= i < p.len() ==> #[trigger] f[i].0@ == p[i].0
        && (f[i].1 matches FieldValue::Text(t) && t@ == p[i].1)
}

/// The field tree of an `application/x-www-form-urlencoded` body: too many fields are
/// refused before any is used.
pub fn from_urlencoded(body: &[u8]) -> (r: Result<JsonValue, FormError>)
    ensures
        ({
            let pairs = urlencoded_pairs(body@);
            if pairs.len() > MAX_FIELDS {
                r == Err::<JsonValue, FormError>(FormError::TooManyFields)
            } else {
                exists|f: Seq<(String, FieldValue)>| text_fields(pairs, f) && match spec_fields_to_tree(f) {
                    Ok(v) => r matches Ok(x) && x.model() == v,
                    Err(e) => r == Err::<JsonValue, FormError>(e),
                }
            }
        }),
{
    let pairs = parse_urlencoded(body, MAX_FIELDS + 1);
    if pairs.len() > MAX_FIELDS {
        return Err(FormError::TooManyFields);
    }
    let ghost pv = pairs_view(pairs@);
    let mut fields: Vec<(String, FieldValue)> = Vec::new();
    let mut src = pairs;
    let ghost orig = src@;
    let ghost mut i: int = 0;
    while src.len() > 0
        invariant
            0 <= i <= orig.len(),
            orig.len() == i + src@.len(),
            src@ == orig.subrange(i, orig.len() as int),
            pv == pairs_view(orig),
            text_fields(pv.subrange(0, i), fields@),
        decreases src@.len(),
    {
        let (n, v) = src.remove(0);
        assert(orig[i] == (n, v));
        assert(pv[i] == (n@, v@));
        fields.push((n, FieldValue::Text(v)));
        proof {
            i = i + 1;
        }
    }
    assert(pv.subrange(0, pv.len() as int) == pv);
    let ghost f = fields@;
    let r = fields_to_tree(fields);
    assert(text_fields(urlencoded_pairs(body@), f));
    r
}

/// Whether one more multipart field may be read after `count`.
pub fn accepts_field(count: usize) -> (r: bool)
    ensures
        r == (count < MAX_FIELDS),
{
    count < MAX_FIELDS
}

/// What a submitted form is answered, given its validation errors (`None` when valid).
#[derive(Debug)]
pub enum FormOutcome {
    /// A Precognition request: answered without running the action.
    Precognition(PrecognitionAnswer),
    /// Redirect back with the errors.
    Invalid(InertiaRedirect),
    /// Hand the data to the handler.
    Valid,
}

/// On a Precognition request the validation result is answered at once (`204` or `422`)
/// and the action never runs; otherwise invalid data redirects back with its errors (under
/// the request's error bag, if any) and valid data goes to the handler.
pub fn form_outcome(inertia: &Inertia, errors: Option<Vec<(String, JsonValue)>>) -> (r: FormOutcome)
    ensures
        inertia.precognition is Some ==> (r matches FormOutcome::Precognition(a)
            && crate::inertia::precognition_answer(inertia.precognition,
                match errors { Some(e) => e@, None => Seq::empty() }, a)),
        inertia.precognition is None ==> match errors {
            Some(e) => r matches FormOutcome::Invalid(red) && {
                &&& red.location@ == match inertia.back_location { Some(l) => l@, None => seq!['/'] }
                &&& red.error_bag == inertia.error_bag
                &&& red.error is None
                &&& match inertia.error_bag {
                    Some(bag) if e@.len() > 0 => red.data.errors@.len() == 1 && red.data.errors@[0].0 == bag
                        && red.data.errors@[0].1.model() == SpecJson::Object(model_entries(e@)),
                    _ => red.data.errors@ == e@,
                }
            },
            None => r is Valid,
        },
{
    if inertia.is_precognitive() {
        let e = match errors {
            Some(e) => e,
            None => Vec::new(),
        };
        return FormOutcome::Precognition(inertia.precognition_response(Ok(JsonValue::Object(e))));
    }
    match errors {
        Some(e) => {
            let red = inertia.back().with_errors(Ok(JsonValue::Object(e)));
            assert(red.data.errors@.len() == 1 ==> red.data.errors@[0] == red.data.errors@.last());
            assert(Seq::<(String, JsonValue)>::empty() + e@ == e@);
            FormOutcome::Invalid(red)
        },
        None => FormOutcome::Valid,
    }
}

/// The error of one field as the validator reports it: its code and message, if any.
#[derive(Debug, Clone)]
pub struct FieldError {
    pub code: String,
    pub message: Option<String>,
}

/// The message of a field error: its own, or `The {field} field is invalid ({code}).`
pub open spec fn error_message(field: Seq<char>, e: FieldError) -> Seq<char> {
    match e.message {
        Some(m) => m@,
        None => "The "@ + field + " field is invalid ("@ + e.code@ + ")."@,
    }
}

/// The first message of each field that has errors.
pub open spec fn first_errors(fields: Seq<(String, Vec<FieldError>)>) -> Seq<(Seq<char>, Seq<char>)>
    decreases fields.len(),
{
    if fields.len() == 0 {
        Seq::empty()
    } else {
        let before = first_errors(fields.drop_last());
        let (f, errs) = fields.last();
        if errs@.len() > 0 { before.push((f@, error_message(f@, errs@[0]))) } else { before }
    }
}

/// Validation errors as the `errors` prop expects them: the first message per field.
pub fn validation_errors(fields: &Vec<(String, Vec<FieldError>)>) -> (r: Vec<(String, JsonValue)>)
    ensures
        model_entries(r@) == first_errors(fields@).map_values(|p: (Seq<char>, Seq<char>)| (p.0, SpecJson::Text(p.1))),
{
    let mut out: Vec<(String, JsonValue)> = Vec::new();
    let mut i: usize = 0;
    assert(model_entries(out@) =~= first_errors(fields@.subrange(0, 0)).map_values(|p: (Seq<char>, Seq<char>)| (p.0, SpecJson::Text(p.1))));
    while i < fields.len()
        invariant
            i <= fields@.len(),
            model_entries(out@) == first_errors(fields@.subrange(0, i as int)).map_values(|p: (Seq<char>, Seq<char>)| (p.0, SpecJson::Text(p.1))),
        decreases fields@.len() - i,
    {
        assert(fields@.subrange(0, i + 1).drop_last() == fields@.subrange(0, i as int));
        let field = &fields[i].0;
        let errs = &fields[i].1;
        if errs.len() > 0 {
            let e = &errs[0];
            let msg = match &e.message {
                Some(m) => m.clone(),
                None => {
                    let mut s = "The ".to_owned();
                    s.append(field.as_str());
                    s.append(" field is invalid (");
                    s.append(e.code.as_str());
                    s.append(").");
                    s
                },
            };
            assert(msg@ == error_message(field@, errs@[0]));
            let ghost before = first_errors(fields@.subrange(0, i as int));
            push_entry(&mut out, field.clone(), JsonValue::Text(msg));
            assert(first_errors(fields@.subrange(0, i + 1)) == before.push((field@, msg@)));
            assert(before.push((field@, msg@)).map_values(|p: (Seq<char>, Seq<char>)| (p.0, SpecJson::Text(p.1)))
                =~= before.map_values(|p: (Seq<char>, Seq<char>)| (p.0, SpecJson::Text(p.1))).push((field@, SpecJson::Text(msg@))));
        }
        i = i + 1;
    }
    assert(fields@.subrange(0, fields@.len() as int) == fields@);
    out
}

} // verus!
