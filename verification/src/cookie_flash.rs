//! Fitting flash data into one cookie. Browsers drop cookies over about 4 KB without telling
//! anyone, which would lose the errors silently; so the data is shrunk step by step until
//! the encrypted cookie fits: first message per field, shorter messages, no flash data, then
//! only the error fields that fit plus a notice that there were more.
//!
//! Encrypting and measuring happen outside: [`FlashFitter`] says what to measure next and,
//! given each measured `Set-Cookie` length, whether to send the cookie just measured.

use vstd::prelude::*;
use crate::flash::{clone_entries, FlashData};
use crate::json::{entries_have_no_lists, has_no_lists, lemma_model_entries_index, lemma_model_entries_step, model_entries, push_entry, JsonValue, SpecJson};
use crate::narrow::drop_key;
use crate::text::{from_char_range, push_char, to_chars};

verus! {

/// Largest `Set-Cookie` header emitted, in bytes.
pub const MAX_FLASH_COOKIE_BYTES: usize = 4000;

/// Messages are cut to this many characters when the data does not fit.
pub const TRUNCATED_MESSAGE_CHARS: usize = 200;

/// The key of the notice that replaces the errors that do not fit.
pub open spec fn overflow_key() -> Seq<char> {
    "_overflow"@
}

/// The notice that replaces the errors that do not fit.
pub open spec fn overflow_message() -> Seq<char> {
    "There are more errors than can be shown."@
}

/// `{"field": ["a", "b"]}` → `{"field": "a"}`: lists become their first item (`null` when
/// empty), recursively; objects (error bags) are handled value by value.
pub open spec fn first_msg(v: SpecJson) -> SpecJson
    decreases v,
{
    match v {
        SpecJson::Array(items) => if items.len() == 0 { SpecJson::Null } else { first_msg(items[0]) },
        SpecJson::Object(m) => SpecJson::Object(first_msg_entries(m)),
        _ => v,
    }
}

/// [`first_msg`] on each value of an object.
pub open spec fn first_msg_entries(m: Seq<(Seq<char>, SpecJson)>) -> Seq<(Seq<char>, SpecJson)>
    decreases m,
{
    if m.len() == 0 {
        Seq::empty()
    } else {
        first_msg_entries(m.drop_last()).push((m.last().0, first_msg(m.last().1)))
    }
}

/// Strings longer than the limit cut to it, with `…` appended; recursively in lists and objects.
pub open spec fn trunc(v: SpecJson) -> SpecJson
    decreases v,
{
    match v {
        SpecJson::Text(s) => if s.len() > TRUNCATED_MESSAGE_CHARS {
            SpecJson::Text(s.subrange(0, TRUNCATED_MESSAGE_CHARS as int).push('\u{2026}'))
        } else {
            v
        },
        SpecJson::Array(items) => SpecJson::Array(trunc_items(items)),
        SpecJson::Object(m) => SpecJson::Object(trunc_entries(m)),
        _ => v,
    }
}

/// [`trunc`] on each item of a list.
pub open spec fn trunc_items(items: Seq<SpecJson>) -> Seq<SpecJson>
    decreases items,
{
    if items.len() == 0 {
        Seq::empty()
    } else {
        trunc_items(items.drop_last()).push(trunc(items.last()))
    }
}

/// [`trunc`] on each value of an object.
pub open spec fn trunc_entries(m: Seq<(Seq<char>, SpecJson)>) -> Seq<(Seq<char>, SpecJson)>
    decreases m,
{
    if m.len() == 0 {
        Seq::empty()
    } else {
        trunc_entries(m.drop_last()).push((m.last().0, trunc(m.last().1)))
    }
}

/// The mathematical flash data: errors, flash entries, clear-history flag.
pub open spec fn data_model(d: FlashData) -> (Seq<(Seq<char>, SpecJson)>, Seq<(Seq<char>, SpecJson)>, bool) {
    (model_entries(d.errors@), model_entries(d.flash@), d.clear_history)
}

/// Where the fitting stands.
#[derive(Clone, Copy, PartialEq, Eq, Structural, Debug)]
pub enum FitStage {
    /// The data as given was measured.
    Original,
    /// The data with the first message per field was measured.
    FirstMessages,
    /// The data with shortened messages was measured.
    Truncated,
    /// The data without flash entries was measured.
    NoFlash,
    /// The errors with one more field (`trying`) were measured.
    Adding,
    /// The data that is to be sent was measured.
    Final,
    /// A cookie was accepted, or fitting gave up.
    Done,
}

/// What to do next.
#[derive(Debug, PartialEq, Eq)]
pub enum FitAction {
    /// Encrypt this data and report the length of its `Set-Cookie` header.
    Measure(FlashData),
    /// Send the cookie measured last.
    Accept,
    /// Send no cookie.
    GiveUp,
}

/// The shrinking of flash data until its cookie fits.
pub struct FlashFitter {
    pub data: FlashData,
    pub stage: FitStage,
    /// While adding fields: those not tried yet, in key order.
    pub remaining: Vec<(String, JsonValue)>,
    /// The fields kept so far, in order.
    pub kept: Vec<String>,
    /// The field being tried.
    pub trying: String,
}

fn first_message(v: JsonValue) -> (r: JsonValue)
    ensures
        r.model() == first_msg(v.model()),
    decreases v,
{
    let ghost v0 = v;
    match v {
        JsonValue::Array(items) => {
            if items.len() == 0 {
                JsonValue::Null
            } else {
                let ghost s = items@;
                let mut items = items;
                let first = items.remove(0);
                assert(crate::json::model_items(s).len() == s.len()) by {
                    lemma_model_items_len(s);
                }
                proof {
                    lemma_model_items_first(s);
                }
                assert(decreases_to!(v0 => first)) by {
                    assert(decreases_to!(v0 => v0->Array_0));
                    assert(decreases_to!(v0->Array_0 => v0->Array_0@));
                    assert(decreases_to!(v0->Array_0@ => v0->Array_0@[0]));
                }
                first_message(first)
            }
        },
        JsonValue::Object(m) => JsonValue::Object(first_messages_of(m)),
        other => other,
    }
}

proof fn lemma_model_items_len(s: Seq<JsonValue>)
    ensures
        crate::json::model_items(s).len() == s.len(),
    decreases s.len(),
{
    if s.len() > 0 {
        lemma_model_items_len(s.drop_last());
    }
}

proof fn lemma_model_items_first(s: Seq<JsonValue>)
    requires
        s.len() > 0,
    ensures
        crate::json::model_items(s)[0] == s[0].model(),
    decreases s.len(),
{
    lemma_model_items_len(s);
    if s.len() > 1 {
        lemma_model_items_first(s.drop_last());
        lemma_model_items_len(s.drop_last());
    }
}

/// [`first_message`] on each value of an object.
#[verifier::loop_isolation(false)]
fn first_messages_of(m: Vec<(String, JsonValue)>) -> (r: Vec<(String, JsonValue)>)
    ensures
        model_entries(r@) == first_msg_entries(model_entries(m@)),
    decreases m,
{
    let ghost orig = m@;
    let ghost m0 = m;
    let mut src = m;
    let mut out: Vec<(String, JsonValue)> = Vec::new();
    let ghost mut i: int = 0;
    assert(orig.subrange(0, 0) =~= Seq::<(String, JsonValue)>::empty());
    while src.len() > 0
        invariant
            0 <= i <= orig.len(),
            orig.len() == i + src@.len(),
            src@ == orig.subrange(i, orig.len() as int),
            model_entries(out@) == first_msg_entries(model_entries(orig.subrange(0, i))),
        decreases src@.len(),
    {
        let (k, v) = src.remove(0);
        assert(orig[i] == (k, v));
        proof {
            lemma_model_entries_step(orig, i);
        }
        assert(decreases_to!(m0 => v)) by {
            assert(decreases_to!(m0 => m0@));
            assert(decreases_to!(m0@ => m0@[i]));
            assert(decreases_to!(m0@[i] => m0@[i].1));
        }
        let ghost x = model_entries(orig.subrange(0, i));
        let ghost e = (orig[i].0@, orig[i].1.model());
        assert(x.push(e).drop_last() == x);
        let f = first_message(v);
        push_entry(&mut out, k, f);
        proof {
            i = i + 1;
        }
    }
    assert(orig.subrange(0, orig.len() as int) == orig);
    out
}

fn truncate_text(s: String) -> (r: String)
    ensures
        r@ == if s@.len() > TRUNCATED_MESSAGE_CHARS { s@.subrange(0, TRUNCATED_MESSAGE_CHARS as int).push('\u{2026}') } else { s@ },
{
    let c = to_chars(s.as_str());
    if c.len() > TRUNCATED_MESSAGE_CHARS {
        let mut r = from_char_range(&c, 0, TRUNCATED_MESSAGE_CHARS);
        push_char(&mut r, '\u{2026}');
        r
    } else {
        s
    }
}

fn truncate(v: JsonValue) -> (r: JsonValue)
    ensures
        r.model() == trunc(v.model()),
    decreases v,
{
    let ghost v0 = v;
    match v {
        JsonValue::Text(s) => JsonValue::Text(truncate_text(s)),
        JsonValue::Array(items) => JsonValue::Array(truncate_items(items)),
        JsonValue::Object(m) => JsonValue::Object(truncate_entries(m)),
        other => other,
    }
}

#[verifier::loop_isolation(false)]
fn truncate_items(items: Vec<JsonValue>) -> (r: Vec<JsonValue>)
    ensures
        crate::json::model_items(r@) == trunc_items(crate::json::model_items(items@)),
    decreases items,
{
    let ghost orig = items@;
    let ghost m0 = items;
    let mut src = items;
    let mut out: Vec<JsonValue> = Vec::new();
    let ghost mut i: int = 0;
    assert(orig.subrange(0, 0) =~= Seq::<JsonValue>::empty());
    while src.len() > 0
        invariant
            0 <= i <= orig.len(),
            orig.len() == i + src@.len(),
            src@ == orig.subrange(i, orig.len() as int),
            crate::json::model_items(out@) == trunc_items(crate::json::model_items(orig.subrange(0, i))),
        decreases src@.len(),
    {
        let v = src.remove(0);
        assert(orig[i] == v);
        assert(orig.subrange(0, i + 1).drop_last() == orig.subrange(0, i));
        assert(decreases_to!(m0 => v)) by {
            assert(decreases_to!(m0 => m0@));
            assert(decreases_to!(m0@ => m0@[i]));
        }
        proof {
            crate::json::lemma_model_items_step(orig, i);
            let x = crate::json::model_items(orig.subrange(0, i));
            assert(x.push(orig[i].model()).drop_last() == x);
        }
        let t = truncate(v);
        let ghost before = out@;
        out.push(t);
        assert(out@.drop_last() == before);
        proof {
            i = i + 1;
        }
    }
    assert(orig.subrange(0, orig.len() as int) == orig);
    out
}

#[verifier::loop_isolation(false)]
fn truncate_entries(m: Vec<(String, JsonValue)>) -> (r: Vec<(String, JsonValue)>)
    ensures
        model_entries(r@) == trunc_entries(model_entries(m@)),
    decreases m,
{
    let ghost orig = m@;
    let ghost m0 = m;
    let mut src = m;
    let mut out: Vec<(String, JsonValue)> = Vec::new();
    let ghost mut i: int = 0;
    assert(orig.subrange(0, 0) =~= Seq::<(String, JsonValue)>::empty());
    while src.len() > 0
        invariant
            0 <= i <= orig.len(),
            orig.len() == i + src@.len(),
            src@ == orig.subrange(i, orig.len() as int),
            model_entries(out@) == trunc_entries(model_entries(orig.subrange(0, i))),
        decreases src@.len(),
    {
        let (k, v) = src.remove(0);
        assert(orig[i] == (k, v));
        proof {
            lemma_model_entries_step(orig, i);
        }
        assert(decreases_to!(m0 => v)) by {
            assert(decreases_to!(m0 => m0@));
            assert(decreases_to!(m0@ => m0@[i]));
            assert(decreases_to!(m0@[i] => m0@[i].1));
        }
        let ghost x = model_entries(orig.subrange(0, i));
        let ghost e = (orig[i].0@, orig[i].1.model());
        assert(x.push(e).drop_last() == x);
        let t = truncate(v);
        push_entry(&mut out, k, t);
        proof {
            i = i + 1;
        }
    }
    assert(orig.subrange(0, orig.len() as int) == orig);
    out
}

/// Index of the last entry keyed `key`, if any.
pub open spec fn last_index<V>(s: Seq<(String, V)>, key: Seq<char>) -> Option<int>
    decreases s.len(),
{
    if s.len() == 0 {
        None
    } else if s.last().0@ == key {
        Some(s.len() - 1)
    } else {
        last_index(s.drop_last(), key)
    }
}

/// `s` with `k` set to `v`: the last entry keyed `k` replaced, or the pair appended.
pub open spec fn put_entry(s: Seq<(String, JsonValue)>, k: String, v: JsonValue) -> Seq<(String, JsonValue)> {
    match last_index(s, k@) {
        Some(i) => s.update(i, (k, v)),
        None => s.push((k, v)),
    }
}

/// `s` without the entries keyed `key`.
pub open spec fn del_entries(s: Seq<(String, JsonValue)>, key: Seq<char>) -> Seq<(String, JsonValue)>
    decreases s.len(),
{
    if s.len() == 0 {
        Seq::empty()
    } else if s.last().0@ == key {
        del_entries(s.drop_last(), key)
    } else {
        del_entries(s.drop_last(), key).push(s.last())
    }
}

/// The entries whose key does not occur again later: each key once, with its last value.
pub open spec fn unique_last(s: Seq<(String, JsonValue)>) -> Seq<(String, JsonValue)>
    decreases s.len(),
{
    if s.len() == 0 {
        Seq::empty()
    } else {
        let rest = s.drop_first();
        let tail = unique_last(rest);
        if exists|j: int| 0 <= j < rest.len() && #[trigger] rest[j].0@ == s[0].0@ { tail } else { seq![s[0]] + tail }
    }
}

/// The overflow notice entry.
pub open spec fn is_notice(e: (String, JsonValue)) -> bool {
    &&& e.0@ == overflow_key()
    &&& e.1 matches JsonValue::Text(m) && m@ == overflow_message()
}

fn put_entry_exec(s: &mut Vec<(String, JsonValue)>, k: String, v: JsonValue)
    ensures
        final(s)@ == put_entry(old(s)@, k, v),
{
    let mut i: usize = s.len();
    assert(s@.subrange(0, i as int) == s@);
    while i > 0
        invariant
            s@ == old(s)@,
            i <= s@.len(),
            last_index(s@, k@) == last_index(s@.subrange(0, i as int), k@),
        decreases i,
    {
        assert(s@.subrange(0, i as int).drop_last() == s@.subrange(0, i - 1));
        if crate::json::str_eq(s[i - 1].0.as_str(), k.as_str()) {
            assert(last_index(s@.subrange(0, i as int), k@) == Some(i - 1));
            s.set(i - 1, (k, v));
            return;
        }
        i = i - 1;
    }
    assert(last_index(s@.subrange(0, 0), k@) is None);
    s.push((k, v));
}

fn del_entries_exec(s: Vec<(String, JsonValue)>, key: &str) -> (r: Vec<(String, JsonValue)>)
    ensures
        r@ == del_entries(s@, key@),
{
    let ghost orig = s@;
    let mut src = s;
    let mut out: Vec<(String, JsonValue)> = Vec::new();
    let ghost mut i: int = 0;
    assert(orig.subrange(0, 0) =~= Seq::<(String, JsonValue)>::empty());
    while src.len() > 0
        invariant
            0 <= i <= orig.len(),
            orig.len() == i + src@.len(),
            src@ == orig.subrange(i, orig.len() as int),
            out@ == del_entries(orig.subrange(0, i), key@),
        decreases src@.len(),
    {
        let (k, v) = src.remove(0);
        assert(orig[i] == (k, v));
        assert(orig.subrange(0, i + 1).drop_last() == orig.subrange(0, i));
        if !crate::json::str_eq(k.as_str(), key) {
            out.push((k, v));
        }
        proof {
            i = i + 1;
        }
    }
    assert(orig.subrange(0, orig.len() as int) == orig);
    out
}

/// `a` comes no later than `b` in key order: character by character by code point, a prefix
/// first (the order of their UTF-8 bytes, as `String`'s `Ord` compares them).
pub open spec fn key_le(a: Seq<char>, b: Seq<char>) -> bool
    decreases a.len(),
{
    if a.len() == 0 {
        true
    } else if b.len() == 0 {
        false
    } else if a[0] != b[0] {
        (a[0] as u32) < (b[0] as u32)
    } else {
        key_le(a.drop_first(), b.drop_first())
    }
}

/// `s` with `x` placed after the last entries whose keys do not come after its key.
pub open spec fn insert_by_key(s: Seq<(String, JsonValue)>, x: (String, JsonValue)) -> Seq<(String, JsonValue)>
    decreases s.len(),
{
    if s.len() == 0 {
        seq![x]
    } else if key_le(s.last().0@, x.0@) {
        s.push(x)
    } else {
        insert_by_key(s.drop_last(), x).push(s.last())
    }
}

/// The entries in key order (entries with equal keys keep their order).
pub open spec fn sort_by_key(s: Seq<(String, JsonValue)>) -> Seq<(String, JsonValue)>
    decreases s.len(),
{
    if s.len() == 0 { Seq::empty() } else { insert_by_key(sort_by_key(s.drop_last()), s.last()) }
}

fn key_le_exec(a: &str, b: &str) -> (r: bool)
    ensures
        r == key_le(a@, b@),
{
    let x = to_chars(a);
    let y = to_chars(b);
    let mut i: usize = 0;
    assert(a@.subrange(0, a@.len() as int) == a@);
    assert(b@.subrange(0, b@.len() as int) == b@);
    while i < x.len() && i < y.len() && x[i] == y[i]
        invariant
            i <= x@.len(),
            i <= y@.len(),
            x@ == a@,
            y@ == b@,
            key_le(a@, b@) == key_le(a@.subrange(i as int, a@.len() as int), b@.subrange(i as int, b@.len() as int)),
        decreases x@.len() - i,
    {
        let ghost sa = a@.subrange(i as int, a@.len() as int);
        let ghost sb = b@.subrange(i as int, b@.len() as int);
        assert(sa[0] == sb[0]);
        assert(sa.drop_first() =~= a@.subrange(i + 1, a@.len() as int));
        assert(sb.drop_first() =~= b@.subrange(i + 1, b@.len() as int));
        i = i + 1;
    }
    let ghost sa = a@.subrange(i as int, a@.len() as int);
    let ghost sb = b@.subrange(i as int, b@.len() as int);
    if i == x.len() {
        true
    } else if i == y.len() {
        false
    } else {
        assert(sa[0] == x@[i as int] && sb[0] == y@[i as int]);
        (x[i] as u32) < (y[i] as u32)
    }
}

fn insert_by_key_exec(s: &mut Vec<(String, JsonValue)>, x: (String, JsonValue))
    ensures
        final(s)@ == insert_by_key(old(s)@, x),
{
    let ghost sm = s@;
    let mut j: usize = s.len();
    assert(sm.subrange(0, j as int) == sm);
    assert(sm.subrange(j as int, sm.len() as int) =~= Seq::<(String, JsonValue)>::empty());
    while j > 0 && !key_le_exec(s[j - 1].0.as_str(), x.0.as_str())
        invariant
            s@ == old(s)@,
            sm == s@,
            j <= s@.len(),
            insert_by_key(sm, x) == insert_by_key(sm.subrange(0, j as int), x) + sm.subrange(j as int, sm.len() as int),
        decreases j,
    {
        let ghost pre = sm.subrange(0, j as int);
        assert(pre.last() == sm[j - 1]);
        assert(pre.drop_last() == sm.subrange(0, j - 1));
        assert(insert_by_key(pre, x) == insert_by_key(sm.subrange(0, j - 1), x).push(sm[j - 1]));
        assert(insert_by_key(sm.subrange(0, j - 1), x).push(sm[j - 1]) + sm.subrange(j as int, sm.len() as int)
            =~= insert_by_key(sm.subrange(0, j - 1), x) + sm.subrange(j - 1, sm.len() as int));
        j = j - 1;
    }
    let ghost pre = sm.subrange(0, j as int);
    if j > 0 {
        assert(pre.last() == sm[j - 1]);
    }
    assert(insert_by_key(pre, x) == pre.push(x));
    s.insert(j, x);
    assert(s@ =~= pre.push(x) + sm.subrange(j as int, sm.len() as int));
}

fn sort_by_key_exec(s: Vec<(String, JsonValue)>) -> (r: Vec<(String, JsonValue)>)
    ensures
        r@ == sort_by_key(s@),
{
    let ghost orig = s@;
    let mut src = s;
    let mut out: Vec<(String, JsonValue)> = Vec::new();
    let ghost mut i: int = 0;
    assert(orig.subrange(0, 0) =~= Seq::<(String, JsonValue)>::empty());
    while src.len() > 0
        invariant
            0 <= i <= orig.len(),
            orig.len() == i + src@.len(),
            src@ == orig.subrange(i, orig.len() as int),
            out@ == sort_by_key(orig.subrange(0, i)),
        decreases src@.len(),
    {
        let e = src.remove(0);
        assert(orig[i] == e);
        assert(orig.subrange(0, i + 1).drop_last() == orig.subrange(0, i));
        insert_by_key_exec(&mut out, e);
        proof {
            i = i + 1;
        }
    }
    assert(orig.subrange(0, orig.len() as int) == orig);
    out
}

proof fn lemma_insert_by_key_len(s: Seq<(String, JsonValue)>, x: (String, JsonValue))
    ensures
        insert_by_key(s, x).len() == s.len() + 1,
    decreases s.len(),
{
    if s.len() > 0 {
        lemma_insert_by_key_len(s.drop_last(), x);
    }
}

proof fn lemma_sort_by_key_len(s: Seq<(String, JsonValue)>)
    ensures
        sort_by_key(s).len() == s.len(),
    decreases s.len(),
{
    if s.len() > 0 {
        lemma_sort_by_key_len(s.drop_last());
        lemma_insert_by_key_len(sort_by_key(s.drop_last()), s.last());
    }
}

fn unique_last_exec(s: Vec<(String, JsonValue)>) -> (r: Vec<(String, JsonValue)>)
    ensures
        r@ == unique_last(s@),
{
    let ghost all = s@;
    let n = s.len();
    let mut keep: Vec<bool> = Vec::new();
    let mut i: usize = 0;
    while i < n
        invariant
            n == all.len(),
            s@ == all,
            i <= n,
            keep@.len() == i,
            forall|a: int| 0 <= a < i ==> #[trigger] keep@[a] == !(exists|j: int| a < j < n && #[trigger] all[j].0@ == all[a].0@),
        decreases n - i,
    {
        let mut later = false;
        let mut j: usize = i + 1;
        while j < n && !later
            invariant
                n == all.len(),
                s@ == all,
                i < n,
                i + 1 <= j <= n,
                later == exists|b: int| i < b < j && #[trigger] all[b].0@ == all[i as int].0@,
            decreases n - j,
        {
            if crate::json::str_eq(s[j].0.as_str(), s[i].0.as_str()) {
                later = true;
            }
            j = j + 1;
        }
        keep.push(!later);
        i = i + 1;
    }
    let ghost kept = keep@;
    let mut src = s;
    let mut out: Vec<(String, JsonValue)> = Vec::new();
    let mut k: usize = 0;
    assert(all.subrange(0, n as int) == all);
    while src.len() > 0
        invariant
            n == all.len(),
            k <= n,
            keep@ == kept,
            kept.len() == n,
            forall|a: int| 0 <= a < n ==> #[trigger] kept[a] == !(exists|j: int| a < j < n && #[trigger] all[j].0@ == all[a].0@),
            src@ == all.subrange(k as int, n as int),
            out@ + unique_last(all.subrange(k as int, n as int)) == unique_last(all),
        decreases src@.len(),
    {
        let ghost rest = all.subrange(k as int, n as int);
        let e = src.remove(0);
        assert(rest[0] == e);
        assert(rest.drop_first() == all.subrange(k + 1, n as int));
        assert((exists|j: int| 0 <= j < rest.drop_first().len() && #[trigger] rest.drop_first()[j].0@ == rest[0].0@)
            == (exists|j: int| k < j < n && #[trigger] all[j].0@ == all[k as int].0@)) by {
            if exists|j: int| 0 <= j < rest.drop_first().len() && #[trigger] rest.drop_first()[j].0@ == rest[0].0@ {
                let j = choose|j: int| 0 <= j < rest.drop_first().len() && #[trigger] rest.drop_first()[j].0@ == rest[0].0@;
                assert(all[k + 1 + j].0@ == all[k as int].0@);
            }
            if exists|j: int| k < j < n && #[trigger] all[j].0@ == all[k as int].0@ {
                let j = choose|j: int| k < j < n && #[trigger] all[j].0@ == all[k as int].0@;
                assert(rest.drop_first()[j - k - 1].0@ == rest[0].0@);
            }
        }
        if keep[k] {
            let ghost before = out@;
            out.push(e);
            assert(out@ + unique_last(all.subrange(k + 1, n as int)) == before + unique_last(rest)) by {
                assert(before.push(e) + unique_last(all.subrange(k + 1, n as int)) =~= before + (seq![e] + unique_last(all.subrange(k + 1, n as int))));
            }
        }
        k = k + 1;
    }
    assert(all.subrange(n as int, n as int) =~= Seq::<(String, JsonValue)>::empty());
    assert(out@ + Seq::<(String, JsonValue)>::empty() == out@);
    out
}

fn take_entries(v: &mut Vec<(String, JsonValue)>) -> (r: Vec<(String, JsonValue)>)
    ensures
        r == *old(v),
        final(v)@.len() == 0,
{
    let mut e: Vec<(String, JsonValue)> = Vec::new();
    std::mem::swap(v, &mut e);
    e
}

/// Keeping the first message leaves no list anywhere: a list becomes its first item (with
/// the same done to that item), and every value of an object, error bags included, is
/// handled the same way at any depth.
pub proof fn lemma_first_msg_leaves_no_lists(v: SpecJson)
    ensures
        has_no_lists(first_msg(v)),
    decreases v, 1int,
{
    match v {
        SpecJson::Array(items) => {
            if items.len() > 0 {
                lemma_first_msg_leaves_no_lists(items[0]);
            }
        },
        SpecJson::Object(m) => {
            lemma_first_msg_entries_leave_no_lists(m);
        },
        _ => {},
    }
}

/// [`lemma_first_msg_leaves_no_lists`] for each value of an object.
pub proof fn lemma_first_msg_entries_leave_no_lists(m: Seq<(Seq<char>, SpecJson)>)
    ensures
        entries_have_no_lists(first_msg_entries(m)),
        first_msg_entries(m).len() == m.len(),
        forall|i: int| 0 <= i < m.len() ==> (#[trigger] first_msg_entries(m)[i]).0 == m[i].0,
    decreases m, 0int,
{
    if m.len() > 0 {
        lemma_first_msg_entries_leave_no_lists(m.drop_last());
        lemma_first_msg_leaves_no_lists(m.last().1);
        let r = first_msg_entries(m);
        assert(r.drop_last() == first_msg_entries(m.drop_last()));
        assert forall|i: int| 0 <= i < m.len() implies (#[trigger] first_msg_entries(m)[i]).0 == m[i].0 by {
            if i < m.len() - 1 {
                assert(r[i] == first_msg_entries(m.drop_last())[i]);
                assert(m[i] == m.drop_last()[i]);
            }
        }
    }
}

/// When the data as given does not fit, the next data measured keeps the first message per
/// field: no list is left at any depth of the errors, error bags included, and the flash
/// entries and the clear-history flag are as they were.
pub proof fn lemma_first_messages_stage(a: FlashFitter, len: usize, b: FlashFitter, r: FitAction)
    requires
        fit_step(a, Some(len), b, r),
        a.stage == FitStage::Original,
        len > MAX_FLASH_COOKIE_BYTES,
    ensures
        entries_have_no_lists(model_entries(b.data.errors@)),
        model_entries(b.data.flash@) == model_entries(a.data.flash@),
        b.data.clear_history == a.data.clear_history,
        r matches FitAction::Measure(d) && data_model(d) == data_model(b.data),
{
    lemma_first_msg_entries_leave_no_lists(model_entries(a.data.errors@));
}

/// One step of the fitting: from fitter `a`, given the length measured last, to fitter `b`
/// with action `r`.
pub open spec fn fit_step(a: FlashFitter, measured: Option<usize>, b: FlashFitter, r: FitAction) -> bool {
    match measured {
        None => r is GiveUp && b.stage == FitStage::Done,
        Some(len) => match a.stage {
            FitStage::Done => r is GiveUp && b.stage == FitStage::Done,
            FitStage::Adding => {
                let fits = len <= MAX_FLASH_COOKIE_BYTES;
                let trying = a.trying;
                let errors = if fits { a.data.errors@ } else { del_entries(a.data.errors@, trying@) };
                let kept = if fits { a.kept@.push(trying) } else { a.kept@ };
                &&& b.kept@ == kept
                &&& b.data.flash == a.data.flash
                &&& b.data.clear_history == a.data.clear_history
                &&& r matches FitAction::Measure(d) && data_model(d) == data_model(b.data)
                &&& if a.remaining@.len() > 0 {
                    &&& b.stage == FitStage::Adding
                    &&& b.remaining@ == a.remaining@.drop_first()
                    &&& b.trying == a.remaining@[0].0
                    &&& b.data.errors@ == put_entry(errors, a.remaining@[0].0, a.remaining@[0].1)
                } else {
                    &&& b.stage == FitStage::Final
                    &&& b.data.errors@ == errors
                }
            },
            _ => if len <= MAX_FLASH_COOKIE_BYTES {
                r is Accept && b.stage == FitStage::Done
            } else {
                match a.stage {
                    FitStage::Original => {
                        &&& b.stage == FitStage::FirstMessages
                        &&& data_model(b.data) == (first_msg_entries(data_model(a.data).0),
                            data_model(a.data).1, a.data.clear_history)
                        &&& r matches FitAction::Measure(d) && data_model(d) == data_model(b.data)
                    },
                    FitStage::FirstMessages => {
                        &&& b.stage == FitStage::Truncated
                        &&& data_model(b.data) == (trunc_entries(data_model(a.data).0),
                            trunc_entries(data_model(a.data).1), a.data.clear_history)
                        &&& r matches FitAction::Measure(d) && data_model(d) == data_model(b.data)
                    },
                    FitStage::Truncated => {
                        &&& b.stage == FitStage::NoFlash
                        &&& b.data.errors == a.data.errors
                        &&& b.data.flash@.len() == 0
                        &&& b.data.clear_history == a.data.clear_history
                        &&& r matches FitAction::Measure(d) && data_model(d) == data_model(b.data)
                    },
                    FitStage::NoFlash => {
                        let fields = sort_by_key(unique_last(a.data.errors@));
                        &&& b.kept@.len() == 0
                        &&& b.data.flash == a.data.flash
                        &&& b.data.clear_history == a.data.clear_history
                        &&& r matches FitAction::Measure(d) && data_model(d) == data_model(b.data)
                        &&& exists|n: (String, JsonValue)| is_notice(n) && if fields.len() > 0 {
                            &&& b.stage == FitStage::Adding
                            &&& b.remaining@ == fields.drop_first()
                            &&& b.trying == fields[0].0
                            &&& b.data.errors@ == put_entry(seq![n], fields[0].0, fields[0].1)
                        } else {
                            &&& b.stage == FitStage::Final
                            &&& b.data.errors@ == seq![n]
                        }
                    },
                    _ => if a.kept@.len() == 0 {
                        r is GiveUp && b.stage == FitStage::Done
                    } else {
                        &&& b.stage == FitStage::Final
                        &&& b.kept@ == a.kept@.drop_last()
                        &&& b.data.errors@ == del_entries(a.data.errors@, a.kept@.last()@)
                        &&& b.data.flash == a.data.flash
                        &&& b.data.clear_history == a.data.clear_history
                        &&& r matches FitAction::Measure(d) && data_model(d) == data_model(b.data)
                    },
                }
            },
        },
    }
}

/// An upper bound on the measures the fitting still asks for.
pub open spec fn fit_bound(f: FlashFitter) -> nat {
    let e = f.data.errors@.len();
    match f.stage {
        FitStage::Original => 2 * e + 5,
        FitStage::FirstMessages => 2 * e + 4,
        FitStage::Truncated => 2 * e + 3,
        FitStage::NoFlash => 2 * e + 2,
        FitStage::Adding => 2 * f.remaining@.len() + f.kept@.len() + 3,
        FitStage::Final => f.kept@.len() + 1,
        FitStage::Done => 0,
    }
}

proof fn lemma_first_msg_entries_len(m: Seq<(Seq<char>, SpecJson)>)
    ensures
        first_msg_entries(m).len() == m.len(),
    decreases m.len(),
{
    if m.len() > 0 {
        lemma_first_msg_entries_len(m.drop_last());
    }
}

proof fn lemma_trunc_entries_len(m: Seq<(Seq<char>, SpecJson)>)
    ensures
        trunc_entries(m).len() == m.len(),
    decreases m.len(),
{
    if m.len() > 0 {
        lemma_trunc_entries_len(m.drop_last());
    }
}

proof fn lemma_unique_last_len(s: Seq<(String, JsonValue)>)
    ensures
        unique_last(s).len() <= s.len(),
    decreases s.len(),
{
    if s.len() > 0 {
        lemma_unique_last_len(s.drop_first());
    }
}

/// The fitting ends: every step that asks for another measure lowers `fit_bound`, so a
/// cookie is accepted, or the fitting gives up, after finitely many measures.
pub proof fn lemma_fitting_ends(a: FlashFitter, measured: Option<usize>, b: FlashFitter, r: FitAction)
    requires
        fit_step(a, measured, b, r),
        r is Measure,
    ensures
        fit_bound(b) < fit_bound(a),
{
    lemma_model_entries_index(a.data.errors@);
    lemma_model_entries_index(b.data.errors@);
    lemma_first_msg_entries_len(model_entries(a.data.errors@));
    lemma_trunc_entries_len(model_entries(a.data.errors@));
    lemma_unique_last_len(a.data.errors@);
    lemma_sort_by_key_len(unique_last(a.data.errors@));
}

impl FlashFitter {
    /// Measure the data as given first.
    pub fn start(data: FlashData) -> (r: (FlashFitter, FitAction))
        ensures
            r.0.stage == FitStage::Original,
            r.0.data == data,
            r.1 matches FitAction::Measure(d) && data_model(d) == data_model(data),
    {
        let copy = data.deep_clone();
        (FlashFitter { data, stage: FitStage::Original, remaining: Vec::new(), kept: Vec::new(), trying: String::new() },
            FitAction::Measure(copy))
    }

    fn measure(&self) -> (r: FitAction)
        ensures
            r matches FitAction::Measure(d) && data_model(d) == data_model(self.data),
    {
        FitAction::Measure(self.data.deep_clone())
    }

    /// Try the next field, or measure what is to be sent when none is left.
    fn next_field(&mut self) -> (r: FitAction)
        ensures
            final(self).data.flash == old(self).data.flash,
            final(self).data.clear_history == old(self).data.clear_history,
            final(self).kept == old(self).kept,
            r matches FitAction::Measure(d) && data_model(d) == data_model(final(self).data),
            if old(self).remaining@.len() > 0 {
                &&& final(self).stage == FitStage::Adding
                &&& final(self).remaining@ == old(self).remaining@.drop_first()
                &&& final(self).trying == old(self).remaining@[0].0
                &&& final(self).data.errors@ == put_entry(old(self).data.errors@, old(self).remaining@[0].0, old(self).remaining@[0].1)
            } else {
                &&& final(self).stage == FitStage::Final
                &&& final(self).data.errors == old(self).data.errors
            },
    {
        if self.remaining.len() > 0 {
            let (k, v) = self.remaining.remove(0);
            self.trying = k.clone();
            put_entry_exec(&mut self.data.errors, k, v);
            self.stage = FitStage::Adding;
        } else {
            self.stage = FitStage::Final;
        }
        self.measure()
    }

    /// The next action, given the length of the `Set-Cookie` header of the data measured
    /// last (`None`: it could not be encrypted). A cookie is only ever accepted right after
    /// a measure that fits.
    pub fn step(&mut self, measured: Option<usize>) -> (r: FitAction)
        ensures
            r is Accept ==> (measured matches Some(l) && l <= MAX_FLASH_COOKIE_BYTES),
            fit_step(*old(self), measured, *final(self), r),
    {
        let len = match measured {
            None => {
                self.stage = FitStage::Done;
                return FitAction::GiveUp;
            },
            Some(l) => l,
        };
        let fits = len <= MAX_FLASH_COOKIE_BYTES;
        match self.stage {
            FitStage::Done => FitAction::GiveUp,
            FitStage::Adding => {
                if fits {
                    self.kept.push(self.trying.clone());
                } else {
                    let errors = take_entries(&mut self.data.errors);
                    self.data.errors = del_entries_exec(errors, self.trying.as_str());
                }
                self.next_field()
            },
            _ => {
                if fits {
                    self.stage = FitStage::Done;
                    return FitAction::Accept;
                }
                match self.stage {
                    FitStage::Original => {
                        let errors = take_entries(&mut self.data.errors);
                        self.data.errors = first_messages_of(errors);
                        self.stage = FitStage::FirstMessages;
                        self.measure()
                    },
                    FitStage::FirstMessages => {
                        let errors = take_entries(&mut self.data.errors);
                        self.data.errors = truncate_entries(errors);
                        let flash = take_entries(&mut self.data.flash);
                        self.data.flash = truncate_entries(flash);
                        self.stage = FitStage::Truncated;
                        self.measure()
                    },
                    FitStage::Truncated => {
                        self.data.flash = Vec::new();
                        self.stage = FitStage::NoFlash;
                        self.measure()
                    },
                    FitStage::NoFlash => {
                        let errors = take_entries(&mut self.data.errors);
                        self.remaining = sort_by_key_exec(unique_last_exec(errors));
                        self.kept = Vec::new();
                        proof {
                            reveal_strlit("_overflow");
                            reveal_strlit("There are more errors than can be shown.");
                        }
                        let notice = ("_overflow".to_owned(), JsonValue::Text("There are more errors than can be shown.".to_owned()));
                        let ghost n = notice;
                        assert(is_notice(n));
                        let mut errs: Vec<(String, JsonValue)> = Vec::new();
                        errs.push(notice);
                        assert(errs@ == seq![n]);
                        self.data.errors = errs;
                        self.next_field()
                    },
                    _ => {
                        match self.kept.pop() {
                            None => {
                                self.stage = FitStage::Done;
                                FitAction::GiveUp
                            },
                            Some(f) => {
                                let errors = take_entries(&mut self.data.errors);
                                self.data.errors = del_entries_exec(errors, f.as_str());
                                self.stage = FitStage::Final;
                                self.measure()
                            },
                        }
                    },
                }
            },
        }
    }
}

/// What the flash store does with the response.
#[derive(Debug, PartialEq, Eq)]
pub enum StoreAction {
    /// Store this data: fit it into the cookie with a [`FlashFitter`].
    Fit(FlashData),
    /// Remove the cookie: the data it held has been shown.
    Remove,
    /// Leave the cookie as it is.
    Keep,
}

/// Data flashed by this response is stored; otherwise data read from the previous request is
/// dropped once a page has been rendered with it; requests that render nothing leave it.
pub fn store_action(incoming: bool, consumed: bool, outgoing: Option<FlashData>) -> (r: StoreAction)
    ensures
        match outgoing {
            Some(d) if !(d.errors@.len() == 0 && d.flash@.len() == 0 && !d.clear_history) => r == StoreAction::Fit(d),
            _ => if incoming && consumed { r is Remove } else { r is Keep },
        },
{
    match outgoing {
        Some(d) => {
            if !d.is_empty() {
                return StoreAction::Fit(d);
            }
        },
        None => {},
    }
    if incoming && consumed {
        StoreAction::Remove
    } else {
        StoreAction::Keep
    }
}

} // verus!
