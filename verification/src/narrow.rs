//! Narrowing a resolved JSON value to some dot paths, or removing dot paths from it.

use vstd::prelude::*;
use crate::json::{lemma_model_entries_step, model_entries, JsonValue, SpecJson};
use crate::path::{head, spec_head};
use crate::json::str_eq;

verus! {

/// The rests (after `key.`) of the paths whose first segment is `key` and that go deeper.
pub open spec fn rests(paths: Seq<Seq<char>>, key: Seq<char>) -> Seq<Seq<char>>
    decreases paths.len(),
{
    if paths.len() == 0 {
        Seq::empty()
    } else {
        let (h, r) = spec_head(paths.last());
        let before = rests(paths.drop_last(), key);
        if h == key && r is Some {
            before.push(r.unwrap())
        } else {
            before
        }
    }
}

/// Some path names `key` itself.
pub open spec fn names_whole(paths: Seq<Seq<char>>, key: Seq<char>) -> bool {
    exists|i: int| 0 <= i < paths.len() && #[trigger] spec_head(paths[i]) == (key, None::<Seq<char>>)
}

/// Some path starts with the segment `key`.
pub open spec fn names_key(paths: Seq<Seq<char>>, key: Seq<char>) -> bool {
    exists|i: int| 0 <= i < paths.len() && #[trigger] spec_head(paths[i]).0 == key
}

/// `v` with only the given dot paths kept; values that are not objects stay as they are.
pub open spec fn spec_keep_paths(v: SpecJson, paths: Seq<Seq<char>>) -> SpecJson
    decreases v,
{
    match v {
        SpecJson::Object(m) => SpecJson::Object(keep_entries(m, paths)),
        _ => v,
    }
}

/// The entries of an object that [`spec_keep_paths`] keeps, narrowed in turn.
pub open spec fn keep_entries(m: Seq<(Seq<char>, SpecJson)>, paths: Seq<Seq<char>>) -> Seq<(Seq<char>, SpecJson)>
    decreases m,
{
    if m.len() == 0 {
        Seq::empty()
    } else {
        let (k, c) = m.last();
        let before = keep_entries(m.drop_last(), paths);
        if names_key(paths, k) {
            before.push((k, if names_whole(paths, k) { c } else { spec_keep_paths(c, rests(paths, k)) }))
        } else {
            before
        }
    }
}

/// `v` without the value at dot path `p`.
pub open spec fn remove_one(v: SpecJson, p: Seq<char>) -> SpecJson
    decreases v,
{
    match v {
        SpecJson::Object(m) => {
            let (k, r) = spec_head(p);
            match r {
                None => SpecJson::Object(drop_key(m, k)),
                Some(rest) => SpecJson::Object(remove_below(m, k, rest)),
            }
        },
        _ => v,
    }
}

/// The entries without those keyed `k`.
pub open spec fn drop_key(m: Seq<(Seq<char>, SpecJson)>, k: Seq<char>) -> Seq<(Seq<char>, SpecJson)>
    decreases m.len(),
{
    if m.len() == 0 {
        Seq::empty()
    } else if m.last().0 == k {
        drop_key(m.drop_last(), k)
    } else {
        drop_key(m.drop_last(), k).push(m.last())
    }
}

/// The entries with `rest` removed from the value keyed `k`.
pub open spec fn remove_below(m: Seq<(Seq<char>, SpecJson)>, k: Seq<char>, rest: Seq<char>) -> Seq<(Seq<char>, SpecJson)>
    decreases m,
{
    if m.len() == 0 {
        Seq::empty()
    } else {
        let (key, c) = m.last();
        let before = remove_below(m.drop_last(), k, rest);
        if key == k {
            before.push((key, remove_one(c, rest)))
        } else {
            before.push((key, c))
        }
    }
}

/// `v` with every path of `paths` removed, in order.
pub open spec fn spec_remove_paths(v: SpecJson, paths: Seq<Seq<char>>) -> SpecJson
    decreases paths.len(),
{
    if paths.len() == 0 {
        v
    } else {
        remove_one(spec_remove_paths(v, paths.drop_last()), paths.last())
    }
}

pub open spec fn strs(v: Seq<String>) -> Seq<Seq<char>> {
    v.map_values(|s: String| s@)
}

fn names_of(paths: &Vec<String>, key: &str) -> (r: (bool, bool))
    ensures
        r.0 == names_key(strs(paths@), key@),
        r.1 == names_whole(strs(paths@), key@),
{
    let mut some = false;
    let mut whole = false;
    let mut i: usize = 0;
    while i < paths.len()
        invariant
            i <= paths@.len(),
            some == exists|j: int| 0 <= j < i && #[trigger] spec_head(strs(paths@)[j]).0 == key@,
            whole == exists|j: int| 0 <= j < i && #[trigger] spec_head(strs(paths@)[j]) == (key@, None::<Seq<char>>),
        decreases paths@.len() - i,
    {
        let (h, r) = head(paths[i].as_str());
        assert(strs(paths@)[i as int] == paths@[i as int]@);
        if str_eq(h.as_str(), key) {
            some = true;
            if r.is_none() {
                whole = true;
            }
        }
        i = i + 1;
    }
    (some, whole)
}

fn rests_of(paths: &Vec<String>, key: &str) -> (r: Vec<String>)
    ensures
        strs(r@) == rests(strs(paths@), key@),
{
    let mut out: Vec<String> = Vec::new();
    let mut i: usize = 0;
    while i < paths.len()
        invariant
            i <= paths@.len(),
            strs(out@) == rests(strs(paths@).subrange(0, i as int), key@),
        decreases paths@.len() - i,
    {
        let (h, r) = head(paths[i].as_str());
        let ghost sub = strs(paths@).subrange(0, i + 1);
        assert(sub.drop_last() == strs(paths@).subrange(0, i as int));
        assert(sub.last() == paths@[i as int]@);
        if str_eq(h.as_str(), key) {
            match r {
                Some(rest) => {
                    let ghost before = out@;
                    out.push(rest);
                    assert(strs(out@) =~= strs(before).push(out@.last()@));
                },
                None => {},
            }
        }
        i = i + 1;
    }
    assert(strs(paths@).subrange(0, paths@.len() as int) == strs(paths@));
    out
}

/// Keeps only the given dot paths of `v` (an object; other values are returned as they are).
#[verifier::loop_isolation(false)]
pub fn keep_paths(v: JsonValue, paths: &Vec<String>) -> (r: JsonValue)
    ensures
        r.model() == spec_keep_paths(v.model(), strs(paths@)),
    decreases v,
{
    let ghost v0 = v;
    match v {
        JsonValue::Object(m) => {
            let ghost orig = m@;
            let mut src = m;
            let mut out: Vec<(String, JsonValue)> = Vec::new();
            let ghost mut i: int = 0;
            while src.len() > 0
                invariant
                    v0 == JsonValue::Object(m),
                    orig == m@,
                    0 <= i <= orig.len(),
                    orig.len() == i + src@.len(),
                    src@ == orig.subrange(i, orig.len() as int),
                    model_entries(out@) == keep_entries(model_entries(orig.subrange(0, i)), strs(paths@)),
                decreases src@.len(),
            {
                proof {
                    lemma_model_entries_step(orig, i);
                }
                let (k, c) = src.remove(0);
                assert(orig[i] == (k, c));
                let (some, whole) = names_of(paths, k.as_str());
                let ghost me = model_entries(orig.subrange(0, i + 1));
                assert(me.drop_last() == model_entries(orig.subrange(0, i)));
                assert(me.last() == (k@, c.model()));
                if some {
                    let c2 = if whole {
                        c
                    } else {
                        let rs = rests_of(paths, k.as_str());
                        assert(decreases_to!(v0 => c)) by {
                            let f = v0->Object_0;
                            assert(f == m);
                            assert(decreases_to!(v0 => v0->Object_0));
                            assert(decreases_to!(f => f@));
                            assert(decreases_to!(f@ => f@[i]));
                            assert(decreases_to!(f@[i] => f@[i].1));
                            assert(f@[i].1 == c);
                            assert(decreases_to!(v0 => c));
                        }
                        keep_paths(c, &rs)
                    };
                    let ghost before = out@;
                    out.push((k, c2));
                    assert(model_entries(out@).drop_last() == model_entries(before)) by {
                        assert(out@.drop_last() == before);
                    }
                }
                proof {
                    i = i + 1;
                }
            }
            assert(orig.subrange(0, orig.len() as int) == orig);
            JsonValue::Object(out)
        },
        other => other,
    }
}

/// Removes the value at dot path `p` from `v`.
#[verifier::loop_isolation(false)]
pub fn remove_path(v: JsonValue, p: &str) -> (r: JsonValue)
    ensures
        r.model() == remove_one(v.model(), p@),
    decreases v,
{
    let ghost v0 = v;
    match v {
        JsonValue::Object(m) => {
            let (k, r) = head(p);
            let ghost orig = m@;
            let mut src = m;
            let mut out: Vec<(String, JsonValue)> = Vec::new();
            let ghost mut i: int = 0;
            while src.len() > 0
                invariant
                    0 <= i <= orig.len(),
                    orig.len() == i + src@.len(),
                    src@ == orig.subrange(i, orig.len() as int),
                    model_entries(out@) == (match r {
                        None => drop_key(model_entries(orig.subrange(0, i)), k@),
                        Some(rest) => remove_below(model_entries(orig.subrange(0, i)), k@, rest@),
                    }),
                decreases src@.len(),
            {
                proof {
                    lemma_model_entries_step(orig, i);
                }
                let (key, c) = src.remove(0);
                assert(orig[i] == (key, c));
                let ghost me = model_entries(orig.subrange(0, i + 1));
                assert(me.drop_last() == model_entries(orig.subrange(0, i)));
                assert(me.last() == (key@, c.model()));
                let same = str_eq(key.as_str(), k.as_str());
                let ghost before = out@;
                match &r {
                    None => {
                        if !same {
                            out.push((key, c));
                            assert(model_entries(out@).drop_last() == model_entries(before)) by {
                                assert(out@.drop_last() == before);
                            }
                        }
                    },
                    Some(rest) => {
                        let c2 = if same {
                            assert(decreases_to!(v0 => c)) by {
                                let f = v0->Object_0;
                                assert(decreases_to!(v0 => v0->Object_0));
                                assert(decreases_to!(f => f@));
                                assert(decreases_to!(f@ => f@[i]));
                                assert(decreases_to!(f@[i] => f@[i].1));
                            }
                            remove_path(c, rest.as_str())
                        } else {
                            c
                        };
                        out.push((key, c2));
                        assert(model_entries(out@).drop_last() == model_entries(before)) by {
                            assert(out@.drop_last() == before);
                        }
                    },
                }
                proof {
                    i = i + 1;
                }
            }
            assert(orig.subrange(0, orig.len() as int) == orig);
            JsonValue::Object(out)
        },
        other => other,
    }
}

/// Removes every dot path of `paths` from `v`, in order.
pub fn remove_paths(v: JsonValue, paths: &Vec<String>) -> (r: JsonValue)
    ensures
        r.model() == spec_remove_paths(v.model(), strs(paths@)),
{
    let ghost v0 = v.model();
    let mut v = v;
    let mut i: usize = 0;
    while i < paths.len()
        invariant
            i <= paths@.len(),
            v.model() == spec_remove_paths(v0, strs(paths@).subrange(0, i as int)),
        decreases paths@.len() - i,
    {
        assert(strs(paths@).subrange(0, i + 1).drop_last() == strs(paths@).subrange(0, i as int));
        v = remove_path(v, paths[i].as_str());
        i = i + 1;
    }
    assert(strs(paths@).subrange(0, paths@.len() as int) == strs(paths@));
    v
}

} // verus!
