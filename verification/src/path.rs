//! Dot paths into the prop tree (`sidebar.links`, `user.name`).

use vstd::prelude::*;
use crate::text::{chars_start_with_at, from_char_range, push_char, to_chars};

verus! {

/// If `path` lies strictly below `parent`, what follows `parent.` (`a.b.c` under `a` is `b.c`).
pub open spec fn spec_strip_parent(path: Seq<char>, parent: Seq<char>) -> Option<Seq<char>> {
    if path.len() > parent.len() && path.subrange(0, parent.len() as int) == parent
        && path[parent.len() as int] == '.' {
        Some(path.subrange(parent.len() as int + 1, path.len() as int))
    } else {
        None
    }
}

/// `pattern` names `path` itself or one of its ancestors.
pub open spec fn spec_covers(pattern: Seq<char>, path: Seq<char>) -> bool {
    pattern == path || spec_strip_parent(path, pattern) is Some
}

/// The first segment of a dot path and the rest after the first dot, if there is one.
pub open spec fn spec_head(s: Seq<char>) -> (Seq<char>, Option<Seq<char>>)
    decreases s.len(),
{
    if s.len() == 0 {
        (s, None)
    } else if s[0] == '.' {
        (Seq::empty(), Some(s.drop_first()))
    } else {
        let (h, r) = spec_head(s.drop_first());
        (seq![s[0]] + h, r)
    }
}

/// The path of `key` below `prefix` (`prefix.key`, or `key` at the top level).
pub open spec fn spec_child_path(prefix: Seq<char>, key: Seq<char>) -> Seq<char> {
    if prefix.len() == 0 {
        key
    } else {
        prefix + seq!['.'] + key
    }
}

/// Exec form of [`spec_strip_parent`].
pub fn strip_parent(path: &str, parent: &str) -> (r: Option<String>)
    ensures
        match r {
            Some(s) => spec_strip_parent(path@, parent@) == Some(s@),
            None => spec_strip_parent(path@, parent@) is None,
        },
{
    let p = to_chars(path);
    let q = to_chars(parent);
    if p.len() <= q.len() {
        return None;
    }
    if !chars_start_with_at(&p, 0, &q) {
        assert(p@.subrange(0, p@.len() as int) == p@);
        return None;
    }
    assert(p@.subrange(0, p@.len() as int) == p@);
    if p[q.len()] != '.' {
        return None;
    }
    Some(from_char_range(&p, q.len() + 1, p.len()))
}

/// Exec form of [`spec_covers`].
pub fn covers(pattern: &str, path: &str) -> (r: bool)
    ensures
        r == spec_covers(pattern@, path@),
{
    if crate::json::str_eq(pattern, path) {
        return true;
    }
    strip_parent(path, pattern).is_some()
}

proof fn lemma_head_prefix(s: Seq<char>, i: int)
    requires
        0 <= i <= s.len(),
        forall|j: int| 0 <= j < i ==> s[j] != '.',
    ensures
        spec_head(s) == ({
            let (h, r) = spec_head(s.subrange(i, s.len() as int));
            (s.subrange(0, i) + h, r)
        }),
    decreases i,
{
    if i == 0 {
        assert(s.subrange(0, s.len() as int) == s);
        assert(s.subrange(0, 0) + spec_head(s).0 == spec_head(s).0);
    } else {
        let t = s.drop_first();
        lemma_head_prefix(t, i - 1);
        assert(t.subrange(i - 1, t.len() as int) == s.subrange(i, s.len() as int));
        assert(seq![s[0]] + t.subrange(0, i - 1) == s.subrange(0, i));
        let (h, r) = spec_head(s.subrange(i, s.len() as int));
        assert(seq![s[0]] + (t.subrange(0, i - 1) + h) == s.subrange(0, i) + h);
    }
}

/// Exec form of [`spec_head`].
pub fn head(path: &str) -> (r: (String, Option<String>))
    ensures
        r.0@ == spec_head(path@).0,
        match r.1 {
            Some(s) => spec_head(path@).1 == Some(s@),
            None => spec_head(path@).1 is None,
        },
{
    let p = to_chars(path);
    let mut i: usize = 0;
    while i < p.len()
        invariant
            p@ == path@,
            i <= p@.len(),
            forall|j: int| 0 <= j < i ==> p@[j] != '.',
        decreases p@.len() - i,
    {
        if p[i] == '.' {
            proof {
                lemma_head_prefix(p@, i as int);
                let t = p@.subrange(i as int, p@.len() as int);
                assert(t[0] == '.');
                assert(spec_head(t) == (Seq::<char>::empty(), Some(t.drop_first())));
                assert(t.drop_first() == p@.subrange(i + 1, p@.len() as int));
                assert(p@.subrange(0, i as int) + Seq::<char>::empty() == p@.subrange(0, i as int));
            }
            return (from_char_range(&p, 0, i), Some(from_char_range(&p, i + 1, p.len())));
        }
        i = i + 1;
    }
    proof {
        lemma_head_prefix(p@, p@.len() as int);
        assert(p@.subrange(0, p@.len() as int) == p@);
        let e = p@.subrange(p@.len() as int, p@.len() as int);
        assert(e.len() == 0);
        assert(p@ + e == p@);
    }
    (from_char_range(&p, 0, p.len()), None)
}

/// Exec form of [`spec_child_path`].
pub fn child_path(prefix: &str, key: &str) -> (r: String)
    ensures
        r@ == spec_child_path(prefix@, key@),
{
    if prefix.unicode_len() == 0 {
        return key.to_owned();
    }
    let mut r = prefix.to_owned();
    push_char(&mut r, '.');
    r.append(key);
    r
}

} // verus!
