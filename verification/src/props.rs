//! The prop tree: eager values, lazily resolved props and nested groups, each with an
//! inclusion rule (default / optional / always / defer) and optional merge behaviour.

use vstd::prelude::*;
use crate::json::{entry_at, entry_keys, lemma_insert_keeps_keys, lemma_insert_then_read, object_insert, spec_insert, unique_keys, JsonValue, model_entries};
use crate::scroll::ScrollMeta;

verus! {

/// When a prop is sent.
#[derive(Debug)]
pub enum Kind {
    /// Sent on full visits and when requested by a partial reload.
    Default,
    /// Never sent on full visits; only when a partial reload asks for it.
    Optional,
    /// Always sent, even when a partial reload does not ask for it.
    Always,
    /// Omitted and announced on full visits; the client fetches each group afterwards.
    Defer { group: String },
}

/// How the client combines a new value with the one it has.
#[derive(Clone, Copy, PartialEq, Eq, Structural, Debug)]
pub enum MergeStrategy {
    Append,
    Prepend,
    Deep,
}

/// Merge behaviour of a prop.
#[derive(Debug)]
pub struct Merge {
    pub strategy: MergeStrategy,
    /// Fields by which merged items replace each other.
    pub match_on: Vec<String>,
}

/// When the client reloads a once prop: milliseconds from now, or a Unix time in milliseconds.
#[derive(Debug, Clone, Copy)]
pub enum Expiry {
    InMillis(u64),
    AtMillis(u64),
}

/// Resolve-once settings: the client keeps the value and says which ones it has
/// (`X-Inertia-Except-Once-Props`), so they are not recomputed on later visits.
#[derive(Debug)]
pub struct Once {
    pub key: Option<String>,
    pub expiry: Option<Expiry>,
    pub fresh: bool,
}

/// Where a prop's value comes from.
#[derive(Debug)]
pub enum Source {
    /// An eagerly computed value, or the message of why it could not be serialized.
    Value(Result<JsonValue, String>),
    /// A value computed on demand by the resolver with this id (held by the caller).
    Lazy(usize),
    /// A nested group of props.
    Nested(Props),
}

/// A single prop: where its value comes from and when it is sent.
#[derive(Debug)]
pub struct Prop {
    pub source: Source,
    pub kind: Kind,
    pub merge: Option<Merge>,
    pub scroll: Option<ScrollMeta>,
    pub once: Option<Once>,
}

/// A group of named props, in insertion order. Keys may hold nested [`Props`].
#[derive(Debug)]
pub struct Props {
    pub entries: Vec<(String, Prop)>,
}

/// A props type that knows which page component it belongs to, so the component name
/// cannot drift from the props type.
pub trait InertiaPage {
    /// The page component, e.g. `Users/Index`.
    const COMPONENT: &'static str;
}

/// Why a value cannot be used as the props of a page.
#[derive(PartialEq, Eq, Structural, Debug)]
pub enum PropsError {
    /// Page props must be a JSON object (or `null` for none).
    NotAnObject,
}

/// The keys of a props group.
pub open spec fn prop_keys(entries: Seq<(String, Prop)>) -> Seq<Seq<char>> {
    entries.map_values(|e: (String, Prop)| e.0@)
}

/// A prop with default settings around `source`.
pub open spec fn plain(source: Source, kind: Kind) -> Prop {
    Prop { source, kind, merge: None, scroll: None, once: None }
}

impl Props {
    /// No key occurs twice.
    pub open spec fn wf(self) -> bool {
        unique_keys(self.entries@)
    }

    pub fn new() -> (r: Props)
        ensures
            r.entries@.len() == 0,
            r.wf(),
    {
        Props { entries: Vec::new() }
    }

    /// Add (or replace) the prop at `key`.
    pub fn insert(&mut self, key: String, prop: Prop)
        ensures
            final(self).entries@ == spec_insert(old(self).entries@, key, prop),
            old(self).wf() ==> final(self).wf(),
    {
        object_insert(&mut self.entries, key, prop);
    }

    /// Add (or replace) the prop at `key`.
    pub fn with(self, key: String, prop: Prop) -> (r: Props)
        ensures
            r.entries@ == spec_insert(self.entries@, key, prop),
            self.wf() ==> r.wf(),
    {
        let mut s = self;
        s.insert(key, prop);
        s
    }

    /// Merge `other` into `self`; keys in `other` win.
    pub fn merge(self, other: Props) -> (r: Props)
        ensures
            r.entries@ == merged(self.entries@, other.entries@),
            self.wf() ==> r.wf(),
    {
        let mut s = self;
        let ghost base = s.entries@;
        let ghost orig = other.entries@;
        let mut src = other.entries;
        let ghost mut i: int = 0;
        while src.len() > 0
            invariant
                0 <= i <= orig.len(),
                orig.len() == i + src@.len(),
                src@ == orig.subrange(i, orig.len() as int),
                s.entries@ == merged(base, orig.subrange(0, i)),
                unique_keys(base) ==> s.wf(),
            decreases src@.len(),
        {
            let (k, p) = src.remove(0);
            assert(orig.subrange(0, i + 1).drop_last() == orig.subrange(0, i));
            assert(orig[i] == (k, p));
            s.insert(k, p);
            proof {
                i = i + 1;
            }
        }
        assert(orig.subrange(0, orig.len() as int) == orig);
        s
    }

    pub fn is_empty(&self) -> (r: bool)
        ensures
            r == (self.entries@.len() == 0),
    {
        self.entries.len() == 0
    }

    pub fn contains_key(&self, key: &str) -> (r: bool)
        ensures
            r == prop_keys(self.entries@).contains(key@),
    {
        match crate::json::find_key(&self.entries, key) {
            Some(i) => {
                assert(prop_keys(self.entries@)[i as int] == key@);
                true
            },
            None => {
                assert(!prop_keys(self.entries@).contains(key@)) by {
                    if prop_keys(self.entries@).contains(key@) {
                        let j = choose|j: int| 0 <= j < prop_keys(self.entries@).len() && prop_keys(self.entries@)[j] == key@;
                        assert(self.entries@[j].0@ == key@);
                    }
                }
                false
            },
        }
    }

    /// Top-level keys, in insertion order.
    pub fn keys(&self) -> (r: Vec<String>)
        ensures
            r@.map_values(|s: String| s@) == prop_keys(self.entries@),
    {
        let mut out: Vec<String> = Vec::new();
        let mut i: usize = 0;
        while i < self.entries.len()
            invariant
                i <= self.entries@.len(),
                out@.map_values(|s: String| s@) == prop_keys(self.entries@.subrange(0, i as int)),
            decreases self.entries@.len() - i,
        {
            let ghost before = out@;
            out.push(self.entries[i].0.clone());
            assert(self.entries@.subrange(0, i + 1) == self.entries@.subrange(0, i as int).push(self.entries@[i as int]));
            assert(out@ == before.push(self.entries@[i as int].0));
            assert(out@.map_values(|s: String| s@) =~= before.map_values(|s: String| s@).push(self.entries@[i as int].0@));
            assert(prop_keys(self.entries@.subrange(0, i + 1)) =~= prop_keys(self.entries@.subrange(0, i as int)).push(self.entries@[i as int].0@));
            i = i + 1;
        }
        assert(self.entries@.subrange(0, self.entries@.len() as int) == self.entries@);
        out
    }

    /// Turn the prop at `key` into an infinite scroll prop; unknown keys are ignored.
    pub fn scroll(self, key: &str, meta: ScrollMeta) -> (r: Props)
        ensures
            match crate::json::first_index(self.entries@, key@) {
                Some(i) => r.entries@ == self.entries@.update(i, (self.entries@[i].0,
                    Prop { scroll: Some(meta), ..self.entries@[i].1 })),
                None => r.entries@ == self.entries@,
            },
    {
        let mut s = self;
        match crate::json::find_key(&s.entries, key) {
            Some(i) => {
                proof {
                    crate::json::lemma_first_index(s.entries@, key@, i as int);
                }
                let ghost e0 = s.entries@;
                let (k, p) = s.entries.remove(i);
                let p2 = Prop { scroll: Some(meta), ..p };
                s.entries.insert(i, (k, p2));
                assert(s.entries@ =~= e0.update(i as int, (k, p2)));
            },
            None => {
                proof {
                    crate::json::lemma_no_index(s.entries@, key@);
                }
            },
        }
        s
    }

    /// Props from a JSON value: each entry of an object becomes a plain value prop; `null`
    /// gives no props; anything else is refused.
    pub fn from_json(value: JsonValue) -> (r: Result<Props, PropsError>)
        ensures
            match value {
                JsonValue::Null => r matches Ok(p) && p.entries@.len() == 0,
                JsonValue::Object(m) => r matches Ok(p) && p.entries@.len() == m@.len()
                    && forall|i: int| 0 <= i < m@.len() ==> #[trigger] p.entries@[i]
                        == (m@[i].0, plain(Source::Value(Ok(m@[i].1)), Kind::Default)),
                _ => r == Err::<Props, PropsError>(PropsError::NotAnObject),
            },
    {
        match value {
            JsonValue::Null => Ok(Props::new()),
            JsonValue::Object(m) => {
                let ghost orig = m@;
                let mut src = m;
                let mut out: Vec<(String, Prop)> = Vec::new();
                let ghost mut i: int = 0;
                while src.len() > 0
                    invariant
                        0 <= i <= orig.len(),
                        orig.len() == i + src@.len(),
                        src@ == orig.subrange(i, orig.len() as int),
                        out@.len() == i,
                        forall|j: int| 0 <= j < i ==> #[trigger] out@[j]
                            == (orig[j].0, plain(Source::Value(Ok(orig[j].1)), Kind::Default)),
                    decreases src@.len(),
                {
                    let (k, v) = src.remove(0);
                    assert(orig[i] == (k, v));
                    out.push((k, Prop::value(v)));
                    proof {
                        i = i + 1;
                    }
                }
                Ok(Props { entries: out })
            },
            _ => Err(PropsError::NotAnObject),
        }
    }
}

/// `base` with every entry of `other` inserted in order (keys of `other` win).
pub open spec fn merged(base: Seq<(String, Prop)>, other: Seq<(String, Prop)>) -> Seq<(String, Prop)>
    decreases other.len(),
{
    if other.len() == 0 {
        base
    } else {
        spec_insert(merged(base, other.drop_last()), other.last().0, other.last().1)
    }
}

/// Inserting keeps the keys in order: a key already there keeps its place (its prop is
/// replaced), a new key goes last, and no key comes to occur twice.
pub proof fn lemma_insert_keeps_key_order(entries: Seq<(String, Prop)>, key: String, prop: Prop)
    ensures
        prop_keys(spec_insert(entries, key, prop)) == if prop_keys(entries).contains(key@) {
            prop_keys(entries)
        } else {
            prop_keys(entries).push(key@)
        },
        unique_keys(entries) ==> unique_keys(spec_insert(entries, key, prop)),
{
    lemma_insert_keeps_keys(entries, key, prop);
    assert(prop_keys(entries) =~= entry_keys(entries));
    assert(prop_keys(spec_insert(entries, key, prop)) =~= entry_keys(spec_insert(entries, key, prop)));
}

/// The prop of the last entry keyed `key`, if any.
pub open spec fn last_entry_at(entries: Seq<(String, Prop)>, key: Seq<char>) -> Option<Prop>
    decreases entries.len(),
{
    if entries.len() == 0 {
        None
    } else if entries.last().0@ == key {
        Some(entries.last().1)
    } else {
        last_entry_at(entries.drop_last(), key)
    }
}

/// Merging lets the other props win: a key that `other` has gets the last prop `other`
/// gives it; every other key keeps what `base` had. (Page props win over shared ones.)
pub proof fn lemma_merge_other_wins(base: Seq<(String, Prop)>, other: Seq<(String, Prop)>, key: Seq<char>)
    ensures
        entry_at(merged(base, other), key) == match last_entry_at(other, key) {
            Some(p) => Some(p),
            None => entry_at(base, key),
        },
    decreases other.len(),
{
    if other.len() > 0 {
        lemma_merge_other_wins(base, other.drop_last(), key);
        lemma_insert_then_read(merged(base, other.drop_last()), other.last().0, other.last().1, key);
    }
}

impl Prop {
    /// An eagerly computed value.
    pub fn value(value: JsonValue) -> (r: Prop)
        ensures
            r == plain(Source::Value(Ok(value)), Kind::Default),
    {
        Prop { source: Source::Value(Ok(value)), kind: Kind::Default, merge: None, scroll: None, once: None }
    }

    /// A value, or the message of the error that kept it from being serialized (reported
    /// when the prop is part of a response).
    pub fn from_result(value: Result<JsonValue, String>) -> (r: Prop)
        ensures
            r == plain(Source::Value(value), Kind::Default),
    {
        Prop { source: Source::Value(value), kind: Kind::Default, merge: None, scroll: None, once: None }
    }

    /// A nested group of props.
    pub fn nested(props: Props) -> (r: Prop)
        ensures
            r == plain(Source::Nested(props), Kind::Default),
    {
        Prop { source: Source::Nested(props), kind: Kind::Default, merge: None, scroll: None, once: None }
    }

    /// A normal prop whose value is only computed (by resolver `id`) when it is sent.
    pub fn lazy(id: usize) -> (r: Prop)
        ensures
            r == plain(Source::Lazy(id), Kind::Default),
    {
        Prop { source: Source::Lazy(id), kind: Kind::Default, merge: None, scroll: None, once: None }
    }

    /// Only sent when a partial reload explicitly requests it.
    pub fn optional(id: usize) -> (r: Prop)
        ensures
            r == plain(Source::Lazy(id), Kind::Optional),
    {
        Prop { source: Source::Lazy(id), kind: Kind::Optional, merge: None, scroll: None, once: None }
    }

    /// Loaded by the client right after the first render, in the `default` group.
    pub fn defer(id: usize) -> (r: Prop)
        ensures
            r.source == Source::Lazy(id),
            r.kind matches Kind::Defer { group } && group@ == seq!['d', 'e', 'f', 'a', 'u', 'l', 't'],
            r.merge is None && r.scroll is None && r.once is None,
    {
        let group = "default".to_owned();
        proof {
            reveal_strlit("default");
        }
        Prop { source: Source::Lazy(id), kind: Kind::Defer { group }, merge: None, scroll: None, once: None }
    }

    /// Included in every response, ignoring partial reload filters.
    pub fn always(prop: Prop) -> (r: Prop)
        ensures
            r == (Prop { kind: Kind::Always, ..prop }),
    {
        Prop { kind: Kind::Always, ..prop }
    }

    /// Put a deferred prop in a named group; other props are left as they are.
    pub fn group(self, group: String) -> (r: Prop)
        ensures
            r == (if self.kind is Defer { Prop { kind: Kind::Defer { group }, ..self } } else { self }),
    {
        match self.kind {
            Kind::Defer { .. } => Prop { kind: Kind::Defer { group }, ..self },
            _ => self,
        }
    }

    fn with_strategy(self, strategy: MergeStrategy) -> (r: Prop)
        ensures
            r.merge matches Some(m) && m.strategy == strategy
                && m.match_on@ == (match self.merge { Some(o) => o.match_on@, None => Seq::empty() }),
            r.source == self.source && r.kind == self.kind && r.scroll == self.scroll && r.once == self.once,
    {
        match self.merge {
            Some(m) => Prop { merge: Some(Merge { strategy, ..m }), ..self },
            None => Prop { merge: Some(Merge { strategy, match_on: Vec::new() }), ..self },
        }
    }

    /// The client appends arrays / shallow-merges objects instead of replacing.
    pub fn merge(self) -> (r: Prop)
        ensures
            r.merge matches Some(m) && m.strategy == MergeStrategy::Append
                && m.match_on@ == (match self.merge { Some(o) => o.match_on@, None => Seq::empty() }),
            r.source == self.source && r.kind == self.kind && r.scroll == self.scroll && r.once == self.once,
    {
        self.with_strategy(MergeStrategy::Append)
    }

    /// The client prepends to arrays instead of replacing.
    pub fn prepend(self) -> (r: Prop)
        ensures
            r.merge matches Some(m) && m.strategy == MergeStrategy::Prepend
                && m.match_on@ == (match self.merge { Some(o) => o.match_on@, None => Seq::empty() }),
            r.source == self.source && r.kind == self.kind && r.scroll == self.scroll && r.once == self.once,
    {
        self.with_strategy(MergeStrategy::Prepend)
    }

    /// The client merges objects recursively instead of replacing.
    pub fn deep_merge(self) -> (r: Prop)
        ensures
            r.merge matches Some(m) && m.strategy == MergeStrategy::Deep
                && m.match_on@ == (match self.merge { Some(o) => o.match_on@, None => Seq::empty() }),
            r.source == self.source && r.kind == self.kind && r.scroll == self.scroll && r.once == self.once,
    {
        self.with_strategy(MergeStrategy::Deep)
    }

    /// When merging, items with the same `key` field replace each other; implies
    /// [`Prop::merge`] when no strategy was chosen.
    pub fn match_on(self, key: String) -> (r: Prop)
        ensures
            r.merge matches Some(m) && m.strategy == (match self.merge {
                Some(o) => o.strategy,
                None => MergeStrategy::Append,
            }) && m.match_on@ == (match self.merge {
                Some(o) => o.match_on@,
                None => Seq::empty(),
            }).push(key),
            r.source == self.source && r.kind == self.kind && r.scroll == self.scroll && r.once == self.once,
    {
        let mut m = match self.merge {
            Some(m) => m,
            None => Merge { strategy: MergeStrategy::Append, match_on: Vec::new() },
        };
        m.match_on.push(key);
        Prop { merge: Some(m), ..self }
    }

    /// Make this an infinite scroll prop described by `meta`.
    pub fn scroll(self, meta: ScrollMeta) -> (r: Prop)
        ensures
            r == (Prop { scroll: Some(meta), ..self }),
    {
        Prop { scroll: Some(meta), ..self }
    }

    /// Resolve once and let the client reuse the value on later visits; keyed by the prop path.
    pub fn once(self) -> (r: Prop)
        ensures
            r == (Prop { once: Some(match self.once {
                Some(o) => o,
                None => Once { key: None, expiry: None, fresh: false },
            }), ..self }),
    {
        let o = match self.once {
            Some(o) => o,
            None => Once { key: None, expiry: None, fresh: false },
        };
        Prop { once: Some(o), ..self }
    }

    fn once_settings(self) -> (r: (Once, Prop))
        ensures
            r.0 == (match self.once {
                Some(o) => o,
                None => Once { key: None, expiry: None, fresh: false },
            }),
            r.1 == (Prop { once: None, ..self }),
    {
        let o = match self.once {
            Some(o) => o,
            None => Once { key: None, expiry: None, fresh: false },
        };
        (o, Prop { once: None, ..self })
    }

    /// Like [`Prop::once`] with an explicit key, to share the value across pages.
    pub fn once_as(self, key: String) -> (r: Prop)
        ensures
            r == (Prop { once: Some(match self.once {
                Some(o) => Once { key: Some(key), ..o },
                None => Once { key: Some(key), expiry: None, fresh: false },
            }), ..self }),
    {
        let (o, p) = self.once_settings();
        Prop { once: Some(Once { key: Some(key), ..o }), ..p }
    }

    /// A once prop the client reloads after `ttl_ms` milliseconds.
    pub fn expires_in(self, ttl_ms: u64) -> (r: Prop)
        ensures
            r == (Prop { once: Some(match self.once {
                Some(o) => Once { expiry: Some(Expiry::InMillis(ttl_ms)), ..o },
                None => Once { key: None, expiry: Some(Expiry::InMillis(ttl_ms)), fresh: false },
            }), ..self }),
    {
        let (o, p) = self.once_settings();
        Prop { once: Some(Once { expiry: Some(Expiry::InMillis(ttl_ms)), ..o }), ..p }
    }

    /// A once prop the client reloads at this Unix time (milliseconds).
    pub fn expires_at(self, at_ms: u64) -> (r: Prop)
        ensures
            r == (Prop { once: Some(match self.once {
                Some(o) => Once { expiry: Some(Expiry::AtMillis(at_ms)), ..o },
                None => Once { key: None, expiry: Some(Expiry::AtMillis(at_ms)), fresh: false },
            }), ..self }),
    {
        let (o, p) = self.once_settings();
        Prop { once: Some(Once { expiry: Some(Expiry::AtMillis(at_ms)), ..o }), ..p }
    }

    /// Resolve this once prop on this response even if the client already has it.
    pub fn fresh(self, fresh: bool) -> (r: Prop)
        ensures
            r == (Prop { once: Some(match self.once {
                Some(o) => Once { fresh, ..o },
                None => Once { key: None, expiry: None, fresh },
            }), ..self }),
    {
        let (o, p) = self.once_settings();
        Prop { once: Some(Once { fresh, ..o }), ..p }
    }
}

} // verus!
