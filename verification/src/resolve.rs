//! Resolving a prop tree for one response: which props are sent (full visits, partial
//! reloads by dot path, always / optional / deferred / once props), their values, and the
//! page metadata they produce (merge, deferred, scroll and once props).

use vstd::prelude::*;
use crate::json::{find_key, lemma_model_entries_step, model_entries, object_insert, push_entry, spec_insert, str_eq, JsonValue, SpecJson};
use crate::narrow::{keep_paths, remove_paths, spec_keep_paths, spec_remove_paths, strs};
use crate::num::{decimal, to_decimal};
use crate::path::{child_path, covers, spec_child_path, spec_covers, spec_strip_parent, strip_parent};
use crate::props::{Expiry, Kind, Merge, MergeStrategy, Once, Prop, Props, Source};
use crate::scroll::{spec_scroll_json, MergeIntent, ScrollMeta};
use crate::text::push_char;
use crate::meta::{empty_meta, events_model, fold_events, Event, Resolved, SpecEvent};

verus! {

/// What the client asked for, parsed from the partial reload headers.
#[derive(Debug, Clone)]
pub struct PropRequest {
    /// The request is a partial reload of this very component.
    pub partial: bool,
    /// `X-Inertia-Partial-Data`.
    pub only: Vec<String>,
    /// `X-Inertia-Partial-Except`.
    pub except: Vec<String>,
    /// `X-Inertia-Reset`.
    pub reset: Vec<String>,
    /// `X-Inertia-Infinite-Scroll-Merge-Intent`.
    pub merge_intent: MergeIntent,
    /// `X-Inertia-Except-Once-Props`: once props the client already has.
    pub except_once: Vec<String>,
}

/// What the client asked for, mathematically.
pub struct SpecRequest {
    pub partial: bool,
    pub only: Seq<Seq<char>>,
    pub except: Seq<Seq<char>>,
    pub reset: Seq<Seq<char>>,
    pub merge_intent: MergeIntent,
    pub except_once: Seq<Seq<char>>,
}

impl View for PropRequest {
    type V = SpecRequest;

    open spec fn view(&self) -> SpecRequest {
        SpecRequest {
            partial: self.partial,
            only: strs(self.only@),
            except: strs(self.except@),
            reset: strs(self.reset@),
            merge_intent: self.merge_intent,
            except_once: strs(self.except_once@),
        }
    }
}

impl PropRequest {
    /// A full (non-partial) visit of a client that has no once props.
    pub fn full_visit() -> (r: PropRequest)
        ensures
            !r.partial,
            r.only@.len() == 0 && r.except@.len() == 0 && r.reset@.len() == 0,
            r.except_once@.len() == 0,
            r.merge_intent == MergeIntent::Append,
    {
        PropRequest {
            partial: false,
            only: Vec::new(),
            except: Vec::new(),
            reset: Vec::new(),
            merge_intent: MergeIntent::Append,
            except_once: Vec::new(),
        }
    }
}

/// Why a prop tree could not be resolved.
#[derive(Debug, PartialEq, Eq)]
pub enum ResolveError {
    /// A value prop could not be serialized.
    Serialize { path: String, message: String },
    /// A lazy prop's resolver failed.
    Lazy { path: String, message: String },
    /// A lazy prop that is sent had no resolved value.
    Unresolved { path: String },
}

/// The mathematical form of a [`ResolveError`].
pub enum SpecError {
    Serialize(Seq<char>, Seq<char>),
    Lazy(Seq<char>, Seq<char>),
    Unresolved(Seq<char>),
}

impl ResolveError {
    pub open spec fn model(self) -> SpecError {
        match self {
            ResolveError::Serialize { path, message } => SpecError::Serialize(path@, message@),
            ResolveError::Lazy { path, message } => SpecError::Lazy(path@, message@),
            ResolveError::Unresolved { path } => SpecError::Unresolved(path@),
        }
    }
}

/// The paths below `parent`, relative to it, in order.
pub open spec fn below(paths: Seq<Seq<char>>, parent: Seq<char>) -> Seq<Seq<char>>
    decreases paths.len(),
{
    if paths.len() == 0 {
        Seq::empty()
    } else {
        let before = below(paths.drop_last(), parent);
        match spec_strip_parent(paths.last(), parent) {
            Some(r) => before.push(r),
            None => before,
        }
    }
}

/// Some pattern names `path` or one of its ancestors.
pub open spec fn any_covers(patterns: Seq<Seq<char>>, path: Seq<char>) -> bool {
    exists|i: int| 0 <= i < patterns.len() && spec_covers(#[trigger] patterns[i], path)
}

/// The key of a once prop: its explicit key, else its path.
pub open spec fn once_key(once: Once, path: Seq<char>) -> Seq<char> {
    match once.key {
        Some(k) => k@,
        None => path,
    }
}

/// The `expiresAt` of a once prop, in Unix milliseconds (saturating).
pub open spec fn expires_at(expiry: Option<Expiry>, now: u64) -> SpecJson {
    match expiry {
        None => SpecJson::Null,
        Some(Expiry::InMillis(ttl)) => SpecJson::Number(decimal(
            if now + ttl > u64::MAX { u64::MAX as nat } else { (now + ttl) as nat })),
        Some(Expiry::AtMillis(at)) => SpecJson::Number(decimal(at as nat)),
    }
}

/// The `onceProps` entry of a once prop: `{ prop, expiresAt }`.
pub open spec fn once_json(once: Once, path: Seq<char>, now: u64) -> SpecJson {
    SpecJson::Object(seq![
        (seq!['p', 'r', 'o', 'p'], SpecJson::Text(path)),
        (seq!['e', 'x', 'p', 'i', 'r', 'e', 's', 'A', 't'], expires_at(once.expiry, now)),
    ])
}

/// What to do with a node: leave it out (with the metadata this produces), or include it,
/// whole or narrowed to descendant paths.
pub enum Plan {
    Skip(Seq<SpecEvent>),
    Include(bool, Seq<Seq<char>>),
}

/// The inclusion decision for a prop at `path`.
pub open spec fn plan(kind: Kind, once: Option<Once>, path: Seq<char>, ancestor_requested: bool, req: SpecRequest, now: u64) -> Plan {
    if !req.partial {
        match kind {
            Kind::Optional => Plan::Skip(Seq::empty()),
            Kind::Defer { group } => {
                match once {
                    Some(o) if !o.fresh && req.except_once.contains(once_key(o, path)) =>
                        Plan::Skip(seq![SpecEvent::Once(once_key(o, path), once_json(o, path, now))]),
                    _ => Plan::Skip(seq![SpecEvent::Deferred(group@, path)]),
                }
            },
            _ => Plan::Include(true, Seq::empty()),
        }
    } else if kind is Always {
        Plan::Include(true, Seq::empty())
    } else if any_covers(req.except, path) {
        Plan::Skip(Seq::empty())
    } else {
        let whole = ancestor_requested || req.only.len() == 0 || req.only.contains(path);
        let desc = if whole { Seq::empty() } else { below(req.only, path) };
        if !whole && desc.len() == 0 {
            Plan::Skip(Seq::empty())
        } else {
            Plan::Include(whole, desc)
        }
    }
}

/// The once metadata of an included prop.
pub open spec fn once_events(once: Option<Once>, path: Seq<char>, now: u64) -> Seq<SpecEvent> {
    match once {
        Some(o) => seq![SpecEvent::Once(once_key(o, path), once_json(o, path, now))],
        None => Seq::empty(),
    }
}

/// An included once prop the client already has, and did not ask for explicitly.
pub open spec fn once_skipped(once: Option<Once>, path: Seq<char>, req: SpecRequest) -> bool {
    match once {
        Some(o) => !o.fresh && !(req.partial && req.only.contains(path))
            && req.except_once.contains(once_key(o, path)),
        None => false,
    }
}

/// Apply dot paths that point inside a plain value.
pub open spec fn narrow_leaf(v: SpecJson, path: Seq<char>, desc: Seq<Seq<char>>, kind: Kind, req: SpecRequest) -> SpecJson {
    if !req.partial || kind is Always {
        v
    } else {
        let v1 = if desc.len() > 0 { spec_keep_paths(v, desc) } else { v };
        let ex = below(req.except, path);
        if ex.len() == 0 { v1 } else { spec_remove_paths(v1, ex) }
    }
}

/// `base.key` for each key.
pub open spec fn match_events(base: Seq<char>, keys: Seq<Seq<char>>) -> Seq<SpecEvent> {
    keys.map_values(|k: Seq<char>| SpecEvent::MatchOn(base + seq!['.'] + k))
}

/// The merge and scroll metadata of an included prop.
pub open spec fn merge_events(merge: Option<Merge>, scroll: Option<ScrollMeta>, path: Seq<char>, req: SpecRequest) -> Seq<SpecEvent> {
    let reset = req.reset.contains(path);
    match scroll {
        Some(meta) => {
            let items = path + seq!['.'] + meta.wrapper@;
            let keys = strs(meta.match_on@) + match merge {
                Some(m) => strs(m.match_on@),
                None => Seq::empty(),
            };
            let pre = if reset {
                Seq::empty()
            } else {
                seq![if req.merge_intent == MergeIntent::Append { SpecEvent::Merge(items) } else { SpecEvent::Prepend(items) }]
                    + match_events(items, keys)
            };
            pre.push(SpecEvent::Scroll(path, spec_scroll_json(meta, reset)))
        },
        None => match merge {
            Some(m) => if reset {
                Seq::empty()
            } else {
                seq![match m.strategy {
                    MergeStrategy::Append => SpecEvent::Merge(path),
                    MergeStrategy::Prepend => SpecEvent::Prepend(path),
                    MergeStrategy::Deep => SpecEvent::DeepMerge(path),
                }] + match_events(path, strs(m.match_on@))
            },
            None => Seq::empty(),
        },
    }
}

/// A resolved lazy value, if the resolver with this id ran.
pub open spec fn lazy_value(vals: Seq<Option<Result<JsonValue, String>>>, id: usize) -> Option<Result<JsonValue, String>> {
    if id < vals.len() { vals[id as int] } else { None }
}

/// The value of a prop, with the metadata of its descendants.
pub open spec fn source_value(p: Prop, path: Seq<char>, whole: bool, desc: Seq<Seq<char>>, req: SpecRequest,
    vals: Seq<Option<Result<JsonValue, String>>>, now: u64) -> Result<(SpecJson, Seq<SpecEvent>), SpecError>
    decreases p, 1int,
{
    match p.source {
        Source::Nested(children) => {
            match resolve_level(children.entries@, path, whole && req.partial, req, vals, now) {
                Ok((es, ev)) => Ok((SpecJson::Object(es), ev)),
                Err(e) => Err(e),
            }
        },
        Source::Value(Ok(v)) => Ok((narrow_leaf(v.model(), path, desc, p.kind, req), Seq::empty())),
        Source::Value(Err(m)) => Err(SpecError::Serialize(path, m@)),
        Source::Lazy(id) => match lazy_value(vals, id) {
            Some(Ok(v)) => Ok((narrow_leaf(v.model(), path, desc, p.kind, req), Seq::empty())),
            Some(Err(m)) => Err(SpecError::Lazy(path, m@)),
            None => Err(SpecError::Unresolved(path)),
        },
    }
}

/// Resolve one prop at `path`: its value when it is sent, and the metadata it produces.
pub open spec fn resolve_prop(p: Prop, path: Seq<char>, ancestor_requested: bool, req: SpecRequest,
    vals: Seq<Option<Result<JsonValue, String>>>, now: u64) -> Result<(Option<SpecJson>, Seq<SpecEvent>), SpecError>
    decreases p, 2int,
{
    match plan(p.kind, p.once, path, ancestor_requested, req, now) {
        Plan::Skip(ev) => Ok((None, ev)),
        Plan::Include(whole, desc) => {
            let oe = once_events(p.once, path, now);
            if once_skipped(p.once, path, req) {
                Ok((None, oe))
            } else {
                match source_value(p, path, whole, desc, req, vals, now) {
                    Ok((v, ev)) => Ok((Some(v), oe + ev + merge_events(p.merge, p.scroll, path, req))),
                    Err(e) => Err(e),
                }
            }
        },
    }
}

/// Resolve a group of props below `prefix`: the sent entries and the metadata, in order.
pub open spec fn resolve_level(m: Seq<(String, Prop)>, prefix: Seq<char>, ancestor_requested: bool, req: SpecRequest,
    vals: Seq<Option<Result<JsonValue, String>>>, now: u64) -> Result<(Seq<(Seq<char>, SpecJson)>, Seq<SpecEvent>), SpecError>
    decreases m, 0int,
{
    if m.len() == 0 {
        Ok((Seq::empty(), Seq::empty()))
    } else {
        match resolve_level(m.drop_last(), prefix, ancestor_requested, req, vals, now) {
            Err(e) => Err(e),
            Ok((es, ev)) => {
                let (k, p) = m.last();
                match resolve_prop(p, spec_child_path(prefix, k@), ancestor_requested, req, vals, now) {
                    Err(e) => Err(e),
                    Ok((v, ev2)) => Ok((
                        match v {
                            Some(x) => es.push((k@, x)),
                            None => es,
                        },
                        ev + ev2,
                    )),
                }
            },
        }
    }
}

/// The model of an optional value.
pub open spec fn opt_model(v: Option<JsonValue>) -> Option<SpecJson> {
    match v {
        Some(x) => Some(x.model()),
        None => None,
    }
}

/// `a.b`: two path parts joined by a dot.
pub open spec fn dotted(a: Seq<char>, b: Seq<char>) -> Seq<char> {
    a + seq!['.'] + b
}

fn join_dot(a: &str, b: &str) -> (r: String)
    ensures
        r@ == dotted(a@, b@),
{
    let mut r = a.to_owned();
    push_char(&mut r, '.');
    r.append(b);
    r
}

pub(crate) fn contains_str(v: &Vec<String>, s: &str) -> (r: bool)
    ensures
        r == strs(v@).contains(s@),
{
    let mut i: usize = 0;
    while i < v.len()
        invariant
            i <= v@.len(),
            forall|j: int| 0 <= j < i ==> v@[j]@ != s@,
        decreases v@.len() - i,
    {
        if str_eq(v[i].as_str(), s) {
            assert(strs(v@)[i as int] == s@);
            return true;
        }
        i = i + 1;
    }
    assert(!strs(v@).contains(s@)) by {
        if strs(v@).contains(s@) {
            let j = choose|j: int| 0 <= j < strs(v@).len() && strs(v@)[j] == s@;
            assert(v@[j]@ == s@);
        }
    }
    false
}

fn any_covers_exec(patterns: &Vec<String>, path: &str) -> (r: bool)
    ensures
        r == any_covers(strs(patterns@), path@),
{
    let mut i: usize = 0;
    while i < patterns.len()
        invariant
            i <= patterns@.len(),
            forall|j: int| 0 <= j < i ==> !spec_covers(patterns@[j]@, path@),
        decreases patterns@.len() - i,
    {
        if covers(patterns[i].as_str(), path) {
            assert(spec_covers(strs(patterns@)[i as int], path@));
            return true;
        }
        i = i + 1;
    }
    assert(!any_covers(strs(patterns@), path@)) by {
        if any_covers(strs(patterns@), path@) {
            let j = choose|j: int| 0 <= j < strs(patterns@).len() && spec_covers(#[trigger] strs(patterns@)[j], path@);
            assert(!spec_covers(patterns@[j]@, path@));
        }
    }
    false
}

fn below_exec(paths: &Vec<String>, parent: &str) -> (r: Vec<String>)
    ensures
        strs(r@) == below(strs(paths@), parent@),
{
    let mut out: Vec<String> = Vec::new();
    let mut i: usize = 0;
    assert(strs(out@) =~= below(strs(paths@).subrange(0, 0), parent@));
    while i < paths.len()
        invariant
            i <= paths@.len(),
            strs(out@) == below(strs(paths@).subrange(0, i as int), parent@),
        decreases paths@.len() - i,
    {
        let ghost before = out@;
        assert(strs(paths@).subrange(0, i + 1).drop_last() == strs(paths@).subrange(0, i as int));
        assert(strs(paths@).subrange(0, i + 1).last() == paths@[i as int]@);
        match strip_parent(paths[i].as_str(), parent) {
            Some(r) => {
                out.push(r);
                assert(strs(out@) =~= strs(before).push(out@.last()@));
            },
            None => {},
        }
        i = i + 1;
    }
    assert(strs(paths@).subrange(0, paths@.len() as int) == strs(paths@));
    out
}

fn once_key_exec(o: &Once, path: &str) -> (r: String)
    ensures
        r@ == once_key(*o, path@),
{
    match &o.key {
        Some(k) => k.clone(),
        None => path.to_owned(),
    }
}

fn expires_json(expiry: &Option<Expiry>, now: u64) -> (r: JsonValue)
    ensures
        r.model() == expires_at(*expiry, now),
{
    match expiry {
        None => JsonValue::Null,
        Some(Expiry::InMillis(ttl)) => {
            let t = if now > u64::MAX - *ttl { u64::MAX } else { now + *ttl };
            JsonValue::Number(to_decimal(t))
        },
        Some(Expiry::AtMillis(at)) => JsonValue::Number(to_decimal(*at)),
    }
}

fn once_json_exec(o: &Once, path: &str, now: u64) -> (r: JsonValue)
    ensures
        r.model() == once_json(*o, path@, now),
{
    let mut entries: Vec<(String, JsonValue)> = Vec::new();
    proof {
        reveal_strlit("prop");
        reveal_strlit("expiresAt");
    }
    assert(model_entries(entries@) == Seq::<(Seq<char>, SpecJson)>::empty());
    assert("prop"@ =~= seq!['p', 'r', 'o', 'p']);
    assert("expiresAt"@ =~= seq!['e', 'x', 'p', 'i', 'r', 'e', 's', 'A', 't']);
    push_entry(&mut entries, "prop".to_owned(), JsonValue::Text(path.to_owned()));
    push_entry(&mut entries, "expiresAt".to_owned(), expires_json(&o.expiry, now));
    assert(model_entries(entries@) =~= once_json(*o, path@, now)->Object_0);
    JsonValue::Object(entries)
}

fn push_event(events: &mut Vec<Event>, e: Event)
    ensures
        events_model(final(events)@) == events_model(old(events)@).push(e.model()),
{
    let ghost before = events@;
    events.push(e);
    assert(events_model(events@) =~= events_model(before).push(e.model()));
}

fn push_matches(events: &mut Vec<Event>, base: &str, keys: &Vec<String>)
    ensures
        events_model(final(events)@) == events_model(old(events)@) + match_events(base@, strs(keys@)),
{
    let ghost e0 = events_model(events@);
    let mut i: usize = 0;
    while i < keys.len()
        invariant
            i <= keys@.len(),
            events_model(events@) == e0 + match_events(base@, strs(keys@).subrange(0, i as int)),
        decreases keys@.len() - i,
    {
        let item = join_dot(base, keys[i].as_str());
        push_event(events, Event::MatchOn(item));
        assert(match_events(base@, strs(keys@).subrange(0, i + 1)) =~= match_events(base@, strs(keys@).subrange(0, i as int)).push(SpecEvent::MatchOn(dotted(base@, keys@[i as int]@))));
        i = i + 1;
    }
    assert(strs(keys@).subrange(0, keys@.len() as int) == strs(keys@));
}

/// What to do with a node, as decided for a request.
pub enum Decision {
    Skip(Vec<Event>),
    Include(bool, Vec<String>),
}

impl Decision {
    pub open spec fn model(self) -> Plan {
        match self {
            Decision::Skip(e) => Plan::Skip(events_model(e@)),
            Decision::Include(w, d) => Plan::Include(w, strs(d@)),
        }
    }
}

fn no_events() -> (r: Vec<Event>)
    ensures
        events_model(r@) == Seq::<SpecEvent>::empty(),
{
    let r: Vec<Event> = Vec::new();
    assert(events_model(r@) =~= Seq::<SpecEvent>::empty());
    r
}

fn one_event(e: Event) -> (r: Vec<Event>)
    ensures
        events_model(r@) == seq![e.model()],
{
    let mut r: Vec<Event> = Vec::new();
    r.push(e);
    assert(events_model(r@) =~= seq![e.model()]);
    r
}

fn no_paths() -> (r: Vec<String>)
    ensures
        strs(r@) == Seq::<Seq<char>>::empty(),
{
    let r: Vec<String> = Vec::new();
    assert(strs(r@) =~= Seq::<Seq<char>>::empty());
    r
}

fn decide(kind: &Kind, once: &Option<Once>, path: &str, ancestor_requested: bool, req: &PropRequest, now: u64) -> (d: Decision)
    ensures
        d.model() == plan(*kind, *once, path@, ancestor_requested, req@, now),
{
    if !req.partial {
        match kind {
            Kind::Optional => Decision::Skip(no_events()),
            Kind::Defer { group } => {
                if let Some(o) = once {
                    if !o.fresh {
                        let key = once_key_exec(o, path);
                        if contains_str(&req.except_once, key.as_str()) {
                            let j = once_json_exec(o, path, now);
                            return Decision::Skip(one_event(Event::Once(key, j)));
                        }
                    }
                }
                Decision::Skip(one_event(Event::Deferred(group.clone(), path.to_owned())))
            },
            _ => Decision::Include(true, no_paths()),
        }
    } else if matches!(kind, Kind::Always) {
        Decision::Include(true, no_paths())
    } else if any_covers_exec(&req.except, path) {
        Decision::Skip(no_events())
    } else {
        let whole = ancestor_requested || req.only.len() == 0 || contains_str(&req.only, path);
        let desc = if whole { no_paths() } else { below_exec(&req.only, path) };
        if !whole && desc.len() == 0 {
            Decision::Skip(no_events())
        } else {
            Decision::Include(whole, desc)
        }
    }
}

fn once_skipped_exec(once: &Option<Once>, path: &str, req: &PropRequest) -> (r: bool)
    ensures
        r == once_skipped(*once, path@, req@),
{
    match once {
        Some(o) => {
            if o.fresh || (req.partial && contains_str(&req.only, path)) {
                false
            } else {
                let key = once_key_exec(o, path);
                contains_str(&req.except_once, key.as_str())
            }
        },
        None => false,
    }
}

fn narrow_leaf_exec(v: JsonValue, path: &str, desc: &Vec<String>, kind: &Kind, req: &PropRequest) -> (r: JsonValue)
    ensures
        r.model() == narrow_leaf(v.model(), path@, strs(desc@), *kind, req@),
{
    if !req.partial || matches!(kind, Kind::Always) {
        return v;
    }
    let v1 = if desc.len() > 0 { keep_paths(v, desc) } else { v };
    let ex = below_exec(&req.except, path);
    if ex.len() == 0 {
        v1
    } else {
        remove_paths(v1, &ex)
    }
}

fn merge_events_exec(merge: &Option<Merge>, scroll: &Option<ScrollMeta>, path: &str, req: &PropRequest, events: &mut Vec<Event>)
    ensures
        events_model(final(events)@) == events_model(old(events)@) + merge_events(*merge, *scroll, path@, req@),
{
    let ghost e0 = events_model(events@);
    let reset = contains_str(&req.reset, path);
    match scroll {
        Some(meta) => {
            let ghost keys = strs(meta.match_on@) + match merge {
                Some(m) => strs(m.match_on@),
                None => Seq::empty(),
            };
            if !reset {
                let items = join_dot(path, meta.wrapper.as_str());
                match req.merge_intent {
                    MergeIntent::Append => push_event(events, Event::Merge(items.clone())),
                    MergeIntent::Prepend => push_event(events, Event::Prepend(items.clone())),
                }
                let ghost e1 = events_model(events@);
                push_matches(events, items.as_str(), &meta.match_on);
                let ghost e2 = events_model(events@);
                match merge {
                    Some(m) => {
                        push_matches(events, items.as_str(), &m.match_on);
                        assert(match_events(items@, keys) =~= match_events(items@, strs(meta.match_on@)) + match_events(items@, strs(m.match_on@)));
                    },
                    None => {
                        assert(match_events(items@, keys) =~= match_events(items@, strs(meta.match_on@)));
                    },
                }
                assert(events_model(events@) =~= e1 + match_events(items@, keys));
            }
            let ghost e3 = events_model(events@);
            push_event(events, Event::Scroll(path.to_owned(), meta.to_json(reset)));
            assert(events_model(events@) =~= e0 + merge_events(*merge, *scroll, path@, req@));
        },
        None => match merge {
            Some(m) => {
                if !reset {
                    match m.strategy {
                        MergeStrategy::Append => push_event(events, Event::Merge(path.to_owned())),
                        MergeStrategy::Prepend => push_event(events, Event::Prepend(path.to_owned())),
                        MergeStrategy::Deep => push_event(events, Event::DeepMerge(path.to_owned())),
                    }
                    push_matches(events, path, &m.match_on);
                }
                assert(events_model(events@) =~= e0 + merge_events(*merge, *scroll, path@, req@));
            },
            None => {
                assert(events_model(events@) =~= e0 + merge_events(*merge, *scroll, path@, req@));
            },
        },
    }
}

fn lazy_result(vals: &Vec<Option<Result<JsonValue, String>>>, id: usize) -> (r: Option<Result<JsonValue, String>>)
    ensures
        match lazy_value(vals@, id) {
            Some(Ok(v)) => r matches Some(Ok(w)) && w.model() == v.model(),
            Some(Err(m)) => r matches Some(Err(n)) && n@ == m@,
            None => r is None,
        },
{
    if id < vals.len() {
        match &vals[id] {
            Some(Ok(v)) => Some(Ok(v.deep_clone())),
            Some(Err(m)) => Some(Err(m.clone())),
            None => None,
        }
    } else {
        None
    }
}

/// If a prefix of the entries fails, the whole group fails with the same error.
proof fn lemma_level_prefix_err(m: Seq<(String, Prop)>, j: int, prefix: Seq<char>, anc: bool, req: SpecRequest,
    vals: Seq<Option<Result<JsonValue, String>>>, now: u64)
    requires
        0 <= j <= m.len(),
        resolve_level(m.subrange(0, j), prefix, anc, req, vals, now) is Err,
    ensures
        resolve_level(m, prefix, anc, req, vals, now) == resolve_level(m.subrange(0, j), prefix, anc, req, vals, now),
    decreases m.len(),
{
    if j == m.len() {
        assert(m.subrange(0, j) == m);
    } else {
        assert(m.drop_last().subrange(0, j) == m.subrange(0, j));
        lemma_level_prefix_err(m.drop_last(), j, prefix, anc, req, vals, now);
    }
}

#[verifier::rlimit(50)]
fn resolve_prop_exec(p: Prop, path: String, ancestor_requested: bool, req: &PropRequest,
    vals: &Vec<Option<Result<JsonValue, String>>>, now: u64, events: &mut Vec<Event>) -> (r: Result<Option<JsonValue>, ResolveError>)
    ensures
        match resolve_prop(p, path@, ancestor_requested, req@, vals@, now) {
            Ok((v, ev)) => r matches Ok(x) && opt_model(x) == v
                && events_model(final(events)@) == events_model(old(events)@) + ev,
            Err(e) => r matches Err(x) && x.model() == e,
        },
    decreases p, 1int,
{
    let ghost p0 = p;
    let ghost e0 = events_model(events@);
    let Prop { source, kind, merge, scroll, once } = p;
    match decide(&kind, &once, path.as_str(), ancestor_requested, req, now) {
        Decision::Skip(ev) => {
            let ghost evm = events_model(ev@);
            let mut ev = ev;
            let ghost before = events@;
            events.append(&mut ev);
            assert(events_model(events@) =~= events_model(before) + evm);
            Ok(None)
        },
        Decision::Include(whole, desc) => {
            match &once {
                Some(o) => {
                    let k = once_key_exec(o, path.as_str());
                    let j = once_json_exec(o, path.as_str(), now);
                    push_event(events, Event::Once(k, j));
                },
                None => {},
            }
            assert(events_model(events@) =~= e0 + once_events(once, path@, now));
            if once_skipped_exec(&once, path.as_str(), req) {
                return Ok(None);
            }
            let ghost e1 = events_model(events@);
            let value = match source {
                Source::Nested(children) => {
                    assert(decreases_to!(p0 => children)) by {
                        assert(decreases_to!(p0 => p0.source));
                        assert(decreases_to!(p0.source => p0.source->Nested_0));
                    }
                    match resolve_level_exec(children, path.as_str(), whole && req.partial, req, vals, now, events) {
                        Ok(es) => JsonValue::Object(es),
                        Err(e) => {
                            return Err(e);
                        },
                    }
                },
                Source::Value(Ok(v)) => narrow_leaf_exec(v, path.as_str(), &desc, &kind, req),
                Source::Value(Err(m)) => {
                    return Err(ResolveError::Serialize { path, message: m });
                },
                Source::Lazy(id) => match lazy_result(vals, id) {
                    Some(Ok(v)) => narrow_leaf_exec(v, path.as_str(), &desc, &kind, req),
                    Some(Err(m)) => {
                        return Err(ResolveError::Lazy { path, message: m });
                    },
                    None => {
                        return Err(ResolveError::Unresolved { path });
                    },
                },
            };
            let ghost e2 = events_model(events@);
            merge_events_exec(&merge, &scroll, path.as_str(), req, events);
            proof {
                let sv = source_value(p0, path@, whole, strs(desc@), req@, vals@, now);
                assert(sv matches Ok((x, ev)) && x == value.model() && e2 == e1 + ev);
                assert(events_model(events@) =~= e0 + once_events(once, path@, now) + sv->Ok_0.1 + merge_events(merge, scroll, path@, req@));
            }
            Ok(Some(value))
        },
    }
}

#[verifier::loop_isolation(false)]
fn resolve_level_exec(props: Props, prefix: &str, ancestor_requested: bool, req: &PropRequest,
    vals: &Vec<Option<Result<JsonValue, String>>>, now: u64, events: &mut Vec<Event>) -> (r: Result<Vec<(String, JsonValue)>, ResolveError>)
    ensures
        match resolve_level(props.entries@, prefix@, ancestor_requested, req@, vals@, now) {
            Ok((es, ev)) => r matches Ok(x) && model_entries(x@) == es
                && events_model(final(events)@) == events_model(old(events)@) + ev,
            Err(e) => r matches Err(x) && x.model() == e,
        },
    decreases props, 0int,
{
    let ghost props0 = props;
    let ghost orig = props.entries@;
    let ghost ev0 = events_model(events@);
    let mut src = props.entries;
    let mut out: Vec<(String, JsonValue)> = Vec::new();
    let ghost mut i: int = 0;
    assert(orig.subrange(0, 0) =~= Seq::<(String, Prop)>::empty());
    assert(ev0 + Seq::<SpecEvent>::empty() =~= ev0);
    while src.len() > 0
        invariant
            0 <= i <= orig.len(),
            orig.len() == i + src@.len(),
            src@ == orig.subrange(i, orig.len() as int),
            resolve_level(orig.subrange(0, i), prefix@, ancestor_requested, req@, vals@, now) matches Ok((es, ev))
                && model_entries(out@) == es && events_model(events@) == ev0 + ev,
        decreases src@.len(),
    {
        let (k, p) = src.remove(0);
        assert(orig[i] == (k, p));
        assert(orig.subrange(0, i + 1).drop_last() == orig.subrange(0, i));
        let ghost ev_before = events_model(events@);
        let path = child_path(prefix, k.as_str());
        assert(decreases_to!(props0 => p)) by {
            assert(decreases_to!(props0 => props0.entries));
            assert(decreases_to!(props0.entries => props0.entries@));
            assert(decreases_to!(props0.entries@ => props0.entries@[i]));
            assert(decreases_to!(props0.entries@[i] => props0.entries@[i].1));
        }
        match resolve_prop_exec(p, path, ancestor_requested, req, vals, now, events) {
            Ok(Some(v)) => {
                push_entry(&mut out, k, v);
            },
            Ok(None) => {},
            Err(e) => {
                proof {
                    lemma_level_prefix_err(orig, i + 1, prefix@, ancestor_requested, req@, vals@, now);
                }
                return Err(e);
            },
        }
        proof {
            let (es, ev) = resolve_level(orig.subrange(0, i), prefix@, ancestor_requested, req@, vals@, now)->Ok_0;
            let ev2 = resolve_prop(p, spec_child_path(prefix@, k@), ancestor_requested, req@, vals@, now)->Ok_0.1;
            assert(events_model(events@) =~= ev0 + (ev + ev2));
            i = i + 1;
        }
    }
    assert(orig.subrange(0, orig.len() as int) == orig);
    Ok(out)
}

impl Props {
    /// Resolve the tree for a request: filter by kind and partial reload headers, take the
    /// values of the lazy props that are sent from `vals` (by resolver id), and collect the
    /// merge, deferred, scroll and once metadata. `now` is the time in Unix milliseconds.
    pub fn resolve(self, req: &PropRequest, vals: Vec<Option<Result<JsonValue, String>>>, now: u64) -> (r: Result<Resolved, ResolveError>)
        ensures
            match resolve_level(self.entries@, Seq::empty(), false, req@, vals@, now) {
                Ok((es, ev)) => r matches Ok(x) && model_entries(x.props@) == es
                    && x.meta() == fold_events(empty_meta(), ev),
                Err(e) => r matches Err(x) && x.model() == e,
            },
    {
        let mut events: Vec<Event> = Vec::new();
        proof {
            reveal_strlit("");
        }
        assert(""@ =~= Seq::<char>::empty());
        assert(events_model(events@) =~= Seq::<SpecEvent>::empty());
        match resolve_level_exec(self, "", false, req, &vals, now, &mut events) {
            Ok(es) => {
                proof {
                    let ev = resolve_level(self.entries@, Seq::empty(), false, req@, vals@, now)->Ok_0.1;
                    assert(events_model(events@) =~= ev);
                }
                Ok(Resolved::from_events(es, events))
            },
            Err(e) => Err(e),
        }
    }
}

/// The resolver ids whose values resolving a prop needs: those of the lazy props that are
/// sent, in traversal order.
pub open spec fn needed_prop(p: Prop, path: Seq<char>, ancestor_requested: bool, req: SpecRequest, now: u64) -> Seq<usize>
    decreases p, 1int,
{
    match plan(p.kind, p.once, path, ancestor_requested, req, now) {
        Plan::Skip(_) => Seq::empty(),
        Plan::Include(whole, _) => if once_skipped(p.once, path, req) {
            Seq::empty()
        } else {
            match p.source {
                Source::Lazy(id) => seq![id],
                Source::Nested(children) => needed_level(children.entries@, path, whole && req.partial, req, now),
                Source::Value(_) => Seq::empty(),
            }
        },
    }
}

/// The resolver ids whose values resolving a group of props needs.
pub open spec fn needed_level(m: Seq<(String, Prop)>, prefix: Seq<char>, ancestor_requested: bool, req: SpecRequest, now: u64) -> Seq<usize>
    decreases m, 0int,
{
    if m.len() == 0 {
        Seq::empty()
    } else {
        needed_level(m.drop_last(), prefix, ancestor_requested, req, now)
            + needed_prop(m.last().1, spec_child_path(prefix, m.last().0@), ancestor_requested, req, now)
    }
}

/// `vals1` and `vals2` agree at every id of `ids`.
pub open spec fn agree_at(ids: Seq<usize>, vals1: Seq<Option<Result<JsonValue, String>>>, vals2: Seq<Option<Result<JsonValue, String>>>) -> bool {
    forall|i: int| 0 <= i < ids.len() ==> lazy_value(vals1, #[trigger] ids[i]) == lazy_value(vals2, ids[i])
}

/// A lazy prop is only computed when it is part of the response: resolving a prop reads the
/// resolved values of the ids in [`needed_prop`] and of no others.
pub proof fn lemma_prop_reads_only_needed(p: Prop, path: Seq<char>, ancestor_requested: bool, req: SpecRequest,
    vals1: Seq<Option<Result<JsonValue, String>>>, vals2: Seq<Option<Result<JsonValue, String>>>, now: u64)
    requires
        agree_at(needed_prop(p, path, ancestor_requested, req, now), vals1, vals2),
    ensures
        resolve_prop(p, path, ancestor_requested, req, vals1, now) == resolve_prop(p, path, ancestor_requested, req, vals2, now),
    decreases p, 1int,
{
    match plan(p.kind, p.once, path, ancestor_requested, req, now) {
        Plan::Skip(_) => {},
        Plan::Include(whole, desc) => {
            if !once_skipped(p.once, path, req) {
                match p.source {
                    Source::Lazy(id) => {
                        assert(needed_prop(p, path, ancestor_requested, req, now)[0] == id);
                    },
                    Source::Nested(children) => {
                        lemma_level_reads_only_needed(children.entries@, path, whole && req.partial, req, vals1, vals2, now);
                    },
                    Source::Value(_) => {},
                }
            }
        },
    }
}

/// A lazy prop is only computed when it is part of the response: resolving a group of props
/// reads the resolved values of the ids in [`needed_level`] and of no others.
pub proof fn lemma_level_reads_only_needed(m: Seq<(String, Prop)>, prefix: Seq<char>, ancestor_requested: bool, req: SpecRequest,
    vals1: Seq<Option<Result<JsonValue, String>>>, vals2: Seq<Option<Result<JsonValue, String>>>, now: u64)
    requires
        agree_at(needed_level(m, prefix, ancestor_requested, req, now), vals1, vals2),
    ensures
        resolve_level(m, prefix, ancestor_requested, req, vals1, now) == resolve_level(m, prefix, ancestor_requested, req, vals2, now),
    decreases m, 0int,
{
    if m.len() > 0 {
        let a = needed_level(m.drop_last(), prefix, ancestor_requested, req, now);
        let path = spec_child_path(prefix, m.last().0@);
        let b = needed_prop(m.last().1, path, ancestor_requested, req, now);
        assert forall|i: int| 0 <= i < a.len() implies lazy_value(vals1, #[trigger] a[i]) == lazy_value(vals2, a[i]) by {
            assert((a + b)[i] == a[i]);
        }
        assert forall|i: int| 0 <= i < b.len() implies lazy_value(vals1, #[trigger] b[i]) == lazy_value(vals2, b[i]) by {
            assert((a + b)[a.len() + i] == b[i]);
        }
        lemma_level_reads_only_needed(m.drop_last(), prefix, ancestor_requested, req, vals1, vals2, now);
        lemma_prop_reads_only_needed(m.last().1, path, ancestor_requested, req, vals1, vals2, now);
    }
}

fn needed_prop_exec(p: &Prop, path: &str, ancestor_requested: bool, req: &PropRequest, now: u64, out: &mut Vec<usize>)
    ensures
        final(out)@ == old(out)@ + needed_prop(*p, path@, ancestor_requested, req@, now),
    decreases *p, 1int,
{
    match decide(&p.kind, &p.once, path, ancestor_requested, req, now) {
        Decision::Skip(_) => {
            assert(old(out)@ + Seq::<usize>::empty() =~= old(out)@);
        },
        Decision::Include(whole, _) => {
            if once_skipped_exec(&p.once, path, req) {
                assert(old(out)@ + Seq::<usize>::empty() =~= old(out)@);
                return;
            }
            match &p.source {
                Source::Lazy(id) => {
                    out.push(*id);
                    assert(out@ =~= old(out)@ + seq![*id]);
                },
                Source::Nested(children) => {
                    assert(decreases_to!(*p => children)) by {
                        assert(decreases_to!(*p => p.source));
                        assert(decreases_to!(p.source => p.source->Nested_0));
                    }
                    needed_level_exec(children, path, whole && req.partial, req, now, out);
                },
                Source::Value(_) => {
                    assert(old(out)@ + Seq::<usize>::empty() =~= old(out)@);
                },
            }
        },
    }
}

fn needed_level_exec(props: &Props, prefix: &str, ancestor_requested: bool, req: &PropRequest, now: u64, out: &mut Vec<usize>)
    ensures
        final(out)@ == old(out)@ + needed_level(props.entries@, prefix@, ancestor_requested, req@, now),
    decreases *props, 0int,
{
    let ghost o0 = out@;
    let mut i: usize = 0;
    assert(props.entries@.subrange(0, 0) =~= Seq::<(String, Prop)>::empty());
    assert(o0 + Seq::<usize>::empty() =~= o0);
    while i < props.entries.len()
        invariant
            i <= props.entries@.len(),
            out@ == o0 + needed_level(props.entries@.subrange(0, i as int), prefix@, ancestor_requested, req@, now),
        decreases props.entries@.len() - i,
    {
        let path = child_path(prefix, props.entries[i].0.as_str());
        assert(decreases_to!(*props => props.entries@[i as int].1)) by {
            assert(decreases_to!(*props => props.entries));
            assert(decreases_to!(props.entries => props.entries@));
            assert(decreases_to!(props.entries@ => props.entries@[i as int]));
            assert(decreases_to!(props.entries@[i as int] => props.entries@[i as int].1));
        }
        let ghost before = out@;
        needed_prop_exec(&props.entries[i].1, path.as_str(), ancestor_requested, req, now, out);
        assert(props.entries@.subrange(0, i + 1).drop_last() == props.entries@.subrange(0, i as int));
        assert(out@ =~= o0 + needed_level(props.entries@.subrange(0, i + 1), prefix@, ancestor_requested, req@, now));
        i = i + 1;
    }
    assert(props.entries@.subrange(0, props.entries@.len() as int) == props.entries@);
}

impl Props {
    /// The ids of the lazy props that resolving for `req` needs, in traversal order: the
    /// resolvers to run before [`Props::resolve`] (the values of no other ids are read).
    pub fn lazy_needed(&self, req: &PropRequest, now: u64) -> (r: Vec<usize>)
        ensures
            r@ == needed_level(self.entries@, Seq::empty(), false, req@, now),
    {
        let mut out: Vec<usize> = Vec::new();
        proof {
            reveal_strlit("");
        }
        assert(""@ =~= Seq::<char>::empty());
        needed_level_exec(self, "", false, req, now, &mut out);
        assert(out@ =~= needed_level(self.entries@, Seq::empty(), false, req@, now));
        out
    }
}

/// On a full visit an optional prop is not sent and produces no metadata.
pub proof fn lemma_optional_not_on_full_visit(p: Prop, path: Seq<char>, ancestor_requested: bool, req: SpecRequest,
    vals: Seq<Option<Result<JsonValue, String>>>, now: u64)
    requires
        !req.partial,
        p.kind is Optional,
    ensures
        resolve_prop(p, path, ancestor_requested, req, vals, now) == Ok::<(Option<SpecJson>, Seq<SpecEvent>), SpecError>((None, Seq::empty())),
{
}

/// On a full visit a deferred prop (unless the client already has it as a once prop) is not
/// sent, and is announced in its group.
pub proof fn lemma_deferred_announced(p: Prop, path: Seq<char>, ancestor_requested: bool, req: SpecRequest,
    vals: Seq<Option<Result<JsonValue, String>>>, now: u64)
    requires
        !req.partial,
        p.kind is Defer,
        p.once is None,
    ensures
        resolve_prop(p, path, ancestor_requested, req, vals, now)
            == Ok::<(Option<SpecJson>, Seq<SpecEvent>), SpecError>((None, seq![SpecEvent::Deferred(p.kind->group@, path)])),
{
}

/// On a full visit a default or always prop that resolves is sent.
pub proof fn lemma_sent_on_full_visit(p: Prop, path: Seq<char>, ancestor_requested: bool, req: SpecRequest,
    vals: Seq<Option<Result<JsonValue, String>>>, now: u64)
    requires
        !req.partial,
        p.kind is Default || p.kind is Always,
        p.once is None,
    ensures
        resolve_prop(p, path, ancestor_requested, req, vals, now) is Ok
            ==> resolve_prop(p, path, ancestor_requested, req, vals, now)->Ok_0.0 is Some,
{
}

/// An always prop that resolves is sent on partial reloads too, whatever they ask for.
pub proof fn lemma_always_sent(p: Prop, path: Seq<char>, ancestor_requested: bool, req: SpecRequest,
    vals: Seq<Option<Result<JsonValue, String>>>, now: u64)
    requires
        p.kind is Always,
        p.once is None,
    ensures
        resolve_prop(p, path, ancestor_requested, req, vals, now) is Ok
            ==> resolve_prop(p, path, ancestor_requested, req, vals, now)->Ok_0.0 is Some,
{
}

/// On a partial reload, a prop (other than an always prop) that an `except` path covers is
/// not sent and produces no metadata.
pub proof fn lemma_except_wins(p: Prop, path: Seq<char>, ancestor_requested: bool, req: SpecRequest,
    vals: Seq<Option<Result<JsonValue, String>>>, now: u64)
    requires
        req.partial,
        !(p.kind is Always),
        any_covers(req.except, path),
    ensures
        resolve_prop(p, path, ancestor_requested, req, vals, now) == Ok::<(Option<SpecJson>, Seq<SpecEvent>), SpecError>((None, Seq::empty())),
{
}

/// On a full visit, a once prop the client already has is not resolved again; its once
/// entry is still listed.
pub proof fn lemma_once_kept_by_client(p: Prop, path: Seq<char>, ancestor_requested: bool, req: SpecRequest,
    vals: Seq<Option<Result<JsonValue, String>>>, now: u64)
    requires
        !req.partial,
        p.kind is Default || p.kind is Defer,
        p.once matches Some(o) && !o.fresh && req.except_once.contains(once_key(o, path)),
    ensures
        resolve_prop(p, path, ancestor_requested, req, vals, now) == Ok::<(Option<SpecJson>, Seq<SpecEvent>), SpecError>(
            (None, seq![SpecEvent::Once(once_key(p.once->0, path), once_json(p.once->0, path, now))])),
{
    let o = p.once->0;
    assert(once_events(p.once, path, now) =~= seq![SpecEvent::Once(once_key(o, path), once_json(o, path, now))]);
}

} // verus!
