//! The page metadata that resolving a prop tree produces: merge, prepend and deep-merge
//! paths, match keys, deferred groups, scroll metadata and once props.

use vstd::prelude::*;
use crate::json::{JsonValue, SpecJson};
use crate::narrow::strs;

verus! {

/// A piece of page metadata produced while resolving, in traversal order.
pub enum SpecEvent {
    Merge(Seq<char>),
    Prepend(Seq<char>),
    DeepMerge(Seq<char>),
    MatchOn(Seq<char>),
    /// A deferred prop: its group and path.
    Deferred(Seq<char>, Seq<char>),
    /// The scroll metadata of the prop at a path.
    Scroll(Seq<char>, SpecJson),
    /// The once entry of the prop with a key.
    Once(Seq<char>, SpecJson),
}

/// Executable form of [`SpecEvent`].
pub enum Event {
    Merge(String),
    Prepend(String),
    DeepMerge(String),
    MatchOn(String),
    Deferred(String, String),
    Scroll(String, JsonValue),
    Once(String, JsonValue),
}

impl Event {
    pub open spec fn model(self) -> SpecEvent {
        match self {
            Event::Merge(p) => SpecEvent::Merge(p@),
            Event::Prepend(p) => SpecEvent::Prepend(p@),
            Event::DeepMerge(p) => SpecEvent::DeepMerge(p@),
            Event::MatchOn(p) => SpecEvent::MatchOn(p@),
            Event::Deferred(g, p) => SpecEvent::Deferred(g@, p@),
            Event::Scroll(p, v) => SpecEvent::Scroll(p@, v.model()),
            Event::Once(k, v) => SpecEvent::Once(k@, v.model()),
        }
    }
}

/// The models of a list of events.
pub open spec fn events_model(s: Seq<Event>) -> Seq<SpecEvent> {
    s.map_values(|e: Event| e.model())
}

/// The metadata of a response, mathematically: lists in the order they were produced, and
/// maps for what is stored by group, path or key (a later entry replaces an earlier one).
pub struct SpecMeta {
    pub merge: Seq<Seq<char>>,
    pub prepend: Seq<Seq<char>>,
    pub deep: Seq<Seq<char>>,
    pub match_on: Seq<Seq<char>>,
    pub deferred: Map<Seq<char>, Seq<Seq<char>>>,
    pub scroll: Map<Seq<char>, SpecJson>,
    pub once: Map<Seq<char>, SpecJson>,
}

/// No metadata at all.
pub open spec fn empty_meta() -> SpecMeta {
    SpecMeta {
        merge: Seq::empty(),
        prepend: Seq::empty(),
        deep: Seq::empty(),
        match_on: Seq::empty(),
        deferred: Map::empty(),
        scroll: Map::empty(),
        once: Map::empty(),
    }
}

/// The paths of a deferred group so far (none when the group is new).
pub open spec fn group_paths(m: Map<Seq<char>, Seq<Seq<char>>>, g: Seq<char>) -> Seq<Seq<char>> {
    if m.dom().contains(g) { m[g] } else { Seq::empty() }
}

/// Record one event.
pub open spec fn apply_event(m: SpecMeta, e: SpecEvent) -> SpecMeta {
    match e {
        SpecEvent::Merge(p) => SpecMeta { merge: m.merge.push(p), ..m },
        SpecEvent::Prepend(p) => SpecMeta { prepend: m.prepend.push(p), ..m },
        SpecEvent::DeepMerge(p) => SpecMeta { deep: m.deep.push(p), ..m },
        SpecEvent::MatchOn(p) => SpecMeta { match_on: m.match_on.push(p), ..m },
        SpecEvent::Deferred(g, p) => SpecMeta { deferred: m.deferred.insert(g, group_paths(m.deferred, g).push(p)), ..m },
        SpecEvent::Scroll(p, v) => SpecMeta { scroll: m.scroll.insert(p, v), ..m },
        SpecEvent::Once(k, v) => SpecMeta { once: m.once.insert(k, v), ..m },
    }
}

/// Record events in order.
pub open spec fn fold_events(m: SpecMeta, es: Seq<SpecEvent>) -> SpecMeta
    decreases es.len(),
{
    if es.len() == 0 {
        m
    } else {
        apply_event(fold_events(m, es.drop_last()), es.last())
    }
}

/// Pairs as a map; a later pair replaces an earlier one with the same key.
pub open spec fn pairs_map(s: Seq<(String, JsonValue)>) -> Map<Seq<char>, SpecJson>
    decreases s.len(),
{
    if s.len() == 0 {
        Map::empty()
    } else {
        pairs_map(s.drop_last()).insert(s.last().0@, s.last().1.model())
    }
}

/// `(group, path)` pairs as a map from each group to its paths, in order.
pub open spec fn groups_map(s: Seq<(String, String)>) -> Map<Seq<char>, Seq<Seq<char>>>
    decreases s.len(),
{
    if s.len() == 0 {
        Map::empty()
    } else {
        let m = groups_map(s.drop_last());
        m.insert(s.last().0@, group_paths(m, s.last().0@).push(s.last().1@))
    }
}

/// Props resolved for one response plus the page metadata they produce.
#[derive(Debug)]
pub struct Resolved {
    /// The props that are sent.
    pub props: Vec<(String, JsonValue)>,
    pub merge_props: Vec<String>,
    pub prepend_props: Vec<String>,
    pub deep_merge_props: Vec<String>,
    pub match_props_on: Vec<String>,
    /// `(group, path)` of each deferred prop, in order.
    pub deferred_props: Vec<(String, String)>,
    /// Pagination metadata of the infinite scroll props in the response, by path.
    pub scroll_props: Vec<(String, JsonValue)>,
    /// Once props in the response (or skipped because the client has them), by key.
    pub once_props: Vec<(String, JsonValue)>,
}

impl Resolved {
    /// The metadata, mathematically.
    pub open spec fn meta(self) -> SpecMeta {
        SpecMeta {
            merge: strs(self.merge_props@),
            prepend: strs(self.prepend_props@),
            deep: strs(self.deep_merge_props@),
            match_on: strs(self.match_props_on@),
            deferred: groups_map(self.deferred_props@),
            scroll: pairs_map(self.scroll_props@),
            once: pairs_map(self.once_props@),
        }
    }

    /// Record one event.
    fn record(&mut self, e: Event)
        ensures
            final(self).meta() == apply_event(old(self).meta(), e.model()),
            final(self).props == old(self).props,
    {
        let ghost m0 = self.meta();
        match e {
            Event::Merge(p) => {
                self.merge_props.push(p);
                assert(strs(self.merge_props@) =~= m0.merge.push(p@));
            },
            Event::Prepend(p) => {
                self.prepend_props.push(p);
                assert(strs(self.prepend_props@) =~= m0.prepend.push(p@));
            },
            Event::DeepMerge(p) => {
                self.deep_merge_props.push(p);
                assert(strs(self.deep_merge_props@) =~= m0.deep.push(p@));
            },
            Event::MatchOn(p) => {
                self.match_props_on.push(p);
                assert(strs(self.match_props_on@) =~= m0.match_on.push(p@));
            },
            Event::Deferred(g, p) => {
                let ghost before = self.deferred_props@;
                self.deferred_props.push((g, p));
                assert(self.deferred_props@.drop_last() == before);
            },
            Event::Scroll(p, v) => {
                let ghost before = self.scroll_props@;
                self.scroll_props.push((p, v));
                assert(self.scroll_props@.drop_last() == before);
            },
            Event::Once(k, v) => {
                let ghost before = self.once_props@;
                self.once_props.push((k, v));
                assert(self.once_props@.drop_last() == before);
            },
        }
    }

    /// The resolved props with the metadata of `events`, recorded in order.
    pub fn from_events(props: Vec<(String, JsonValue)>, events: Vec<Event>) -> (r: Resolved)
        ensures
            r.props == props,
            r.meta() == fold_events(empty_meta(), events_model(events@)),
    {
        let mut r = Resolved {
            props,
            merge_props: Vec::new(),
            prepend_props: Vec::new(),
            deep_merge_props: Vec::new(),
            match_props_on: Vec::new(),
            deferred_props: Vec::new(),
            scroll_props: Vec::new(),
            once_props: Vec::new(),
        };
        assert(r.meta() == empty_meta()) by {
            assert(strs(r.merge_props@) =~= Seq::empty());
            assert(strs(r.prepend_props@) =~= Seq::empty());
            assert(strs(r.deep_merge_props@) =~= Seq::empty());
            assert(strs(r.match_props_on@) =~= Seq::empty());
        }
        let ghost all = events_model(events@);
        let ghost orig = events@;
        let mut src = events;
        let ghost mut i: int = 0;
        assert(all.subrange(0, 0) =~= Seq::<SpecEvent>::empty());
        while src.len() > 0
            invariant
                0 <= i <= orig.len(),
                all == events_model(orig),
                orig.len() == i + src@.len(),
                src@ == orig.subrange(i, orig.len() as int),
                r.props == props,
                r.meta() == fold_events(empty_meta(), all.subrange(0, i)),
            decreases src@.len(),
        {
            let e = src.remove(0);
            assert(orig[i] == e);
            assert(all.subrange(0, i + 1).drop_last() == all.subrange(0, i));
            r.record(e);
            proof {
                i = i + 1;
            }
        }
        assert(all.subrange(0, all.len() as int) == all);
        r
    }
}

} // verus!
