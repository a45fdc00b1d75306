//! The event mapping: recorded event lists keyed by an external height.
//!
//! An event is an opaque record of something that happened at a point of an
//! external timeline.  The mapping stores, for every height that was actually
//! queried during a trial run, the full list returned at that height — the
//! empty list included, so that replay can distinguish "queried and empty"
//! from "never queried".

use crate::bytes::clone_bytes;
use vstd::prelude::*;

verus! {

/// An opaque event payload, observed at some external height.
#[derive(Debug, PartialEq, Eq)]
pub struct Event {
    pub payload: Vec<u8>,
}

impl View for Event {
    type V = Seq<u8>;

    open spec fn view(&self) -> Seq<u8> {
        self.payload@
    }
}

/// Returns an owned copy of an event.
pub fn clone_event(e: &Event) -> (r: Event)
    ensures
        r@ == e@,
{
    Event { payload: clone_bytes(&e.payload) }
}

/// Mathematical model of an event list.
pub open spec fn events_view(s: Seq<Event>) -> Seq<Seq<u8>> {
    s.map(|i: int, e: Event| e@)
}

/// Returns an owned copy of an event list.
pub fn clone_events(v: &Vec<Event>) -> (r: Vec<Event>)
    ensures
        events_view(r@) == events_view(v@),
{
    let mut out: Vec<Event> = Vec::new();
    let mut i: usize = 0;
    while i < v.len()
        invariant
            i <= v@.len(),
            events_view(out@) =~= events_view(v@).take(i as int),
        decreases v@.len() - i,
    {
        out.push(clone_event(&v[i]));
        proof {
            assert(events_view(v@).take(i + 1 as int) =~= events_view(v@).take(i as int).push(
                v@[i as int]@,
            ));
        }
        i = i + 1;
    }
    proof {
        assert(events_view(v@).take(v@.len() as int) =~= events_view(v@));
    }
    out
}

/// One recorded entry: an external height and the event list returned for it.
#[derive(Debug, PartialEq, Eq)]
pub struct EventEntry {
    pub height: u64,
    pub events: Vec<Event>,
}

/// Mathematical model of an [`EventEntry`].
pub ghost struct SpecEventEntry {
    pub height: u64,
    pub events: Seq<Seq<u8>>,
}

impl View for EventEntry {
    type V = SpecEventEntry;

    open spec fn view(&self) -> SpecEventEntry {
        SpecEventEntry { height: self.height, events: events_view(self.events@) }
    }
}

/// The event list that a mapping associates with a height: the first entry
/// recorded for that height, if any.
pub open spec fn ev_get(s: Seq<SpecEventEntry>, height: u64) -> Option<Seq<Seq<u8>>>
    decreases s.len(),
{
    if s.len() == 0 {
        None
    } else if s[0].height == height {
        Some(s[0].events)
    } else {
        ev_get(s.drop_first(), height)
    }
}

/// The event list that a replay query for a height returns: the recorded
/// list, or the empty list for a height that is not in the mapping.
pub open spec fn events_at(s: Seq<SpecEventEntry>, height: u64) -> Seq<Seq<u8>> {
    match ev_get(s, height) {
        Some(l) => l,
        None => Seq::empty(),
    }
}

/// Appending an entry answers exactly the heights that the entry matches and
/// the mapping did not answer before.
pub proof fn lemma_ev_get_push(s: Seq<SpecEventEntry>, e: SpecEventEntry, height: u64)
    ensures
        ev_get(s.push(e), height) == if ev_get(s, height) is Some {
            ev_get(s, height)
        } else if e.height == height {
            Some(e.events)
        } else {
            None
        },
    decreases s.len(),
{
    if s.len() == 0 {
        assert(s.push(e).len() == 1);
        assert(s.push(e)[0] == e);
        assert(s.push(e).drop_first() =~= Seq::<SpecEventEntry>::empty());
        assert(ev_get(s, height) is None);
        if e.height != height {
            assert(ev_get(s.push(e), height) == ev_get(s.push(e).drop_first(), height));
            assert(ev_get(Seq::<SpecEventEntry>::empty(), height) is None);
        }
    } else {
        assert(s.push(e)[0] == s[0]);
        assert(s.push(e).drop_first() =~= s.drop_first().push(e));
        lemma_ev_get_push(s.drop_first(), e, height);
        assert(ev_get(s.push(e), height) == if s[0].height == height {
            Some(s[0].events)
        } else {
            ev_get(s.drop_first().push(e), height)
        });
    }
}

/// The mapping from external heights to recorded event lists, in the order
/// the heights were first queried.  On the producer side it is the recording
/// accumulator; on the replay side it is the event-source view that answers
/// every lookup from the witness alone.
#[derive(Debug, PartialEq, Eq)]
pub struct Relayer {
    pub entries: Vec<EventEntry>,
}

impl View for Relayer {
    type V = Seq<SpecEventEntry>;

    open spec fn view(&self) -> Seq<SpecEventEntry> {
        self.entries@.map(|i: int, e: EventEntry| e@)
    }
}

impl Relayer {
    /// Creates an empty mapping: no height has been queried.
    pub fn new() -> (r: Relayer)
        ensures
            r@ =~= Seq::<SpecEventEntry>::empty(),
            forall|h: u64| #[trigger] ev_get(r@, h) is None,
    {
        Relayer { entries: Vec::new() }
    }

    /// Records an event list for a height.  The first recorded list for a
    /// height is kept: within one trial run the external timeline does not
    /// change, so every list observed for a fixed height is the same.
    pub fn add_event(&mut self, height: u64, events: Vec<Event>)
        ensures
            forall|h: u64|
                #[trigger] ev_get(final(self)@, h) == if ev_get(old(self)@, h) is Some {
                    ev_get(old(self)@, h)
                } else if h == height {
                    Some(events_view(events@))
                } else {
                    None
                },
    {
        let present = self.contains(height);
        if !present {
            let ghost pre = self@;
            let entry = EventEntry { height, events };
            let ghost entry_view = entry@;
            self.entries.push(entry);
            proof {
                assert(self@ =~= pre.push(entry_view));
                assert forall|h: u64| #[trigger]
                    ev_get(self@, h) == if ev_get(pre, h) is Some {
                        ev_get(pre, h)
                    } else if h == height {
                        Some(entry_view.events)
                    } else {
                        None
                    } by {
                    lemma_ev_get_push(pre, entry_view, h);
                }
            }
        }
    }

    /// Reports whether a height has a recorded entry.
    pub fn contains(&self, height: u64) -> (r: bool)
        ensures
            r == (ev_get(self@, height) is Some),
    {
        proof {
            assert(self@.skip(0) =~= self@);
        }
        let mut i: usize = 0;
        while i < self.entries.len()
            invariant
                i <= self.entries@.len(),
                self@ == self.entries@.map(|j: int, e: EventEntry| e@),
                ev_get(self@, height) == ev_get(self@.skip(i as int), height),
            decreases self.entries@.len() - i,
        {
            proof {
                assert(self@.skip(i as int)[0] == self@[i as int]);
                assert(self@.skip(i as int).drop_first() =~= self@.skip(i + 1 as int));
            }
            if self.entries[i].height == height {
                return true;
            }
            i = i + 1;
        }
        proof {
            assert(self@.skip(self.entries@.len() as int) =~= Seq::<SpecEventEntry>::empty());
        }
        false
    }

    /// Returns the events recorded at a height: the recorded list, or the
    /// empty list for a height that was never queried.  Replay lookups are
    /// pure map reads; an absent height means "no events", never an error.
    pub fn get_events(&self, height: u64) -> (r: Vec<Event>)
        ensures
            events_view(r@) == events_at(self@, height),
            (ev_get(self@, height) is None) ==> r@.len() == 0,
    {
        proof {
            assert(self@.skip(0) =~= self@);
        }
        let mut i: usize = 0;
        while i < self.entries.len()
            invariant
                i <= self.entries@.len(),
                self@ == self.entries@.map(|j: int, e: EventEntry| e@),
                ev_get(self@, height) == ev_get(self@.skip(i as int), height),
            decreases self.entries@.len() - i,
        {
            proof {
                assert(self@.skip(i as int)[0] == self@[i as int]);
                assert(self@.skip(i as int).drop_first() =~= self@.skip(i + 1 as int));
            }
            if self.entries[i].height == height {
                return clone_events(&self.entries[i].events);
            }
            i = i + 1;
        }
        proof {
            assert(self@.skip(self.entries@.len() as int) =~= Seq::<SpecEventEntry>::empty());
            assert(events_view(Seq::<Event>::empty()) =~= Seq::<Seq<u8>>::empty());
        }
        Vec::new()
    }

    /// The event capability is always available on the replay side.
    pub fn enabled(&self) -> (r: bool)
        ensures
            r,
    {
        true
    }
}

} // verus!
