//! The event-recording source: a transparent wrapper around a real read-only
//! event-history view that records every queried height and the full list
//! returned for it — the empty list included, so that replay can tell
//! "queried and empty" from "never queried".

use crate::events::{clone_events, ev_get, events_at, events_view, Event, Relayer, SpecEventEntry};
use vstd::prelude::*;

verus! {

/// Every list the accumulator holds agrees with the source it was recorded
/// from: a recorded height answers exactly what a fresh query of the source
/// would answer.
pub open spec fn events_faithful(rec: Seq<SpecEventEntry>, src: Seq<SpecEventEntry>) -> bool {
    forall|h: u64| (#[trigger] ev_get(rec, h)) matches Some(l) ==> l == events_at(src, h)
}

/// A read-only event-history view that records every query it answers.
#[derive(Debug, PartialEq, Eq)]
pub struct RelayerRecorder {
    /// The wrapped real event-history view.
    pub storage: Relayer,
    record: Relayer,
}

impl RelayerRecorder {
    /// The accumulated event mapping.
    pub closed spec fn record_view(&self) -> Seq<SpecEventEntry> {
        self.record@
    }

    /// The wrapped source's contents.
    pub closed spec fn storage_view(&self) -> Seq<SpecEventEntry> {
        self.storage@
    }

    /// The recorder's invariant: the accumulator agrees with the wrapped
    /// source.  It holds from construction on, because the external timeline
    /// does not change during a trial run.
    pub open spec fn wf(&self) -> bool {
        events_faithful(self.record_view(), self.storage_view())
    }

    /// Wraps an event-history view with an empty accumulator.
    pub fn new(storage: Relayer) -> (r: RelayerRecorder)
        ensures
            r.storage_view() == storage@,
            forall|h: u64| #[trigger] ev_get(r.record_view(), h) is None,
            r.wf(),
    {
        RelayerRecorder { storage, record: Relayer::new() }
    }

    /// Queries the wrapped source for the events at a height, transparently,
    /// and records the returned list — even an empty one — against that
    /// height.  Every other height is answered by the accumulator as before.
    pub fn get_events(&mut self, da_height: u64) -> (r: Vec<Event>)
        requires
            old(self).wf(),
        ensures
            final(self).wf(),
            final(self).storage_view() == old(self).storage_view(),
            events_view(r@) == events_at(old(self).storage_view(), da_height),
            ev_get(final(self).record_view(), da_height) == Some(
                events_at(old(self).storage_view(), da_height),
            ),
            forall|h: u64|
                h != da_height ==> #[trigger] ev_get(final(self).record_view(), h) == ev_get(
                    old(self).record_view(),
                    h,
                ),
    {
        let events = self.storage.get_events(da_height);
        let copy = clone_events(&events);
        self.record.add_event(da_height, copy);
        proof {
            assert(ev_get(self.record_view(), da_height) == Some(
                events_at(self.storage_view(), da_height),
            ));
            assert forall|h: u64|
                (#[trigger] ev_get(self.record_view(), h)) is Some implies ev_get(
                self.record_view(),
                h,
            ) == Some(events_at(self.storage_view(), h)) by {
                assert(ev_get(old(self).record_view(), h) is Some ==> ev_get(
                    self.record_view(),
                    h,
                ) == ev_get(old(self).record_view(), h));
            }
        }
        events
    }

    /// The event capability is always available during a trial run.
    pub fn enabled(&self) -> (r: bool)
        ensures
            r,
    {
        true
    }

    /// Consumes the recorder and yields the accumulated event mapping by
    /// value.  Called exactly once, after the trial execution completes;
    /// afterwards the exported mapping is an immutable value of its own.
    pub fn into_prover_relayer(self) -> (r: Relayer)
        ensures
            r@ == self.record_view(),
    {
        self.record
    }
}

} // verus!
