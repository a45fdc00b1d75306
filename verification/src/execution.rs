//! The read trace of a deterministic execution, and the harnesses that
//! perform it against the live sources (trial) or the reconstructed views
//! (replay).
//!
//! The execution engine itself is an opaque external collaborator: what it
//! computes is its own business, and the only thing this subsystem can see
//! of it is the sequence of reads it performs.  A [`Query`] is one such
//! read; a deterministic engine asks the same queries in both runs, so the
//! laws below relate the two runs over one shared query sequence.

use crate::changes::{cs_get, SpecChangeEntry, SpecOp};
use crate::events::{ev_get, events_at, events_view, Event, Relayer, SpecEventEntry};
use crate::relayer_recorder::{events_faithful, RelayerRecorder};
use crate::replay::{spec_replay_get, ReplayStorage};
use crate::storage::{store_get, SpecStoreEntry, StorageError};
use crate::storage_access_recorder::{changes_faithful, op_of, StorageAccessRecorder};
use vstd::prelude::*;

verus! {

/// One read that an execution performs against its two capabilities.
#[derive(Debug, PartialEq, Eq)]
pub enum Query {
    /// Read the value for a (namespace, key) pair.
    StorageRead { column: u32, key: Vec<u8> },
    /// List the events at an external height.
    EventLookup { height: u64 },
}

/// Mathematical model of a [`Query`].
pub ghost enum SpecQuery {
    StorageRead { column: u32, key: Seq<u8> },
    EventLookup { height: u64 },
}

impl View for Query {
    type V = SpecQuery;

    open spec fn view(&self) -> SpecQuery {
        match self {
            Query::StorageRead { column, key } => SpecQuery::StorageRead {
                column: *column,
                key: key@,
            },
            Query::EventLookup { height } => SpecQuery::EventLookup { height: *height },
        }
    }
}

/// Mathematical model of a query sequence.
pub open spec fn script_view(s: Seq<Query>) -> Seq<SpecQuery> {
    s.map(|i: int, q: Query| q@)
}

/// What one read answered: a value (or its absence), or an event list.
#[derive(Debug, PartialEq, Eq)]
pub enum Answer {
    Value(Option<Vec<u8>>),
    Events(Vec<Event>),
}

/// Mathematical model of an [`Answer`].
pub ghost enum SpecAnswer {
    Value(Option<Seq<u8>>),
    Events(Seq<Seq<u8>>),
}

impl View for Answer {
    type V = SpecAnswer;

    open spec fn view(&self) -> SpecAnswer {
        match self {
            Answer::Value(v) => SpecAnswer::Value(
                match v {
                    Some(b) => Some(b@),
                    None => None,
                },
            ),
            Answer::Events(es) => SpecAnswer::Events(events_view(es@)),
        }
    }
}

/// What the trial run answers for a query: a function of the real store and
/// the real event source.
pub open spec fn spec_trial_answer(
    store: Seq<SpecStoreEntry>,
    src: Seq<SpecEventEntry>,
    q: SpecQuery,
) -> SpecAnswer {
    match q {
        SpecQuery::StorageRead { column, key } => SpecAnswer::Value(store_get(store, column, key)),
        SpecQuery::EventLookup { height } => SpecAnswer::Events(events_at(src, height)),
    }
}

/// What the replay answers for a query: a function of the witness alone.
/// For a storage read the witness does not cover, the replay errs rather
/// than answers; the value given here for that case is immaterial.
pub open spec fn spec_replay_answer(
    cs: Seq<SpecChangeEntry>,
    ev: Seq<SpecEventEntry>,
    q: SpecQuery,
) -> SpecAnswer {
    match q {
        SpecQuery::StorageRead { column, key } => SpecAnswer::Value(
            match cs_get(cs, column, key) {
                Some(SpecOp::Insert(v)) => Some(v),
                Some(SpecOp::Remove) => None,
                None => None,
            },
        ),
        SpecQuery::EventLookup { height } => SpecAnswer::Events(events_at(ev, height)),
    }
}

/// The change-set answers every storage read of the script: no read can
/// fall through to the fail-fast base.
pub open spec fn replay_covered(cs: Seq<SpecChangeEntry>, script: Seq<SpecQuery>) -> bool {
    forall|i: int|
        0 <= i < script.len() ==> match #[trigger] script[i] {
            SpecQuery::StorageRead { column, key } => cs_get(cs, column, key) is Some,
            SpecQuery::EventLookup { .. } => true,
        }
}

/// The witness holds an entry for every query of the script: every storage
/// read has a recorded outcome, and every queried height — including one
/// with zero events — has a recorded list.
pub open spec fn trial_covered(
    cs: Seq<SpecChangeEntry>,
    ev: Seq<SpecEventEntry>,
    script: Seq<SpecQuery>,
) -> bool {
    forall|i: int|
        0 <= i < script.len() ==> match #[trigger] script[i] {
            SpecQuery::StorageRead { column, key } => cs_get(cs, column, key) is Some,
            SpecQuery::EventLookup { height } => ev_get(ev, height) is Some,
        }
}

/// Performs every query of a script against the live sources through the
/// two recorders, and returns the answers.  Afterwards the accumulators
/// cover the whole script, and still agree with the sources.
pub fn run_trial(
    script: &Vec<Query>,
    storage: &mut StorageAccessRecorder,
    relayer: &mut RelayerRecorder,
) -> (answers: Vec<Answer>)
    requires
        old(storage).wf(),
        old(relayer).wf(),
    ensures
        final(storage).wf(),
        final(relayer).wf(),
        final(storage).storage_view() == old(storage).storage_view(),
        final(relayer).storage_view() == old(relayer).storage_view(),
        answers@.len() == script@.len(),
        forall|i: int|
            0 <= i < script@.len() ==> answers@[i]@ == spec_trial_answer(
                old(storage).storage_view(),
                old(relayer).storage_view(),
                script_view(script@)[i],
            ),
        trial_covered(final(storage).record_view(), final(relayer).record_view(), script_view(script@)),
{
    let mut answers: Vec<Answer> = Vec::new();
    let mut i: usize = 0;
    while i < script.len()
        invariant
            i <= script@.len(),
            storage.wf(),
            relayer.wf(),
            storage.storage_view() == old(storage).storage_view(),
            relayer.storage_view() == old(relayer).storage_view(),
            answers@.len() == i,
            forall|j: int|
                0 <= j < i ==> answers@[j]@ == spec_trial_answer(
                    old(storage).storage_view(),
                    old(relayer).storage_view(),
                    script_view(script@)[j],
                ),
            forall|j: int|
                0 <= j < i ==> match #[trigger] script_view(script@)[j] {
                    SpecQuery::StorageRead { column, key } => cs_get(
                        storage.record_view(),
                        column,
                        key,
                    ) is Some,
                    SpecQuery::EventLookup { height } => ev_get(relayer.record_view(), height) is Some,
                },
        decreases script@.len() - i,
    {
        let ghost cs_before = storage.record_view();
        let ghost ev_before = relayer.record_view();
        match &script[i] {
            Query::StorageRead { column, key } => {
                let answer = match storage.get(key, *column) {
                    Ok(v) => v,
                    Err(_) => {
                        proof {
                            assert(false);
                        }
                        None
                    },
                };
                answers.push(Answer::Value(answer));
            },
            Query::EventLookup { height } => {
                let events = relayer.get_events(*height);
                answers.push(Answer::Events(events));
            },
        }
        proof {
            assert forall|j: int| 0 <= j < i + 1 implies match #[trigger] script_view(script@)[j] {
                SpecQuery::StorageRead { column, key } => cs_get(
                    storage.record_view(),
                    column,
                    key,
                ) is Some,
                SpecQuery::EventLookup { height } => ev_get(relayer.record_view(), height) is Some,
            } by {
                if j < i {
                    match script_view(script@)[j] {
                        SpecQuery::StorageRead { column, key } => {
                            assert(cs_get(cs_before, column, key) is Some);
                        },
                        SpecQuery::EventLookup { height } => {
                            assert(ev_get(ev_before, height) is Some);
                        },
                    }
                }
            }
        }
        i = i + 1;
    }
    answers
}

/// Performs every query of a script against the reconstructed views: the
/// change-set overlay (over the fail-fast base) and the recorded event
/// mapping.  Succeeds with all answers exactly when the witness covers
/// every storage read of the script; otherwise fails with the
/// witness-incompleteness error.
pub fn run_replay(script: &Vec<Query>, storage: &ReplayStorage, relayer: &Relayer) -> (r: Result<
    Vec<Answer>,
    StorageError,
>)
    ensures
        match r {
            Ok(answers) => {
                &&& replay_covered(storage.changes@, script_view(script@))
                &&& answers@.len() == script@.len()
                &&& forall|i: int|
                    0 <= i < script@.len() ==> answers@[i]@ == spec_replay_answer(
                        storage.changes@,
                        relayer@,
                        script_view(script@)[i],
                    )
            },
            Err(e) => {
                &&& e == StorageError::WitnessIncomplete
                &&& !replay_covered(storage.changes@, script_view(script@))
            },
        },
{
    let mut answers: Vec<Answer> = Vec::new();
    let mut i: usize = 0;
    while i < script.len()
        invariant
            i <= script@.len(),
            answers@.len() == i,
            forall|j: int|
                0 <= j < i ==> match #[trigger] script_view(script@)[j] {
                    SpecQuery::StorageRead { column, key } => cs_get(
                        storage.changes@,
                        column,
                        key,
                    ) is Some,
                    SpecQuery::EventLookup { .. } => true,
                },
            forall|j: int|
                0 <= j < i ==> answers@[j]@ == spec_replay_answer(
                    storage.changes@,
                    relayer@,
                    script_view(script@)[j],
                ),
        decreases script@.len() - i,
    {
        match &script[i] {
            Query::StorageRead { column, key } => {
                match storage.get(key, *column) {
                    Ok(v) => {
                        answers.push(Answer::Value(v));
                    },
                    Err(e) => {
                        proof {
                            assert(cs_get(storage.changes@, *column, key@) is None);
                            assert(match script_view(script@)[i as int] {
                                SpecQuery::StorageRead { column: c2, key: k2 } => cs_get(
                                    storage.changes@,
                                    c2,
                                    k2,
                                ) is None,
                                SpecQuery::EventLookup { .. } => false,
                            });
                        }
                        return Err(e);
                    },
                }
            },
            Query::EventLookup { height } => {
                let events = relayer.get_events(*height);
                answers.push(Answer::Events(events));
            },
        }
        i = i + 1;
    }
    Ok(answers)
}

/// Completeness: replaying a script whose every query the witness covers
/// never reaches the fail-fast base store.
pub proof fn lemma_completeness(
    cs: Seq<SpecChangeEntry>,
    ev: Seq<SpecEventEntry>,
    script: Seq<SpecQuery>,
)
    requires
        trial_covered(cs, ev, script),
    ensures
        replay_covered(cs, script),
{
    assert forall|i: int| 0 <= i < script.len() implies match #[trigger] script[i] {
        SpecQuery::StorageRead { column, key } => cs_get(cs, column, key) is Some,
        SpecQuery::EventLookup { .. } => true,
    } by {
        assert(match script[i] {
            SpecQuery::StorageRead { column, key } => cs_get(cs, column, key) is Some,
            SpecQuery::EventLookup { height } => ev_get(ev, height) is Some,
        });
    }
}

/// Fidelity: for every query of a covered script, the answer derived from
/// the witness alone is identical to the answer the trial run observed from
/// the real store and the real event source — values, explicit absences,
/// and event lists (empty ones included) alike.
pub proof fn lemma_fidelity(
    store: Seq<SpecStoreEntry>,
    src: Seq<SpecEventEntry>,
    cs: Seq<SpecChangeEntry>,
    ev: Seq<SpecEventEntry>,
    script: Seq<SpecQuery>,
)
    requires
        changes_faithful(cs, store),
        events_faithful(ev, src),
        trial_covered(cs, ev, script),
    ensures
        forall|i: int|
            0 <= i < script.len() ==> spec_replay_answer(cs, ev, script[i]) == spec_trial_answer(
                store,
                src,
                script[i],
            ),
{
    assert forall|i: int| 0 <= i < script.len() implies spec_replay_answer(cs, ev, script[i])
        == spec_trial_answer(store, src, script[i]) by {
        match script[i] {
            SpecQuery::StorageRead { column, key } => {
                assert(cs_get(cs, column, key) is Some);
                assert(cs_get(cs, column, key) matches Some(op) ==> op == op_of(
                    store_get(store, column, key),
                ));
            },
            SpecQuery::EventLookup { height } => {
                assert(ev_get(ev, height) is Some);
                assert(ev_get(ev, height) matches Some(l) ==> l == events_at(src, height));
            },
        }
    }
}

/// Absence is explicit: a key that was read and found absent during the
/// trial run stands in the change-set as an explicit `Remove` entry, and a
/// replay read for it answers "absent" instead of falling through to the
/// fail-fast base.
pub proof fn lemma_absence_is_explicit(
    store: Seq<SpecStoreEntry>,
    cs: Seq<SpecChangeEntry>,
    ns: u32,
    key: Seq<u8>,
)
    requires
        changes_faithful(cs, store),
        cs_get(cs, ns, key) is Some,
        store_get(store, ns, key) is None,
    ensures
        cs_get(cs, ns, key) == Some(SpecOp::Remove),
        spec_replay_get(cs, ns, key) == Ok::<Option<Seq<u8>>, StorageError>(None),
{
    assert(cs_get(cs, ns, key) matches Some(op) ==> op == op_of(store_get(store, ns, key)));
}

/// Event totality: a height that was queried during the trial run — even
/// one with zero events — has an entry in the mapping, and a replay query
/// for it returns exactly the recorded list.
pub proof fn lemma_event_totality(src: Seq<SpecEventEntry>, ev: Seq<SpecEventEntry>, height: u64)
    requires
        events_faithful(ev, src),
        ev_get(ev, height) is Some,
    ensures
        events_at(ev, height) == events_at(src, height),
{
    assert(ev_get(ev, height) matches Some(l) ==> l == events_at(src, height));
}

} // verus!
