//! The read-recording store: a transparent wrapper around a real read-only
//! key/value view that records every observed read outcome in a change-set.
//!
//! The wrapper answers reads identically to the wrapped store; its only
//! additional effect is appending the observed outcome — value present, or
//! explicitly absent — to its accumulator.  A consuming export hands the
//! accumulated change-set out once, after the trial execution completes.

use crate::bytes::clone_bytes;
use crate::changes::{cs_get, ChangeSet, SpecChangeEntry, SpecOp, WriteOperation};
use crate::storage::{opt_bytes_view, store_get, InMemoryStorage, SpecStoreEntry, StorageError};
use vstd::prelude::*;

verus! {

/// The outcome that a read observing `v` records: the value where one was
/// present, an explicit absence where none was.
pub open spec fn op_of(v: Option<Seq<u8>>) -> SpecOp {
    match v {
        Some(b) => SpecOp::Insert(b),
        None => SpecOp::Remove,
    }
}

/// Every outcome the change-set holds agrees with the store it was recorded
/// from: a recorded pair answers exactly what a fresh read of the store
/// would answer.
pub open spec fn changes_faithful(cs: Seq<SpecChangeEntry>, store: Seq<SpecStoreEntry>) -> bool {
    forall|ns: u32, key: Seq<u8>|
        (#[trigger] cs_get(cs, ns, key)) matches Some(op) ==> op == op_of(
            store_get(store, ns, key),
        )
}

/// A read-only storage view that records every read it answers.
#[derive(Debug, PartialEq, Eq)]
pub struct StorageAccessRecorder {
    /// The wrapped real store.
    pub storage: InMemoryStorage,
    record: ChangeSet,
}

impl StorageAccessRecorder {
    /// The accumulated change-set.
    pub closed spec fn record_view(&self) -> Seq<SpecChangeEntry> {
        self.record@
    }

    /// The wrapped store's contents.
    pub closed spec fn storage_view(&self) -> Seq<SpecStoreEntry> {
        self.storage@
    }

    /// The recorder's invariant: the accumulator agrees with the wrapped
    /// store.  It holds from construction on, because the store is not
    /// mutated during a trial run.
    pub open spec fn wf(&self) -> bool {
        changes_faithful(self.record_view(), self.storage_view())
    }

    /// Wraps a store with an empty accumulator.
    pub fn new(storage: InMemoryStorage) -> (r: StorageAccessRecorder)
        ensures
            r.storage_view() == storage@,
            forall|ns: u32, key: Seq<u8>| #[trigger] cs_get(r.record_view(), ns, key) is None,
            r.wf(),
    {
        StorageAccessRecorder { storage, record: ChangeSet::new() }
    }

    /// Reads a (namespace, key) pair from the wrapped store, transparently,
    /// and records the observed outcome.  The returned value is exactly what
    /// the wrapped store answered; the accumulator gains an entry for the
    /// pair (an explicit absence where nothing was found), and answers every
    /// other pair as before.
    pub fn get(&mut self, key: &Vec<u8>, column: u32) -> (r: Result<
        Option<Vec<u8>>,
        StorageError,
    >)
        requires
            old(self).wf(),
        ensures
            final(self).wf(),
            final(self).storage_view() == old(self).storage_view(),
            match r {
                Ok(v) => opt_bytes_view(v) == store_get(old(self).storage_view(), column, key@),
                Err(_) => false,
            },
            cs_get(final(self).record_view(), column, key@) == Some(
                op_of(store_get(old(self).storage_view(), column, key@)),
            ),
            forall|n2: u32, k2: Seq<u8>|
                !(n2 == column && k2 == key@) ==> #[trigger] cs_get(final(self).record_view(), n2, k2)
                    == cs_get(old(self).record_view(), n2, k2),
    {
        let value = match self.storage.get(key, column) {
            Ok(v) => v,
            Err(e) => {
                return Err(e);
            },
        };
        let op = match &value {
            Some(v) => WriteOperation::Insert(clone_bytes(v)),
            None => WriteOperation::Remove,
        };
        let ghost observed = op_of(store_get(self.storage_view(), column, key@));
        proof {
            assert(op@ == observed);
        }
        self.record.record(column, clone_bytes(key), op);
        proof {
            assert(cs_get(self.record_view(), column, key@) == Some(observed));
            assert forall|n2: u32, k2: Seq<u8>|
                (#[trigger] cs_get(self.record_view(), n2, k2)) is Some implies cs_get(
                self.record_view(),
                n2,
                k2,
            ) == Some(op_of(store_get(self.storage_view(), n2, k2))) by {
                assert(cs_get(old(self).record_view(), n2, k2) is Some ==> cs_get(
                    self.record_view(),
                    n2,
                    k2,
                ) == cs_get(old(self).record_view(), n2, k2));
            }
        }
        Ok(value)
    }

    /// Consumes the recorder and yields the accumulated change-set by value.
    /// Called exactly once, after the trial execution completes; afterwards
    /// the exported record is an immutable value of its own.
    pub fn into_changes(self) -> (r: ChangeSet)
        ensures
            r@ == self.record_view(),
    {
        self.record
    }
}

} // verus!
