//! The replay-side storage view: the recorded change-set stacked, as a
//! transactional overlay, over the fail-fast base store.
//!
//! The overlay answers any (namespace, key) pair present in the change-set
//! directly — an `Insert` entry as the value, a `Remove` entry as an
//! ordinary "not found" — and only falls through to the base for pairs the
//! original run never touched.  Reaching the base is proof that the witness
//! is incomplete, and surfaces as a hard error distinct from "not found".

use crate::changes::{cs_get, ChangeSet, SpecChangeEntry, SpecOp, WriteOperation};
use crate::storage::{opt_bytes_view, PanicStorage, StorageError};
use vstd::prelude::*;

verus! {

/// What a replay read answers, as a function of the change-set alone:
/// the recorded value, the recorded absence, or the witness-incompleteness
/// error for a pair the witness does not cover.
pub open spec fn spec_replay_get(cs: Seq<SpecChangeEntry>, ns: u32, key: Seq<u8>) -> Result<
    Option<Seq<u8>>,
    StorageError,
> {
    match cs_get(cs, ns, key) {
        Some(SpecOp::Insert(v)) => Ok(Some(v)),
        Some(SpecOp::Remove) => Ok(None),
        None => Err(StorageError::WitnessIncomplete),
    }
}

/// A storage view answering every read from a recorded change-set, with the
/// fail-fast store beneath it.
#[derive(Debug, PartialEq, Eq)]
pub struct ReplayStorage {
    /// The recorded change-set, acting as the overlay.
    pub changes: ChangeSet,
    /// The data-less base layer; reads that reach it fail.
    pub base: PanicStorage,
}

impl ReplayStorage {
    /// Stacks a recorded change-set over the fail-fast base.
    pub fn new(changes: ChangeSet) -> (r: ReplayStorage)
        ensures
            r.changes@ == changes@,
    {
        ReplayStorage { changes, base: PanicStorage }
    }

    /// Reads a (namespace, key) pair from the witness: the recorded value or
    /// recorded absence where the pair was captured, and the fatal
    /// witness-incompleteness error where it was not.
    pub fn get(&self, key: &Vec<u8>, column: u32) -> (r: Result<Option<Vec<u8>>, StorageError>)
        ensures
            match r {
                Ok(v) => spec_replay_get(self.changes@, column, key@) == Ok::<
                    Option<Seq<u8>>,
                    StorageError,
                >(opt_bytes_view(v)),
                Err(e) => spec_replay_get(self.changes@, column, key@) == Err::<
                    Option<Seq<u8>>,
                    StorageError,
                >(e),
            },
    {
        match self.changes.lookup(column, key) {
            Some(WriteOperation::Insert(v)) => Ok(Some(v)),
            Some(WriteOperation::Remove) => Ok(None),
            None => self.base.get(key, column),
        }
    }
}

} // verus!
