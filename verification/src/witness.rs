//! The witness package: the single bundle that crosses the trust boundary
//! into the replay environment.
//!
//! It holds the execution unit together with the two exported recordings,
//! and nothing else: the serialized package is the entire input surface of
//! the replay side.

use crate::changes::{ChangeSet, SpecChangeEntry};
use crate::events::{Relayer, SpecEventEntry};
use crate::hash::{sha256_digest, sha256_of};
use vstd::prelude::*;

verus! {

/// The execution unit: the deterministic computation being witnessed and
/// replayed.  It is an opaque, already-validated value supplied by the
/// caller; this subsystem never looks inside it.
#[derive(Debug, PartialEq, Eq)]
pub struct Block {
    pub bytes: Vec<u8>,
}

impl View for Block {
    type V = Seq<u8>;

    open spec fn view(&self) -> Seq<u8> {
        self.bytes@
    }
}

impl Block {
    /// The unit's canonical identifier: the digest of its bytes.
    pub fn id(&self) -> (r: Vec<u8>)
        ensures
            r@ == sha256_of(self@),
            r@.len() == 32,
    {
        sha256_digest(&self.bytes)
    }
}

/// The witness package: the execution unit, the recorded change-set, and
/// the recorded event mapping.  Constructed once per trial run, immutable
/// thereafter, and serialized as a single unit.
#[derive(Debug, PartialEq, Eq)]
pub struct Input {
    pub block: Block,
    pub storage: ChangeSet,
    pub relayer: Relayer,
}

/// Mathematical model of a witness package.
pub ghost struct SpecInput {
    pub block: Seq<u8>,
    pub changes: Seq<SpecChangeEntry>,
    pub events: Seq<SpecEventEntry>,
}

impl View for Input {
    type V = SpecInput;

    open spec fn view(&self) -> SpecInput {
        SpecInput { block: self.block@, changes: self.storage@, events: self.relayer@ }
    }
}

} // verus!
