//! The replay driver: deserializes a witness package, reconstructs the two
//! views strictly from it, performs the execution's reads against them, and
//! derives the commitment pair.

use crate::codec::{decode_input, spec_decode_input, spec_enc_input};
use crate::execution::{replay_covered, run_replay, script_view, Query};
use crate::hash::{sha256_digest, sha256_of};
use crate::relayer_recorder::RelayerRecorder;
use crate::replay::ReplayStorage;
use crate::storage_access_recorder::StorageAccessRecorder;
use crate::witness::{Block, Input, SpecInput};
use vstd::prelude::*;

verus! {

/// The commitment pair: the sole observable output of a replay, compared
/// by the external verifier against externally known values.
#[derive(Debug, PartialEq, Eq)]
pub struct PublicValuesStruct {
    /// The content hash over the raw serialized witness bytes — the bytes
    /// themselves, not the decoded structure.
    pub input_hash: Vec<u8>,
    /// The canonical identifier of the executed unit.
    pub block_id: Vec<u8>,
}

/// Errors of the replay driver.  All of them are terminal for the current
/// run: recovery is the caller's decision, never attempted here.
#[derive(Debug, PartialEq, Eq, Clone, Copy)]
pub enum ProveError {
    /// The serialized witness package is malformed.
    Decode,
    /// A replay read fell through to the fail-fast base: the witness does
    /// not answer a read that the execution performs.
    WitnessIncomplete,
}

/// Combines a trial run's exports with the executed unit into the witness
/// package.  Consumes both recorders: a package always comes from one
/// completed trial run, and the recorders cannot be touched afterwards.
pub fn produce_prover_input(
    block: Block,
    storage: StorageAccessRecorder,
    relayer: RelayerRecorder,
) -> (r: Input)
    ensures
        r@.block == block@,
        r@.changes == storage.record_view(),
        r@.events == relayer.record_view(),
{
    Input {
        block,
        storage: storage.into_changes(),
        relayer: relayer.into_prover_relayer(),
    }
}

/// Replays a serialized witness package against the reads the execution
/// performs, and derives the commitment pair: the hash of the raw package
/// bytes, and the executed unit's canonical identifier.  Fails with a
/// decode error on bytes that are not exactly an encoded package, and with
/// the witness-incompleteness error when a read is not covered by the
/// package — in exactly those cases.
pub fn prove(input_bytes: &Vec<u8>, reads: &Vec<Query>) -> (r: Result<
    PublicValuesStruct,
    ProveError,
>)
    ensures
        match r {
            Ok(p) => {
                &&& spec_decode_input(input_bytes@) matches Some(iv) && replay_covered(
                    iv.changes,
                    script_view(reads@),
                ) && p.block_id@ == sha256_of(iv.block)
                &&& p.input_hash@ == sha256_of(input_bytes@)
                &&& p.input_hash@.len() == 32
                &&& p.block_id@.len() == 32
            },
            Err(ProveError::Decode) => spec_decode_input(input_bytes@) is None,
            Err(ProveError::WitnessIncomplete) => spec_decode_input(input_bytes@) matches Some(iv)
                && !replay_covered(iv.changes, script_view(reads@)),
        },
{
    let input = match decode_input(input_bytes) {
        Ok(v) => v,
        Err(_) => {
            return Err(ProveError::Decode);
        },
    };
    let Input { block, storage, relayer } = input;
    let replay_storage = ReplayStorage::new(storage);
    match run_replay(reads, &replay_storage, &relayer) {
        Ok(_) => {},
        Err(_) => {
            return Err(ProveError::WitnessIncomplete);
        },
    }
    let input_hash = sha256_digest(input_bytes);
    let block_id = block.id();
    Ok(PublicValuesStruct { input_hash, block_id })
}

/// Commitment stability: the serialized form — and with it the content
/// hash over it — and the unit identifier are pure functions of the
/// package, so deriving them twice from the same package gives identical
/// values.
pub proof fn lemma_commitment_stability(a: SpecInput, b: SpecInput)
    requires
        a == b,
    ensures
        spec_enc_input(a) == spec_enc_input(b),
        sha256_of(spec_enc_input(a)) == sha256_of(spec_enc_input(b)),
        sha256_of(a.block) == sha256_of(b.block),
{
}

} // verus!
