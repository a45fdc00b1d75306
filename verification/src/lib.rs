//! Witness capture and replay for a deterministic state-machine execution.
//!
//! A trial run of an execution engine reads keyed values from a store and
//! event lists from an external event timeline.  The recorders in this crate
//! wrap those two sources, capture every observed outcome, and export the
//! accumulated record as a witness package.  The replay side reconstructs
//! both sources strictly from the package, stacked over a fail-fast base
//! store, so that the same execution can be repeated in an environment with
//! no access to the original data, and derives a commitment pair over the
//! result.

pub mod bytes;
pub mod changes;
pub mod codec;
pub mod driver;
pub mod events;
pub mod execution;
pub mod hash;
pub mod relayer_recorder;
pub mod replay;
pub mod storage;
pub mod storage_access_recorder;
pub mod witness;
