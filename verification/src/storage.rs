//! Storage backends: the in-memory key/value store that backs a trial run,
//! and the fail-fast store that sits beneath the replay overlay.
//!
//! The storage capability is a single operation: read the value for a
//! (namespace, key) pair, returning the value, an explicit absence, or an
//! error.  Namespaces are opaque integer identifiers partitioning the key
//! space; keys are unique only within a namespace.

use crate::bytes::{bytes_eq, clone_bytes};
use vstd::prelude::*;

verus! {

/// Errors of the storage capability.
#[derive(Debug, PartialEq, Eq, Clone, Copy)]
pub enum StorageError {
    /// A replay read fell through to the fail-fast base store: the witness
    /// does not answer a read that the replayed execution performed.  This is
    /// a fatal contract violation, distinct from an ordinary "not found".
    WitnessIncomplete,
}

/// Mathematical model of an optional byte value.
pub open spec fn opt_bytes_view(v: Option<Vec<u8>>) -> Option<Seq<u8>> {
    match v {
        Some(b) => Some(b@),
        None => None,
    }
}

/// One stored pair: a namespace, a key, and the stored value.
#[derive(Debug, PartialEq, Eq)]
pub struct StoreEntry {
    pub ns: u32,
    pub key: Vec<u8>,
    pub value: Vec<u8>,
}

/// Mathematical model of a [`StoreEntry`].
pub ghost struct SpecStoreEntry {
    pub ns: u32,
    pub key: Seq<u8>,
    pub value: Seq<u8>,
}

impl View for StoreEntry {
    type V = SpecStoreEntry;

    open spec fn view(&self) -> SpecStoreEntry {
        SpecStoreEntry { ns: self.ns, key: self.key@, value: self.value@ }
    }
}

/// The value a store associates with a (namespace, key) pair: the first
/// entry for that pair, if any.
pub open spec fn store_get(s: Seq<SpecStoreEntry>, ns: u32, key: Seq<u8>) -> Option<Seq<u8>>
    decreases s.len(),
{
    if s.len() == 0 {
        None
    } else if s[0].ns == ns && s[0].key == key {
        Some(s[0].value)
    } else {
        store_get(s.drop_first(), ns, key)
    }
}

/// An in-memory key/value store, used as the real backing store of a trial
/// run.
#[derive(Debug, PartialEq, Eq)]
pub struct InMemoryStorage {
    pub entries: Vec<StoreEntry>,
}

impl View for InMemoryStorage {
    type V = Seq<SpecStoreEntry>;

    open spec fn view(&self) -> Seq<SpecStoreEntry> {
        self.entries@.map(|i: int, e: StoreEntry| e@)
    }
}

impl Default for InMemoryStorage {
    /// Creates an empty store: every read finds nothing.
    fn default() -> (r: InMemoryStorage)
        ensures
            r@ =~= Seq::<SpecStoreEntry>::empty(),
            forall|ns: u32, key: Seq<u8>| #[trigger] store_get(r@, ns, key) is None,
    {
        InMemoryStorage { entries: Vec::new() }
    }
}

impl InMemoryStorage {
    /// Creates an empty store: every read finds nothing.
    pub fn new() -> (r: InMemoryStorage)
        ensures
            r@ =~= Seq::<SpecStoreEntry>::empty(),
            forall|ns: u32, key: Seq<u8>| #[trigger] store_get(r@, ns, key) is None,
    {
        InMemoryStorage { entries: Vec::new() }
    }

    /// Stores a value for a (namespace, key) pair, replacing any earlier
    /// value for the same pair.
    pub fn insert(&mut self, ns: u32, key: Vec<u8>, value: Vec<u8>)
        ensures
            forall|n2: u32, k2: Seq<u8>|
                #[trigger] store_get(final(self)@, n2, k2) == if n2 == ns && k2 == key@ {
                    Some(value@)
                } else {
                    store_get(old(self)@, n2, k2)
                },
    {
        let ghost pre = self@;
        let entry = StoreEntry { ns, key, value };
        let ghost entry_view = entry@;
        self.entries.insert(0, entry);
        proof {
            assert(self@ =~= seq![entry_view] + pre);
            assert(self@[0] == entry_view);
            assert(self@.drop_first() =~= pre);
        }
    }

    /// Reads the value for a (namespace, key) pair.  Reads of this store
    /// never fail; the `Result` is the shape of the storage capability.
    pub fn get(&self, key: &Vec<u8>, column: u32) -> (r: Result<Option<Vec<u8>>, StorageError>)
        ensures
            match r {
                Ok(v) => opt_bytes_view(v) == store_get(self@, column, key@),
                Err(_) => false,
            },
    {
        let ghost q = store_get(self@, column, key@);
        proof {
            assert(self@.skip(0) =~= self@);
        }
        let mut i: usize = 0;
        while i < self.entries.len()
            invariant
                i <= self.entries@.len(),
                self@ == self.entries@.map(|j: int, e: StoreEntry| e@),
                q == store_get(self@, column, key@),
                q == store_get(self@.skip(i as int), column, key@),
            decreases self.entries@.len() - i,
        {
            let e = &self.entries[i];
            proof {
                assert(self@.skip(i as int)[0] == self@[i as int]);
                assert(self@.skip(i as int).drop_first() =~= self@.skip(i + 1 as int));
            }
            if e.ns == column && bytes_eq(&e.key, key) {
                return Ok(Some(clone_bytes(&e.value)));
            }
            i = i + 1;
        }
        proof {
            assert(self@.skip(self.entries@.len() as int) =~= Seq::<SpecStoreEntry>::empty());
        }
        Ok(None)
    }
}

/// The fail-fast replay store.  It holds no data, and it is never meant to
/// answer a read: it is the base layer beneath the overlay built from the
/// recorded change-set, so a read reaching it proves that the witness is
/// incomplete.
#[derive(Debug, PartialEq, Eq, Clone, Copy)]
pub struct PanicStorage;

impl Default for PanicStorage {
    fn default() -> (r: PanicStorage) {
        PanicStorage
    }
}

impl PanicStorage {
    /// Every read fails with the witness-incompleteness error.
    pub fn get(&self, key: &Vec<u8>, column: u32) -> (r: Result<Option<Vec<u8>>, StorageError>)
        ensures
            r == Err::<Option<Vec<u8>>, StorageError>(StorageError::WitnessIncomplete),
    {
        let _ = key;
        let _ = column;
        Err(StorageError::WitnessIncomplete)
    }
}

} // verus!
