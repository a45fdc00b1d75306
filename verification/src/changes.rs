//! The change-set: the record of every (namespace, key) read outcome
//! observed during a trial run.
//!
//! Keys are byte sequences, unique within a namespace.  A recorded outcome is
//! a [`WriteOperation`]: either the value that was present, or an explicit
//! note that the key was read and found absent.  The explicit absence entry
//! is essential: the replay side must be able to distinguish "read and not
//! found" from "never read", because a replay read that the change-set cannot
//! answer is a fatal completeness violation.

use crate::bytes::{bytes_eq, clone_bytes};
use vstd::prelude::*;

verus! {

/// The outcome recorded for one read of a (namespace, key) pair.
#[derive(Debug, PartialEq, Eq)]
pub enum WriteOperation {
    /// The key was present and held this value.
    Insert(Vec<u8>),
    /// The key was read and found absent.
    Remove,
}

/// Mathematical model of a [`WriteOperation`].
pub ghost enum SpecOp {
    Insert(Seq<u8>),
    Remove,
}

impl View for WriteOperation {
    type V = SpecOp;

    open spec fn view(&self) -> SpecOp {
        match self {
            WriteOperation::Insert(v) => SpecOp::Insert(v@),
            WriteOperation::Remove => SpecOp::Remove,
        }
    }
}

/// Returns an owned copy of a recorded outcome.
pub fn clone_op(op: &WriteOperation) -> (r: WriteOperation)
    ensures
        r@ == op@,
{
    match op {
        WriteOperation::Insert(v) => WriteOperation::Insert(clone_bytes(v)),
        WriteOperation::Remove => WriteOperation::Remove,
    }
}

/// One recorded entry: a namespace, a key, and the observed outcome.
#[derive(Debug, PartialEq, Eq)]
pub struct ChangeEntry {
    pub ns: u32,
    pub key: Vec<u8>,
    pub op: WriteOperation,
}

/// Mathematical model of a [`ChangeEntry`].
pub ghost struct SpecChangeEntry {
    pub ns: u32,
    pub key: Seq<u8>,
    pub op: SpecOp,
}

impl View for ChangeEntry {
    type V = SpecChangeEntry;

    open spec fn view(&self) -> SpecChangeEntry {
        SpecChangeEntry { ns: self.ns, key: self.key@, op: self.op@ }
    }
}

/// The outcome that a change-set associates with a (namespace, key) pair:
/// the first recorded entry for that pair, if any.
pub open spec fn cs_get(s: Seq<SpecChangeEntry>, ns: u32, key: Seq<u8>) -> Option<SpecOp>
    decreases s.len(),
{
    if s.len() == 0 {
        None
    } else if s[0].ns == ns && s[0].key == key {
        Some(s[0].op)
    } else {
        cs_get(s.drop_first(), ns, key)
    }
}

/// Appending an entry answers exactly the queries that the entry's pair
/// matches and the change-set did not answer before.
pub proof fn lemma_cs_get_push(s: Seq<SpecChangeEntry>, e: SpecChangeEntry, ns: u32, key: Seq<u8>)
    ensures
        cs_get(s.push(e), ns, key) == if cs_get(s, ns, key) is Some {
            cs_get(s, ns, key)
        } else if e.ns == ns && e.key == key {
            Some(e.op)
        } else {
            None
        },
    decreases s.len(),
{
    if s.len() == 0 {
        assert(s.push(e).len() == 1);
        assert(s.push(e)[0] == e);
        assert(s.push(e).drop_first() =~= Seq::<SpecChangeEntry>::empty());
        assert(cs_get(s, ns, key) is None);
        if !(e.ns == ns && e.key == key) {
            assert(cs_get(s.push(e), ns, key) == cs_get(s.push(e).drop_first(), ns, key));
            assert(cs_get(Seq::<SpecChangeEntry>::empty(), ns, key) is None);
        }
    } else {
        assert(s.push(e)[0] == s[0]);
        assert(s.push(e).drop_first() =~= s.drop_first().push(e));
        lemma_cs_get_push(s.drop_first(), e, ns, key);
        assert(cs_get(s.push(e), ns, key) == if s[0].ns == ns && s[0].key == key {
            Some(s[0].op)
        } else {
            cs_get(s.drop_first().push(e), ns, key)
        });
    }
}

/// The exported record of a trial run's storage reads: a mapping from
/// (namespace, key) to the observed outcome, in first-touch order.
#[derive(Debug, PartialEq, Eq)]
pub struct ChangeSet {
    pub entries: Vec<ChangeEntry>,
}

impl View for ChangeSet {
    type V = Seq<SpecChangeEntry>;

    open spec fn view(&self) -> Seq<SpecChangeEntry> {
        self.entries@.map(|i: int, e: ChangeEntry| e@)
    }
}

impl ChangeSet {
    /// Creates an empty change-set: no pair has a recorded outcome.
    pub fn new() -> (r: ChangeSet)
        ensures
            r@ =~= Seq::<SpecChangeEntry>::empty(),
            forall|ns: u32, key: Seq<u8>| #[trigger] cs_get(r@, ns, key) is None,
    {
        ChangeSet { entries: Vec::new() }
    }

    /// Returns the recorded outcome for a (namespace, key) pair, if any.
    pub fn lookup(&self, ns: u32, key: &Vec<u8>) -> (r: Option<WriteOperation>)
        ensures
            match r {
                Some(op) => cs_get(self@, ns, key@) == Some(op@),
                None => cs_get(self@, ns, key@) is None,
            },
    {
        let ghost q = cs_get(self@, ns, key@);
        proof {
            assert(self@.skip(0) =~= self@);
        }
        let mut i: usize = 0;
        while i < self.entries.len()
            invariant
                i <= self.entries@.len(),
                self@ == self.entries@.map(|j: int, e: ChangeEntry| e@),
                q == cs_get(self@, ns, key@),
                q == cs_get(self@.skip(i as int), ns, key@),
            decreases self.entries@.len() - i,
        {
            let e = &self.entries[i];
            proof {
                assert(self@.skip(i as int)[0] == self@[i as int]);
                assert(self@.skip(i as int).drop_first() =~= self@.skip(i + 1 as int));
            }
            if e.ns == ns && bytes_eq(&e.key, key) {
                return Some(clone_op(&e.op));
            }
            i = i + 1;
        }
        proof {
            assert(self@.skip(self.entries@.len() as int) =~= Seq::<SpecChangeEntry>::empty());
        }
        None
    }

    /// Records an outcome for a (namespace, key) pair.  The first recorded
    /// outcome for a pair is kept: during a single trial run the underlying
    /// store is not mutated, so every outcome observed for a fixed pair is
    /// the same, and keeping the first makes re-reads leave the record
    /// unchanged.
    pub fn record(&mut self, ns: u32, key: Vec<u8>, op: WriteOperation)
        ensures
            forall|n2: u32, k2: Seq<u8>|
                #[trigger] cs_get(final(self)@, n2, k2) == if cs_get(old(self)@, n2, k2) is Some {
                    cs_get(old(self)@, n2, k2)
                } else if n2 == ns && k2 == key@ {
                    Some(op@)
                } else {
                    None
                },
    {
        let present = match self.lookup(ns, &key) {
            Some(_) => true,
            None => false,
        };
        if !present {
            let ghost pre = self@;
            let entry = ChangeEntry { ns, key, op };
            let ghost entry_view = entry@;
            self.entries.push(entry);
            proof {
                assert(self@ =~= pre.push(entry_view));
                assert forall|n2: u32, k2: Seq<u8>| #[trigger]
                    cs_get(self@, n2, k2) == if cs_get(pre, n2, k2) is Some {
                        cs_get(pre, n2, k2)
                    } else if n2 == ns && k2 == entry_view.key {
                        Some(entry_view.op)
                    } else {
                        None
                    } by {
                    lemma_cs_get_push(pre, entry_view, n2, k2);
                }
            }
        }
    }
}

} // verus!
