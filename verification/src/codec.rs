//! The fixed, versionless binary encoding of the witness package.
//!
//! Producer and consumer must agree on one encoding that round-trips the
//! package exactly; this is it.  Integers are little-endian and fixed
//! width; a byte string is its 64-bit length followed by its bytes; a list
//! is its 64-bit count followed by its elements in order.  The encoder is a
//! pure function of the package, so equal packages always serialize to
//! byte-identical blobs; the decoder is total over arbitrary byte strings
//! and rejects anything that is not exactly an encoded package.

use crate::changes::{ChangeEntry, ChangeSet, SpecChangeEntry, SpecOp, WriteOperation};
use crate::events::{events_view, Event, EventEntry, Relayer, SpecEventEntry};
use crate::witness::{Block, Input, SpecInput};
use vstd::prelude::*;

verus! {

/// The little-endian bytes of a 64-bit integer.
pub open spec fn spec_u64_le(n: u64) -> Seq<u8> {
    seq![
        (n & 0xff) as u8,
        ((n >> 8) & 0xff) as u8,
        ((n >> 16) & 0xff) as u8,
        ((n >> 24) & 0xff) as u8,
        ((n >> 32) & 0xff) as u8,
        ((n >> 40) & 0xff) as u8,
        ((n >> 48) & 0xff) as u8,
        ((n >> 56) & 0xff) as u8,
    ]
}

/// The little-endian bytes of a 32-bit integer.
pub open spec fn spec_u32_le(n: u32) -> Seq<u8> {
    seq![
        (n & 0xff) as u8,
        ((n >> 8) & 0xff) as u8,
        ((n >> 16) & 0xff) as u8,
        ((n >> 24) & 0xff) as u8,
    ]
}

/// The 64-bit integer read from eight little-endian bytes.
pub open spec fn spec_le_u64(s: Seq<u8>) -> u64
    recommends
        s.len() == 8,
{
    (s[0] as u64) | ((s[1] as u64) << 8) | ((s[2] as u64) << 16) | ((s[3] as u64) << 24) | (
    (s[4] as u64) << 32) | ((s[5] as u64) << 40) | ((s[6] as u64) << 48) | ((s[7] as u64) << 56)
}

/// The 32-bit integer read from four little-endian bytes.
pub open spec fn spec_le_u32(s: Seq<u8>) -> u32
    recommends
        s.len() == 4,
{
    (s[0] as u32) | ((s[1] as u32) << 8) | ((s[2] as u32) << 16) | ((s[3] as u32) << 24)
}

/// Reading back the written bytes of a 64-bit integer gives the integer.
pub proof fn lemma_u64_le_roundtrip(n: u64)
    ensures
        spec_le_u64(spec_u64_le(n)) == n,
{
    assert((((n & 0xff) as u8) as u64) | ((((n >> 8) & 0xff) as u8) as u64) << 8 | ((((n >> 16)
        & 0xff) as u8) as u64) << 16 | ((((n >> 24) & 0xff) as u8) as u64) << 24 | ((((n >> 32)
        & 0xff) as u8) as u64) << 32 | ((((n >> 40) & 0xff) as u8) as u64) << 40 | ((((n >> 48)
        & 0xff) as u8) as u64) << 48 | ((((n >> 56) & 0xff) as u8) as u64) << 56 == n)
        by (bit_vector);
}

/// Reading back the written bytes of a 32-bit integer gives the integer.
pub proof fn lemma_u32_le_roundtrip(n: u32)
    ensures
        spec_le_u32(spec_u32_le(n)) == n,
{
    assert((((n & 0xff) as u8) as u32) | ((((n >> 8) & 0xff) as u8) as u32) << 8 | ((((n >> 16)
        & 0xff) as u8) as u32) << 16 | ((((n >> 24) & 0xff) as u8) as u32) << 24 == n)
        by (bit_vector);
}

/// The encoding of a byte string: its length, then its bytes.
pub open spec fn spec_enc_bytes(s: Seq<u8>) -> Seq<u8> {
    spec_u64_le(s.len() as u64) + s
}

/// The encoding of a recorded outcome: a tag byte, then for a present
/// value the value itself.
pub open spec fn spec_enc_op(op: SpecOp) -> Seq<u8> {
    match op {
        SpecOp::Insert(v) => seq![0u8] + spec_enc_bytes(v),
        SpecOp::Remove => seq![1u8],
    }
}

/// The encoding of one change-set entry.
pub open spec fn spec_enc_change(e: SpecChangeEntry) -> Seq<u8> {
    spec_u32_le(e.ns) + spec_enc_bytes(e.key) + spec_enc_op(e.op)
}

/// The encoding of a change-set's entries, in order.
pub open spec fn spec_enc_changes(s: Seq<SpecChangeEntry>) -> Seq<u8>
    decreases s.len(),
{
    if s.len() == 0 {
        Seq::empty()
    } else {
        spec_enc_change(s[0]) + spec_enc_changes(s.drop_first())
    }
}

/// The encoding of an event list, in order.
pub open spec fn spec_enc_list(l: Seq<Seq<u8>>) -> Seq<u8>
    decreases l.len(),
{
    if l.len() == 0 {
        Seq::empty()
    } else {
        spec_enc_bytes(l[0]) + spec_enc_list(l.drop_first())
    }
}

/// The encoding of one event-mapping entry: the height, then its events.
pub open spec fn spec_enc_event_entry(e: SpecEventEntry) -> Seq<u8> {
    spec_u64_le(e.height) + spec_u64_le(e.events.len() as u64) + spec_enc_list(e.events)
}

/// The encoding of an event mapping's entries, in order.
pub open spec fn spec_enc_event_entries(s: Seq<SpecEventEntry>) -> Seq<u8>
    decreases s.len(),
{
    if s.len() == 0 {
        Seq::empty()
    } else {
        spec_enc_event_entry(s[0]) + spec_enc_event_entries(s.drop_first())
    }
}

/// The encoding of a whole witness package.
pub open spec fn spec_enc_input(iv: SpecInput) -> Seq<u8> {
    spec_enc_bytes(iv.block) + spec_u64_le(iv.changes.len() as u64) + spec_enc_changes(iv.changes)
        + spec_u64_le(iv.events.len() as u64) + spec_enc_event_entries(iv.events)
}

/// Appending an entry to a change-set appends its encoding.
pub proof fn lemma_enc_changes_snoc(s: Seq<SpecChangeEntry>, e: SpecChangeEntry)
    ensures
        spec_enc_changes(s.push(e)) == spec_enc_changes(s) + spec_enc_change(e),
    decreases s.len(),
{
    if s.len() == 0 {
        reveal_with_fuel(spec_enc_changes, 2);
        assert(s.push(e)[0] == e);
        assert(s.push(e).drop_first() =~= Seq::<SpecChangeEntry>::empty());
        assert(spec_enc_changes(s.push(e)) == spec_enc_change(e) + spec_enc_changes(
            s.push(e).drop_first(),
        ));
        assert(spec_enc_change(e) + Seq::<u8>::empty() =~= spec_enc_change(e));
        assert(spec_enc_changes(s) + spec_enc_change(e) =~= spec_enc_change(e));
    } else {
        assert(s.push(e)[0] == s[0]);
        assert(s.push(e).drop_first() =~= s.drop_first().push(e));
        lemma_enc_changes_snoc(s.drop_first(), e);
        assert(spec_enc_change(s[0]) + (spec_enc_changes(s.drop_first()) + spec_enc_change(e))
            =~= (spec_enc_change(s[0]) + spec_enc_changes(s.drop_first())) + spec_enc_change(e));
    }
}

/// Appending a byte string to an event list appends its encoding.
pub proof fn lemma_enc_list_snoc(l: Seq<Seq<u8>>, v: Seq<u8>)
    ensures
        spec_enc_list(l.push(v)) == spec_enc_list(l) + spec_enc_bytes(v),
    decreases l.len(),
{
    if l.len() == 0 {
        reveal_with_fuel(spec_enc_list, 2);
        assert(l.push(v)[0] == v);
        assert(l.push(v).drop_first() =~= Seq::<Seq<u8>>::empty());
        assert(spec_enc_list(l.push(v)) == spec_enc_bytes(v) + spec_enc_list(
            l.push(v).drop_first(),
        ));
        assert(spec_enc_bytes(v) + Seq::<u8>::empty() =~= spec_enc_bytes(v));
        assert(spec_enc_list(l) + spec_enc_bytes(v) =~= spec_enc_bytes(v));
    } else {
        assert(l.push(v)[0] == l[0]);
        assert(l.push(v).drop_first() =~= l.drop_first().push(v));
        lemma_enc_list_snoc(l.drop_first(), v);
        assert(spec_enc_bytes(l[0]) + (spec_enc_list(l.drop_first()) + spec_enc_bytes(v)) =~= (
        spec_enc_bytes(l[0]) + spec_enc_list(l.drop_first())) + spec_enc_bytes(v));
    }
}

/// Appending an entry to an event mapping appends its encoding.
pub proof fn lemma_enc_event_entries_snoc(s: Seq<SpecEventEntry>, e: SpecEventEntry)
    ensures
        spec_enc_event_entries(s.push(e)) == spec_enc_event_entries(s) + spec_enc_event_entry(e),
    decreases s.len(),
{
    if s.len() == 0 {
        reveal_with_fuel(spec_enc_event_entries, 2);
        assert(s.push(e)[0] == e);
        assert(s.push(e).drop_first() =~= Seq::<SpecEventEntry>::empty());
        assert(spec_enc_event_entries(s.push(e)) == spec_enc_event_entry(e)
            + spec_enc_event_entries(s.push(e).drop_first()));
        assert(spec_enc_event_entry(e) + Seq::<u8>::empty() =~= spec_enc_event_entry(e));
        assert(spec_enc_event_entries(s) + spec_enc_event_entry(e) =~= spec_enc_event_entry(e));
    } else {
        assert(s.push(e)[0] == s[0]);
        assert(s.push(e).drop_first() =~= s.drop_first().push(e));
        lemma_enc_event_entries_snoc(s.drop_first(), e);
        assert(spec_enc_event_entry(s[0]) + (spec_enc_event_entries(s.drop_first())
            + spec_enc_event_entry(e)) =~= (spec_enc_event_entry(s[0]) + spec_enc_event_entries(
            s.drop_first(),
        )) + spec_enc_event_entry(e));
    }
}

/// Writes a 64-bit integer, little-endian.
fn push_u64(out: &mut Vec<u8>, n: u64)
    ensures
        final(out)@ == old(out)@ + spec_u64_le(n),
{
    let ghost pre = out@;
    out.push((n & 0xff) as u8);
    out.push(((n >> 8) & 0xff) as u8);
    out.push(((n >> 16) & 0xff) as u8);
    out.push(((n >> 24) & 0xff) as u8);
    out.push(((n >> 32) & 0xff) as u8);
    out.push(((n >> 40) & 0xff) as u8);
    out.push(((n >> 48) & 0xff) as u8);
    out.push(((n >> 56) & 0xff) as u8);
    proof {
        assert(out@ =~= pre + spec_u64_le(n));
    }
}

/// Writes a 32-bit integer, little-endian.
fn push_u32(out: &mut Vec<u8>, n: u32)
    ensures
        final(out)@ == old(out)@ + spec_u32_le(n),
{
    let ghost pre = out@;
    out.push((n & 0xff) as u8);
    out.push(((n >> 8) & 0xff) as u8);
    out.push(((n >> 16) & 0xff) as u8);
    out.push(((n >> 24) & 0xff) as u8);
    proof {
        assert(out@ =~= pre + spec_u32_le(n));
    }
}

/// Writes a byte string: its length, then its bytes.
fn push_bytes(out: &mut Vec<u8>, s: &Vec<u8>)
    ensures
        final(out)@ == old(out)@ + spec_enc_bytes(s@),
{
    let ghost pre = out@;
    push_u64(out, s.len() as u64);
    let mut i: usize = 0;
    while i < s.len()
        invariant
            i <= s@.len(),
            out@ == pre + spec_u64_le(s@.len() as u64) + s@.take(i as int),
        decreases s@.len() - i,
    {
        out.push(s[i]);
        proof {
            assert(s@.take(i + 1 as int) =~= s@.take(i as int).push(s@[i as int]));
            assert((pre + spec_u64_le(s@.len() as u64) + s@.take(i as int)).push(s@[i as int])
                =~= pre + spec_u64_le(s@.len() as u64) + s@.take(i + 1 as int));
        }
        i = i + 1;
    }
    proof {
        assert(s@.take(s@.len() as int) =~= s@);
        assert(pre + spec_u64_le(s@.len() as u64) + s@ =~= pre + spec_enc_bytes(s@));
    }
}

/// Writes a recorded outcome: a tag byte, then a present value.
fn push_op(out: &mut Vec<u8>, op: &WriteOperation)
    ensures
        final(out)@ == old(out)@ + spec_enc_op(op@),
{
    let ghost pre = out@;
    match op {
        WriteOperation::Insert(v) => {
            out.push(0u8);
            push_bytes(out, v);
            proof {
                assert(out@ =~= pre + spec_enc_op(op@));
            }
        },
        WriteOperation::Remove => {
            out.push(1u8);
            proof {
                assert(out@ =~= pre + spec_enc_op(op@));
            }
        },
    }
}

/// Writes one change-set entry.
fn push_change(out: &mut Vec<u8>, e: &ChangeEntry)
    ensures
        final(out)@ == old(out)@ + spec_enc_change(e@),
{
    let ghost pre = out@;
    push_u32(out, e.ns);
    push_bytes(out, &e.key);
    push_op(out, &e.op);
    proof {
        assert(out@ =~= pre + spec_enc_change(e@));
    }
}

/// Writes one event-mapping entry: the height, then its events.
fn push_event_entry(out: &mut Vec<u8>, e: &EventEntry)
    ensures
        final(out)@ == old(out)@ + spec_enc_event_entry(e@),
{
    let ghost pre = out@;
    push_u64(out, e.height);
    push_u64(out, e.events.len() as u64);
    let ghost l = events_view(e.events@);
    let mut i: usize = 0;
    while i < e.events.len()
        invariant
            i <= e.events@.len(),
            l == events_view(e.events@),
            out@ == pre + spec_u64_le(e@.height) + spec_u64_le(l.len() as u64) + spec_enc_list(
                l.take(i as int),
            ),
        decreases e.events@.len() - i,
    {
        push_bytes(out, &e.events[i].payload);
        proof {
            assert(l.take(i + 1 as int) =~= l.take(i as int).push(l[i as int]));
            lemma_enc_list_snoc(l.take(i as int), l[i as int]);
            assert(l[i as int] == e.events@[i as int]@);
            assert(pre + spec_u64_le(e@.height) + spec_u64_le(l.len() as u64) + spec_enc_list(
                l.take(i as int),
            ) + spec_enc_bytes(l[i as int]) =~= pre + spec_u64_le(e@.height) + spec_u64_le(
                l.len() as u64,
            ) + spec_enc_list(l.take(i + 1 as int)));
        }
        i = i + 1;
    }
    proof {
        assert(l.take(l.len() as int) =~= l);
        assert(out@ =~= pre + spec_enc_event_entry(e@));
    }
}

/// Serializes a witness package to its binary encoding.  The result is a
/// pure function of the package: encoding the same package twice yields
/// byte-identical serializations.
pub fn encode_input(input: &Input) -> (r: Vec<u8>)
    ensures
        r@ == spec_enc_input(input@),
{
    let mut out: Vec<u8> = Vec::new();
    push_bytes(&mut out, &input.block.bytes);
    let ghost after_block = out@;

    push_u64(&mut out, input.storage.entries.len() as u64);
    let ghost cs = input.storage@;
    let mut i: usize = 0;
    while i < input.storage.entries.len()
        invariant
            i <= input.storage.entries@.len(),
            cs == input.storage@,
            out@ == after_block + spec_u64_le(cs.len() as u64) + spec_enc_changes(
                cs.take(i as int),
            ),
        decreases input.storage.entries@.len() - i,
    {
        push_change(&mut out, &input.storage.entries[i]);
        proof {
            assert(cs.take(i + 1 as int) =~= cs.take(i as int).push(cs[i as int]));
            lemma_enc_changes_snoc(cs.take(i as int), cs[i as int]);
            assert(cs[i as int] == input.storage.entries@[i as int]@);
            assert(after_block + spec_u64_le(cs.len() as u64) + spec_enc_changes(cs.take(i as int))
                + spec_enc_change(cs[i as int]) =~= after_block + spec_u64_le(cs.len() as u64)
                + spec_enc_changes(cs.take(i + 1 as int)));
        }
        i = i + 1;
    }
    proof {
        assert(cs.take(cs.len() as int) =~= cs);
    }
    let ghost after_changes = out@;

    push_u64(&mut out, input.relayer.entries.len() as u64);
    let ghost ev = input.relayer@;
    let mut j: usize = 0;
    while j < input.relayer.entries.len()
        invariant
            j <= input.relayer.entries@.len(),
            ev == input.relayer@,
            out@ == after_changes + spec_u64_le(ev.len() as u64) + spec_enc_event_entries(
                ev.take(j as int),
            ),
        decreases input.relayer.entries@.len() - j,
    {
        push_event_entry(&mut out, &input.relayer.entries[j]);
        proof {
            assert(ev.take(j + 1 as int) =~= ev.take(j as int).push(ev[j as int]));
            lemma_enc_event_entries_snoc(ev.take(j as int), ev[j as int]);
            assert(ev[j as int] == input.relayer.entries@[j as int]@);
            assert(after_changes + spec_u64_le(ev.len() as u64) + spec_enc_event_entries(
                ev.take(j as int),
            ) + spec_enc_event_entry(ev[j as int]) =~= after_changes + spec_u64_le(ev.len() as u64)
                + spec_enc_event_entries(ev.take(j + 1 as int)));
        }
        j = j + 1;
    }
    proof {
        assert(ev.take(ev.len() as int) =~= ev);
        assert(out@ =~= spec_enc_input(input@));
    }
    out
}


/// Errors of the decoder.
#[derive(Debug, PartialEq, Eq, Clone, Copy)]
pub enum DecodeError {
    /// The bytes are not exactly an encoded witness package.
    Malformed,
}

/// Parses a 64-bit integer; returns it and the remaining bytes.
pub open spec fn sp_u64(s: Seq<u8>) -> Option<(u64, Seq<u8>)> {
    if s.len() < 8 {
        None
    } else {
        Some((spec_le_u64(s.take(8)), s.skip(8)))
    }
}

/// Parses a 32-bit integer; returns it and the remaining bytes.
pub open spec fn sp_u32(s: Seq<u8>) -> Option<(u32, Seq<u8>)> {
    if s.len() < 4 {
        None
    } else {
        Some((spec_le_u32(s.take(4)), s.skip(4)))
    }
}

/// Parses a length-prefixed byte string.
pub open spec fn sp_bytes(s: Seq<u8>) -> Option<(Seq<u8>, Seq<u8>)> {
    match sp_u64(s) {
        None => None,
        Some((n, r)) => if r.len() < n {
            None
        } else {
            Some((r.take(n as int), r.skip(n as int)))
        },
    }
}

/// Parses a recorded outcome.
pub open spec fn sp_op(s: Seq<u8>) -> Option<(SpecOp, Seq<u8>)> {
    if s.len() == 0 {
        None
    } else if s[0] == 0 {
        match sp_bytes(s.drop_first()) {
            None => None,
            Some((v, r)) => Some((SpecOp::Insert(v), r)),
        }
    } else if s[0] == 1 {
        Some((SpecOp::Remove, s.drop_first()))
    } else {
        None
    }
}

/// Parses one change-set entry.
pub open spec fn sp_change(s: Seq<u8>) -> Option<(SpecChangeEntry, Seq<u8>)> {
    match sp_u32(s) {
        None => None,
        Some((ns, r1)) => match sp_bytes(r1) {
            None => None,
            Some((key, r2)) => match sp_op(r2) {
                None => None,
                Some((op, r3)) => Some((SpecChangeEntry { ns, key, op }, r3)),
            },
        },
    }
}

/// Parses exactly `count` change-set entries.
pub open spec fn sp_changes(s: Seq<u8>, count: nat) -> Option<(Seq<SpecChangeEntry>, Seq<u8>)>
    decreases count,
{
    if count == 0 {
        Some((Seq::empty(), s))
    } else {
        match sp_change(s) {
            None => None,
            Some((e, r)) => match sp_changes(r, (count - 1) as nat) {
                None => None,
                Some((es, r2)) => Some((seq![e] + es, r2)),
            },
        }
    }
}

/// Parses exactly `count` length-prefixed byte strings.
pub open spec fn sp_list(s: Seq<u8>, count: nat) -> Option<(Seq<Seq<u8>>, Seq<u8>)>
    decreases count,
{
    if count == 0 {
        Some((Seq::empty(), s))
    } else {
        match sp_bytes(s) {
            None => None,
            Some((v, r)) => match sp_list(r, (count - 1) as nat) {
                None => None,
                Some((l, r2)) => Some((seq![v] + l, r2)),
            },
        }
    }
}

/// Parses one event-mapping entry.
pub open spec fn sp_event_entry(s: Seq<u8>) -> Option<(SpecEventEntry, Seq<u8>)> {
    match sp_u64(s) {
        None => None,
        Some((h, r1)) => match sp_u64(r1) {
            None => None,
            Some((cnt, r2)) => match sp_list(r2, cnt as nat) {
                None => None,
                Some((l, r3)) => Some((SpecEventEntry { height: h, events: l }, r3)),
            },
        },
    }
}

/// Parses exactly `count` event-mapping entries.
pub open spec fn sp_event_entries(s: Seq<u8>, count: nat) -> Option<(Seq<SpecEventEntry>, Seq<u8>)>
    decreases count,
{
    if count == 0 {
        Some((Seq::empty(), s))
    } else {
        match sp_event_entry(s) {
            None => None,
            Some((e, r)) => match sp_event_entries(r, (count - 1) as nat) {
                None => None,
                Some((es, r2)) => Some((seq![e] + es, r2)),
            },
        }
    }
}

/// The tail of a package parse once the block and the change-set are read:
/// what the whole parse yields if the remaining bytes hold the event
/// mapping and nothing more.
pub open spec fn sp_tail_after_events(
    block: Seq<u8>,
    cs: Seq<SpecChangeEntry>,
    ev: Seq<SpecEventEntry>,
    r5: Seq<u8>,
) -> Option<SpecInput> {
    if r5.len() == 0 {
        Some(SpecInput { block, changes: cs, events: ev })
    } else {
        None
    }
}

/// The tail of a package parse once the block is read: what the whole
/// parse yields if the remaining bytes hold the event count, the event
/// mapping, and nothing more.
pub open spec fn sp_tail_after_changes(
    block: Seq<u8>,
    cs: Seq<SpecChangeEntry>,
    r3: Seq<u8>,
) -> Option<SpecInput> {
    match sp_u64(r3) {
        None => None,
        Some((en, r4)) => match sp_event_entries(r4, en as nat) {
            None => None,
            Some((ev, r5)) => sp_tail_after_events(block, cs, ev, r5),
        },
    }
}

/// What the decoder accepts: exactly the byte strings that parse as a whole
/// witness package with nothing left over.
pub open spec fn spec_decode_input(s: Seq<u8>) -> Option<SpecInput> {
    match sp_bytes(s) {
        None => None,
        Some((block, r1)) => match sp_u64(r1) {
            None => None,
            Some((cn, r2)) => match sp_changes(r2, cn as nat) {
                None => None,
                Some((cs, r3)) => sp_tail_after_changes(block, cs, r3),
            },
        },
    }
}

/// Reads a 64-bit integer, little-endian.
fn read_u64(bytes: &Vec<u8>, pos: &mut usize) -> (r: Result<u64, DecodeError>)
    requires
        *old(pos) <= bytes@.len(),
    ensures
        match r {
            Ok(n) => {
                &&& sp_u64(bytes@.skip(*old(pos) as int)) == Some(
                    (n, bytes@.skip(*final(pos) as int)),
                )
                &&& *final(pos) == *old(pos) + 8
                &&& *final(pos) <= bytes@.len()
            },
            Err(_) => {
                &&& sp_u64(bytes@.skip(*old(pos) as int)) is None
                &&& *final(pos) == *old(pos)
            },
        },
{
    let p = *pos;
    if bytes.len() - p < 8 {
        return Err(DecodeError::Malformed);
    }
    let n: u64 = (bytes[p] as u64) | ((bytes[p + 1] as u64) << 8) | ((bytes[p + 2] as u64) << 16)
        | ((bytes[p + 3] as u64) << 24) | ((bytes[p + 4] as u64) << 32) | ((bytes[p + 5]
        as u64) << 40) | ((bytes[p + 6] as u64) << 48) | ((bytes[p + 7] as u64) << 56);
    *pos = p + 8;
    proof {
        let s = bytes@.skip(p as int);
        assert(s.take(8)[0] == bytes@[p as int]);
        assert(s.take(8)[1] == bytes@[p + 1 as int]);
        assert(s.take(8)[2] == bytes@[p + 2 as int]);
        assert(s.take(8)[3] == bytes@[p + 3 as int]);
        assert(s.take(8)[4] == bytes@[p + 4 as int]);
        assert(s.take(8)[5] == bytes@[p + 5 as int]);
        assert(s.take(8)[6] == bytes@[p + 6 as int]);
        assert(s.take(8)[7] == bytes@[p + 7 as int]);
        assert(spec_le_u64(s.take(8)) == n);
        assert(s.skip(8) =~= bytes@.skip(p + 8 as int));
    }
    Ok(n)
}

/// Reads a 32-bit integer, little-endian.
fn read_u32(bytes: &Vec<u8>, pos: &mut usize) -> (r: Result<u32, DecodeError>)
    requires
        *old(pos) <= bytes@.len(),
    ensures
        match r {
            Ok(n) => {
                &&& sp_u32(bytes@.skip(*old(pos) as int)) == Some(
                    (n, bytes@.skip(*final(pos) as int)),
                )
                &&& *final(pos) == *old(pos) + 4
                &&& *final(pos) <= bytes@.len()
            },
            Err(_) => {
                &&& sp_u32(bytes@.skip(*old(pos) as int)) is None
                &&& *final(pos) == *old(pos)
            },
        },
{
    let p = *pos;
    if bytes.len() - p < 4 {
        return Err(DecodeError::Malformed);
    }
    let n: u32 = (bytes[p] as u32) | ((bytes[p + 1] as u32) << 8) | ((bytes[p + 2] as u32) << 16)
        | ((bytes[p + 3] as u32) << 24);
    *pos = p + 4;
    proof {
        let s = bytes@.skip(p as int);
        assert(s.take(4)[0] == bytes@[p as int]);
        assert(s.take(4)[1] == bytes@[p + 1 as int]);
        assert(s.take(4)[2] == bytes@[p + 2 as int]);
        assert(s.take(4)[3] == bytes@[p + 3 as int]);
        assert(spec_le_u32(s.take(4)) == n);
        assert(s.skip(4) =~= bytes@.skip(p + 4 as int));
    }
    Ok(n)
}

/// Copies the next `n` bytes.
fn read_exact(bytes: &Vec<u8>, pos: &mut usize, n: usize) -> (r: Vec<u8>)
    requires
        *old(pos) + n <= bytes@.len(),
    ensures
        r@ == bytes@.subrange(*old(pos) as int, *old(pos) + n as int),
        *final(pos) == *old(pos) + n,
{
    let p = *pos;
    let total = bytes.len();
    let mut out: Vec<u8> = Vec::new();
    let mut i: usize = 0;
    while i < n
        invariant
            i <= n,
            p + n <= total,
            total == bytes@.len(),
            out@ == bytes@.subrange(p as int, p + i as int),
        decreases n - i,
    {
        out.push(bytes[p + i]);
        proof {
            assert(bytes@.subrange(p as int, p + (i + 1) as int) =~= bytes@.subrange(
                p as int,
                p + i as int,
            ).push(bytes@[p + i as int]));
        }
        i = i + 1;
    }
    *pos = p + n;
    out
}

/// Reads a length-prefixed byte string.
fn read_bytes(bytes: &Vec<u8>, pos: &mut usize) -> (r: Result<Vec<u8>, DecodeError>)
    requires
        *old(pos) <= bytes@.len(),
    ensures
        match r {
            Ok(v) => {
                &&& sp_bytes(bytes@.skip(*old(pos) as int)) == Some(
                    (v@, bytes@.skip(*final(pos) as int)),
                )
                &&& *old(pos) <= *final(pos) <= bytes@.len()
            },
            Err(_) => sp_bytes(bytes@.skip(*old(pos) as int)) is None,
        },
{
    let ghost s = bytes@.skip(*old(pos) as int);
    let len = match read_u64(bytes, pos) {
        Ok(n) => n,
        Err(e) => {
            return Err(e);
        },
    };
    let remaining = bytes.len() - *pos;
    if len > remaining as u64 {
        proof {
            assert(bytes@.skip(*pos as int).len() < len);
        }
        return Err(DecodeError::Malformed);
    }
    let n = len as usize;
    let ghost mid = bytes@.skip(*pos as int);
    let v = read_exact(bytes, pos, n);
    proof {
        assert(mid.take(len as int) =~= v@);
        assert(mid.skip(len as int) =~= bytes@.skip(*pos as int));
    }
    Ok(v)
}

/// Reads a recorded outcome.
fn read_op(bytes: &Vec<u8>, pos: &mut usize) -> (r: Result<WriteOperation, DecodeError>)
    requires
        *old(pos) <= bytes@.len(),
    ensures
        match r {
            Ok(op) => {
                &&& sp_op(bytes@.skip(*old(pos) as int)) == Some(
                    (op@, bytes@.skip(*final(pos) as int)),
                )
                &&& *old(pos) <= *final(pos) <= bytes@.len()
            },
            Err(_) => sp_op(bytes@.skip(*old(pos) as int)) is None,
        },
{
    let ghost s = bytes@.skip(*old(pos) as int);
    let p = *pos;
    if p >= bytes.len() {
        proof {
            assert(s.len() == 0);
        }
        return Err(DecodeError::Malformed);
    }
    let tag = bytes[p];
    *pos = p + 1;
    proof {
        assert(s[0] == bytes@[p as int]);
        assert(s.drop_first() =~= bytes@.skip(p + 1 as int));
    }
    if tag == 0 {
        let v = match read_bytes(bytes, pos) {
            Ok(v) => v,
            Err(e) => {
                return Err(e);
            },
        };
        Ok(WriteOperation::Insert(v))
    } else if tag == 1 {
        Ok(WriteOperation::Remove)
    } else {
        Err(DecodeError::Malformed)
    }
}

/// Reads one change-set entry.
fn read_change(bytes: &Vec<u8>, pos: &mut usize) -> (r: Result<ChangeEntry, DecodeError>)
    requires
        *old(pos) <= bytes@.len(),
    ensures
        match r {
            Ok(e) => {
                &&& sp_change(bytes@.skip(*old(pos) as int)) == Some(
                    (e@, bytes@.skip(*final(pos) as int)),
                )
                &&& *old(pos) <= *final(pos) <= bytes@.len()
            },
            Err(_) => sp_change(bytes@.skip(*old(pos) as int)) is None,
        },
{
    let ns = match read_u32(bytes, pos) {
        Ok(n) => n,
        Err(e) => {
            return Err(e);
        },
    };
    let key = match read_bytes(bytes, pos) {
        Ok(v) => v,
        Err(e) => {
            return Err(e);
        },
    };
    let op = match read_op(bytes, pos) {
        Ok(o) => o,
        Err(e) => {
            return Err(e);
        },
    };
    Ok(ChangeEntry { ns, key, op })
}

/// Reads one event-mapping entry.
fn read_event_entry(bytes: &Vec<u8>, pos: &mut usize) -> (r: Result<EventEntry, DecodeError>)
    requires
        *old(pos) <= bytes@.len(),
    ensures
        match r {
            Ok(e) => {
                &&& sp_event_entry(bytes@.skip(*old(pos) as int)) == Some(
                    (e@, bytes@.skip(*final(pos) as int)),
                )
                &&& *old(pos) <= *final(pos) <= bytes@.len()
            },
            Err(_) => sp_event_entry(bytes@.skip(*old(pos) as int)) is None,
        },
{
    let ghost p0 = *pos;
    let height = match read_u64(bytes, pos) {
        Ok(n) => n,
        Err(e) => {
            return Err(e);
        },
    };
    let count = match read_u64(bytes, pos) {
        Ok(n) => n,
        Err(e) => {
            return Err(e);
        },
    };
    let mut events: Vec<Event> = Vec::new();
    let mut k: u64 = 0;
    proof {
        match sp_list(bytes@.skip(*pos as int), count as nat) {
            Some((l, r)) => {
                assert(Seq::<Seq<u8>>::empty() + l =~= l);
                assert(events_view(events@) =~= Seq::<Seq<u8>>::empty());
            },
            None => {},
        }
    }
    while k < count
        invariant
            p0 == *old(pos),
            p0 <= *pos,
            k <= count,
            *pos <= bytes@.len(),
            events@.len() == k,
            match sp_list(bytes@.skip(*pos as int), (count - k) as nat) {
                Some((l, r)) => sp_event_entry(bytes@.skip(p0 as int)) == Some(
                    (SpecEventEntry { height, events: events_view(events@) + l }, r),
                ),
                None => sp_event_entry(bytes@.skip(p0 as int)) is None,
            },
        decreases count - k,
    {
        let ghost pos_before = *pos;
        let ghost acc = events_view(events@);
        let ghost rem = (count - k) as nat;
        let v = match read_bytes(bytes, pos) {
            Ok(v) => v,
            Err(e) => {
                proof {
                    assert(sp_list(bytes@.skip(pos_before as int), rem) is None);
                }
                return Err(e);
            },
        };
        events.push(Event { payload: v });
        proof {
            assert(events_view(events@) =~= acc.push(v@));
            match sp_list(bytes@.skip(pos_before as int), rem) {
                Some((l_old, r_old)) => {
                    match sp_list(bytes@.skip(*pos as int), (rem - 1) as nat) {
                        Some((l_new, r_new)) => {
                            assert(l_old == seq![v@] + l_new && r_old == r_new);
                            assert(acc + (seq![v@] + l_new) =~= acc.push(v@) + l_new);
                        },
                        None => {
                            assert(false);
                        },
                    }
                },
                None => {
                    assert(sp_list(bytes@.skip(*pos as int), (rem - 1) as nat) is None);
                },
            }
        }
        k = k + 1;
    }
    proof {
        assert(k == count);
        assert((count - k) as nat == 0);
        assert(sp_list(bytes@.skip(*pos as int), 0) == Some(
            (Seq::<Seq<u8>>::empty(), bytes@.skip(*pos as int)),
        ));
        assert(events_view(events@) + Seq::<Seq<u8>>::empty() =~= events_view(events@));
        assert(sp_event_entry(bytes@.skip(p0 as int)) == Some(
            (
                SpecEventEntry { height, events: events_view(events@) },
                bytes@.skip(*pos as int),
            ),
        ));
    }
    Ok(EventEntry { height, events })
}

/// Deserializes a witness package from its binary encoding.  Succeeds on
/// exactly the byte strings the encoder produces — anything else, a
/// truncated, altered or trailing-garbage blob included, is rejected as
/// malformed.
pub fn decode_input(bytes: &Vec<u8>) -> (r: Result<Input, DecodeError>)
    ensures
        match r {
            Ok(v) => spec_decode_input(bytes@) == Some(v@),
            Err(_) => spec_decode_input(bytes@) is None,
        },
{
    let mut pos: usize = 0;
    proof {
        assert(bytes@.skip(0) =~= bytes@);
    }
    let block_bytes = match read_bytes(bytes, &mut pos) {
        Ok(v) => v,
        Err(_) => {
            return Err(DecodeError::Malformed);
        },
    };
    let cs_count = match read_u64(bytes, &mut pos) {
        Ok(n) => n,
        Err(_) => {
            return Err(DecodeError::Malformed);
        },
    };
    let mut entries: Vec<ChangeEntry> = Vec::new();
    let mut k: u64 = 0;
    proof {
        match sp_changes(bytes@.skip(pos as int), cs_count as nat) {
            Some((l, r)) => {
                assert(Seq::<SpecChangeEntry>::empty() + l =~= l);
                assert(entries@.map(|i: int, e: ChangeEntry| e@) =~= Seq::<
                    SpecChangeEntry,
                >::empty());
            },
            None => {},
        }
    }
    while k < cs_count
        invariant
            k <= cs_count,
            pos <= bytes@.len(),
            entries@.len() == k,
            match sp_changes(bytes@.skip(pos as int), (cs_count - k) as nat) {
                Some((l, r)) => spec_decode_input(bytes@) == sp_tail_after_changes(
                    block_bytes@,
                    entries@.map(|i: int, e: ChangeEntry| e@) + l,
                    r,
                ),
                None => spec_decode_input(bytes@) is None,
            },
        decreases cs_count - k,
    {
        let ghost pos_before = pos;
        let ghost acc = entries@.map(|i: int, e: ChangeEntry| e@);
        let ghost rem = (cs_count - k) as nat;
        let e = match read_change(bytes, &mut pos) {
            Ok(e) => e,
            Err(_) => {
                proof {
                    assert(sp_changes(bytes@.skip(pos_before as int), rem) is None);
                }
                return Err(DecodeError::Malformed);
            },
        };
        let ghost new_entry = e@;
        entries.push(e);
        proof {
            assert(entries@.map(|i: int, e2: ChangeEntry| e2@) =~= acc.push(new_entry));
            match sp_changes(bytes@.skip(pos_before as int), rem) {
                Some((l_old, r_old)) => {
                    match sp_changes(bytes@.skip(pos as int), (rem - 1) as nat) {
                        Some((l_new, r_new)) => {
                            assert(l_old == seq![new_entry] + l_new && r_old == r_new);
                            assert(acc + (seq![new_entry] + l_new) =~= acc.push(new_entry)
                                + l_new);
                        },
                        None => {
                            assert(false);
                        },
                    }
                },
                None => {
                    assert(sp_changes(bytes@.skip(pos as int), (rem - 1) as nat) is None);
                },
            }
        }
        k = k + 1;
    }
    proof {
        assert(sp_changes(bytes@.skip(pos as int), 0) == Some(
            (Seq::<SpecChangeEntry>::empty(), bytes@.skip(pos as int)),
        ));
        assert(entries@.map(|i: int, e: ChangeEntry| e@) + Seq::<SpecChangeEntry>::empty()
            =~= entries@.map(|i: int, e: ChangeEntry| e@));
    }

    let ev_count = match read_u64(bytes, &mut pos) {
        Ok(n) => n,
        Err(_) => {
            return Err(DecodeError::Malformed);
        },
    };
    let ghost cs_views = entries@.map(|i: int, e: ChangeEntry| e@);
    let mut eentries: Vec<EventEntry> = Vec::new();
    let mut j: u64 = 0;
    proof {
        match sp_event_entries(bytes@.skip(pos as int), ev_count as nat) {
            Some((l, r)) => {
                assert(Seq::<SpecEventEntry>::empty() + l =~= l);
                assert(eentries@.map(|i: int, e: EventEntry| e@) =~= Seq::<
                    SpecEventEntry,
                >::empty());
            },
            None => {},
        }
    }
    while j < ev_count
        invariant
            j <= ev_count,
            pos <= bytes@.len(),
            eentries@.len() == j,
            cs_views == entries@.map(|i: int, e: ChangeEntry| e@),
            match sp_event_entries(bytes@.skip(pos as int), (ev_count - j) as nat) {
                Some((l, r)) => spec_decode_input(bytes@) == sp_tail_after_events(
                    block_bytes@,
                    cs_views,
                    eentries@.map(|i: int, e: EventEntry| e@) + l,
                    r,
                ),
                None => spec_decode_input(bytes@) is None,
            },
        decreases ev_count - j,
    {
        let ghost pos_before = pos;
        let ghost acc = eentries@.map(|i: int, e: EventEntry| e@);
        let ghost rem = (ev_count - j) as nat;
        let e = match read_event_entry(bytes, &mut pos) {
            Ok(e) => e,
            Err(_) => {
                proof {
                    assert(sp_event_entries(bytes@.skip(pos_before as int), rem) is None);
                }
                return Err(DecodeError::Malformed);
            },
        };
        let ghost new_entry = e@;
        eentries.push(e);
        proof {
            assert(eentries@.map(|i: int, e2: EventEntry| e2@) =~= acc.push(new_entry));
            match sp_event_entries(bytes@.skip(pos_before as int), rem) {
                Some((l_old, r_old)) => {
                    match sp_event_entries(bytes@.skip(pos as int), (rem - 1) as nat) {
                        Some((l_new, r_new)) => {
                            assert(l_old == seq![new_entry] + l_new && r_old == r_new);
                            assert(acc + (seq![new_entry] + l_new) =~= acc.push(new_entry)
                                + l_new);
                        },
                        None => {
                            assert(false);
                        },
                    }
                },
                None => {
                    assert(sp_event_entries(bytes@.skip(pos as int), (rem - 1) as nat) is None);
                },
            }
        }
        j = j + 1;
    }
    proof {
        assert(sp_event_entries(bytes@.skip(pos as int), 0) == Some(
            (Seq::<SpecEventEntry>::empty(), bytes@.skip(pos as int)),
        ));
        assert(eentries@.map(|i: int, e: EventEntry| e@) + Seq::<SpecEventEntry>::empty()
            =~= eentries@.map(|i: int, e: EventEntry| e@));
    }

    if pos != bytes.len() {
        proof {
            assert(bytes@.skip(pos as int).len() > 0);
        }
        return Err(DecodeError::Malformed);
    }
    proof {
        assert(bytes@.skip(pos as int).len() == 0);
    }
    Ok(
        Input {
            block: Block { bytes: block_bytes },
            storage: ChangeSet { entries },
            relayer: Relayer { entries: eentries },
        },
    )
}


/// A recorded outcome whose value fits its 64-bit length prefix.
pub open spec fn sized_op(op: SpecOp) -> bool {
    match op {
        SpecOp::Insert(v) => v.len() <= u64::MAX,
        SpecOp::Remove => true,
    }
}

/// A change-set entry whose key and value fit their length prefixes.
pub open spec fn sized_change(e: SpecChangeEntry) -> bool {
    e.key.len() <= u64::MAX && sized_op(e.op)
}

/// A change-set whose count and entries fit their length prefixes.
pub open spec fn sized_changes(s: Seq<SpecChangeEntry>) -> bool {
    s.len() <= u64::MAX && forall|i: int| 0 <= i < s.len() ==> sized_change(#[trigger] s[i])
}

/// An event list whose count and payloads fit their length prefixes.
pub open spec fn sized_list(l: Seq<Seq<u8>>) -> bool {
    l.len() <= u64::MAX && forall|i: int| 0 <= i < l.len() ==> (#[trigger] l[i]).len() <= u64::MAX
}

/// An event mapping whose count and entries fit their length prefixes.
pub open spec fn sized_event_entries(s: Seq<SpecEventEntry>) -> bool {
    s.len() <= u64::MAX && forall|i: int| 0 <= i < s.len() ==> sized_list((#[trigger] s[i]).events)
}

/// A package all of whose parts fit their 64-bit length prefixes.  Every
/// package held in memory satisfies this: each of its parts is shorter
/// than the address space.
pub open spec fn sized_input(iv: SpecInput) -> bool {
    iv.block.len() <= u64::MAX && sized_changes(iv.changes) && sized_event_entries(iv.events)
}

/// Concatenation is associative.
pub proof fn lemma_concat_assoc(a: Seq<u8>, b: Seq<u8>, c: Seq<u8>)
    ensures
        (a + b) + c == a + (b + c),
{
    assert((a + b) + c =~= a + (b + c));
}

/// The empty sequence is a left unit of concatenation.
pub proof fn lemma_empty_concat(a: Seq<u8>)
    ensures
        Seq::<u8>::empty() + a == a,
{
    assert(Seq::<u8>::empty() + a =~= a);
}

/// Taking a concatenation's first part gives that part.
pub proof fn lemma_concat_take(a: Seq<u8>, b: Seq<u8>)
    ensures
        (a + b).take(a.len() as int) == a,
{
    assert((a + b).take(a.len() as int) =~= a);
}

/// Skipping a concatenation's first part gives the second.
pub proof fn lemma_concat_skip(a: Seq<u8>, b: Seq<u8>)
    ensures
        (a + b).skip(a.len() as int) == b,
{
    assert((a + b).skip(a.len() as int) =~= b);
}

/// Parsing an encoded 64-bit integer yields the integer and the rest.
pub proof fn lemma_sp_u64_enc(n: u64, rest: Seq<u8>)
    ensures
        sp_u64(spec_u64_le(n) + rest) == Some((n, rest)),
{
    assert(spec_u64_le(n).len() == 8);
    lemma_concat_take(spec_u64_le(n), rest);
    lemma_concat_skip(spec_u64_le(n), rest);
    lemma_u64_le_roundtrip(n);
}

/// Parsing an encoded 32-bit integer yields the integer and the rest.
pub proof fn lemma_sp_u32_enc(n: u32, rest: Seq<u8>)
    ensures
        sp_u32(spec_u32_le(n) + rest) == Some((n, rest)),
{
    assert(spec_u32_le(n).len() == 4);
    lemma_concat_take(spec_u32_le(n), rest);
    lemma_concat_skip(spec_u32_le(n), rest);
    lemma_u32_le_roundtrip(n);
}

/// Parsing an encoded byte string yields the string and the rest.
pub proof fn lemma_sp_bytes_enc(v: Seq<u8>, rest: Seq<u8>)
    requires
        v.len() <= u64::MAX,
    ensures
        sp_bytes(spec_enc_bytes(v) + rest) == Some((v, rest)),
{
    let n = v.len() as u64;
    lemma_concat_assoc(spec_u64_le(n), v, rest);
    assert(spec_enc_bytes(v) + rest == spec_u64_le(n) + (v + rest));
    lemma_sp_u64_enc(n, v + rest);
    assert((v + rest).len() >= n);
    lemma_concat_take(v, rest);
    lemma_concat_skip(v, rest);
    assert(n as int == v.len() as int);
}

/// Parsing an encoded outcome yields the outcome and the rest.
pub proof fn lemma_sp_op_enc(op: SpecOp, rest: Seq<u8>)
    requires
        sized_op(op),
    ensures
        sp_op(spec_enc_op(op) + rest) == Some((op, rest)),
{
    match op {
        SpecOp::Insert(v) => {
            let s = spec_enc_op(op) + rest;
            lemma_concat_assoc(seq![0u8], spec_enc_bytes(v), rest);
            assert(s == seq![0u8] + (spec_enc_bytes(v) + rest));
            assert(s[0] == 0u8);
            lemma_concat_skip(seq![0u8], spec_enc_bytes(v) + rest);
            assert(s.drop_first() == spec_enc_bytes(v) + rest);
            lemma_sp_bytes_enc(v, rest);
        },
        SpecOp::Remove => {
            let s = spec_enc_op(op) + rest;
            assert(s[0] == 1u8);
            lemma_concat_skip(seq![1u8], rest);
            assert(s.drop_first() == rest);
        },
    }
}

/// Parsing an encoded change-set entry yields the entry and the rest.
pub proof fn lemma_sp_change_enc(e: SpecChangeEntry, rest: Seq<u8>)
    requires
        sized_change(e),
    ensures
        sp_change(spec_enc_change(e) + rest) == Some((e, rest)),
{
    let a = spec_u32_le(e.ns);
    let b = spec_enc_bytes(e.key);
    let c = spec_enc_op(e.op);
    lemma_concat_assoc(a + b, c, rest);
    lemma_concat_assoc(a, b, c + rest);
    assert(spec_enc_change(e) + rest == a + (b + (c + rest)));
    lemma_sp_u32_enc(e.ns, b + (c + rest));
    lemma_sp_bytes_enc(e.key, c + rest);
    lemma_sp_op_enc(e.op, rest);
    assert(SpecChangeEntry { ns: e.ns, key: e.key, op: e.op } == e);
}

/// One parse step: a change-set entry followed by a parsed tail.
pub proof fn lemma_sp_changes_cons(
    e: SpecChangeEntry,
    tl: Seq<SpecChangeEntry>,
    s0: Seq<u8>,
    s1: Seq<u8>,
    rest: Seq<u8>,
)
    requires
        sp_change(s0) == Some((e, s1)),
        sp_changes(s1, tl.len()) == Some((tl, rest)),
    ensures
        sp_changes(s0, tl.len() + 1) == Some((seq![e] + tl, rest)),
{
}

/// One parse step: a byte string followed by a parsed tail.
pub proof fn lemma_sp_list_cons(
    v: Seq<u8>,
    tl: Seq<Seq<u8>>,
    s0: Seq<u8>,
    s1: Seq<u8>,
    rest: Seq<u8>,
)
    requires
        sp_bytes(s0) == Some((v, s1)),
        sp_list(s1, tl.len()) == Some((tl, rest)),
    ensures
        sp_list(s0, tl.len() + 1) == Some((seq![v] + tl, rest)),
{
}

/// One parse step: an event-mapping entry followed by a parsed tail.
pub proof fn lemma_sp_event_entries_cons(
    e: SpecEventEntry,
    tl: Seq<SpecEventEntry>,
    s0: Seq<u8>,
    s1: Seq<u8>,
    rest: Seq<u8>,
)
    requires
        sp_event_entry(s0) == Some((e, s1)),
        sp_event_entries(s1, tl.len()) == Some((tl, rest)),
    ensures
        sp_event_entries(s0, tl.len() + 1) == Some((seq![e] + tl, rest)),
{
}

/// Parsing an encoded change-set yields the change-set and the rest.
#[verifier::rlimit(50)]
#[verifier::spinoff_prover]
pub proof fn lemma_sp_changes_enc(s: Seq<SpecChangeEntry>, rest: Seq<u8>)
    requires
        sized_changes(s),
    ensures
        sp_changes(spec_enc_changes(s) + rest, s.len()) == Some((s, rest)),
    decreases s.len(),
{
    if s.len() == 0 {
        lemma_empty_concat(rest);
        assert(spec_enc_changes(s) + rest == rest);
        assert(s =~= Seq::<SpecChangeEntry>::empty());
    } else {
        let e = s[0];
        let tl = s.drop_first();
        let restl = spec_enc_changes(tl) + rest;
        assert(sized_change(e));
        assert forall|i: int| 0 <= i < tl.len() implies sized_change(#[trigger] tl[i]) by {
            assert(tl[i] == s[i + 1]);
        }
        lemma_concat_assoc(spec_enc_change(e), spec_enc_changes(tl), rest);
        assert(spec_enc_changes(s) + rest == spec_enc_change(e) + restl);
        lemma_sp_change_enc(e, restl);
        lemma_sp_changes_enc(tl, rest);
        lemma_sp_changes_cons(e, tl, spec_enc_changes(s) + rest, restl, rest);
        assert(seq![e] + tl =~= s);
    }
}

/// Parsing an encoded event list yields the list and the rest.
#[verifier::rlimit(50)]
#[verifier::spinoff_prover]
pub proof fn lemma_sp_list_enc(l: Seq<Seq<u8>>, rest: Seq<u8>)
    requires
        sized_list(l),
    ensures
        sp_list(spec_enc_list(l) + rest, l.len()) == Some((l, rest)),
    decreases l.len(),
{
    if l.len() == 0 {
        lemma_empty_concat(rest);
        assert(spec_enc_list(l) + rest == rest);
        assert(l =~= Seq::<Seq<u8>>::empty());
    } else {
        let v = l[0];
        let tl = l.drop_first();
        let restl = spec_enc_list(tl) + rest;
        assert forall|i: int| 0 <= i < tl.len() implies (#[trigger] tl[i]).len() <= u64::MAX by {
            assert(tl[i] == l[i + 1]);
        }
        lemma_concat_assoc(spec_enc_bytes(v), spec_enc_list(tl), rest);
        assert(spec_enc_list(l) + rest == spec_enc_bytes(v) + restl);
        lemma_sp_bytes_enc(v, restl);
        lemma_sp_list_enc(tl, rest);
        lemma_sp_list_cons(v, tl, spec_enc_list(l) + rest, restl, rest);
        assert(seq![v] + tl =~= l);
    }
}

/// Parsing an encoded event-mapping entry yields the entry and the rest.
pub proof fn lemma_sp_event_entry_enc(e: SpecEventEntry, rest: Seq<u8>)
    requires
        sized_list(e.events),
    ensures
        sp_event_entry(spec_enc_event_entry(e) + rest) == Some((e, rest)),
{
    let cnt = e.events.len() as u64;
    let a = spec_u64_le(e.height);
    let b = spec_u64_le(cnt);
    let c = spec_enc_list(e.events);
    lemma_concat_assoc(a + b, c, rest);
    lemma_concat_assoc(a, b, c + rest);
    assert(spec_enc_event_entry(e) + rest == a + (b + (c + rest)));
    lemma_sp_u64_enc(e.height, b + (c + rest));
    lemma_sp_u64_enc(cnt, c + rest);
    lemma_sp_list_enc(e.events, rest);
    assert(cnt as nat == e.events.len());
    assert(SpecEventEntry { height: e.height, events: e.events } == e);
}

/// Parsing an encoded event mapping yields the mapping and the rest.
#[verifier::rlimit(50)]
#[verifier::spinoff_prover]
pub proof fn lemma_sp_event_entries_enc(s: Seq<SpecEventEntry>, rest: Seq<u8>)
    requires
        sized_event_entries(s),
    ensures
        sp_event_entries(spec_enc_event_entries(s) + rest, s.len()) == Some((s, rest)),
    decreases s.len(),
{
    if s.len() == 0 {
        lemma_empty_concat(rest);
        assert(spec_enc_event_entries(s) + rest == rest);
        assert(s =~= Seq::<SpecEventEntry>::empty());
    } else {
        let e = s[0];
        let tl = s.drop_first();
        let restl = spec_enc_event_entries(tl) + rest;
        assert(sized_list(e.events));
        assert forall|i: int| 0 <= i < tl.len() implies sized_list((#[trigger] tl[i]).events) by {
            assert(tl[i] == s[i + 1]);
        }
        lemma_concat_assoc(spec_enc_event_entry(e), spec_enc_event_entries(tl), rest);
        assert(spec_enc_event_entries(s) + rest == spec_enc_event_entry(e) + restl);
        lemma_sp_event_entry_enc(e, restl);
        lemma_sp_event_entries_enc(tl, rest);
        lemma_sp_event_entries_cons(e, tl, spec_enc_event_entries(s) + rest, restl, rest);
        assert(seq![e] + tl =~= s);
    }
}

/// Round trip: decoding an encoded package gives back exactly the package.
/// Together with the encoder's determinism, this is what makes the
/// serialized blob a faithful carrier of the witness across the trust
/// boundary.
#[verifier::rlimit(50)]
#[verifier::spinoff_prover]
pub proof fn lemma_decode_encode(iv: SpecInput)
    requires
        sized_input(iv),
    ensures
        spec_decode_input(spec_enc_input(iv)) == Some(iv),
{
    let cn = iv.changes.len() as u64;
    let en = iv.events.len() as u64;
    let a = spec_enc_bytes(iv.block);
    let b = spec_u64_le(cn);
    let c = spec_enc_changes(iv.changes);
    let d = spec_u64_le(en);
    let e = spec_enc_event_entries(iv.events);
    let r4 = e + Seq::<u8>::empty();
    let r3 = d + r4;
    let r2 = c + r3;
    let r1 = b + r2;
    assert(e + Seq::<u8>::empty() =~= e);
    lemma_concat_assoc(a + b + c + d, e, Seq::<u8>::empty());
    lemma_concat_assoc(a + b + c, d, e);
    lemma_concat_assoc(a + b, c, d + e);
    lemma_concat_assoc(a, b, c + (d + e));
    assert(spec_enc_input(iv) == a + (b + (c + (d + e))));
    assert(spec_enc_input(iv) == a + r1) by {
        assert(r4 == e);
    }
    lemma_sp_bytes_enc(iv.block, r1);
    lemma_sp_u64_enc(cn, r2);
    lemma_sp_changes_enc(iv.changes, r3);
    assert(cn as nat == iv.changes.len());
    lemma_sp_u64_enc(en, r4);
    lemma_sp_event_entries_enc(iv.events, Seq::<u8>::empty());
    assert(en as nat == iv.events.len());
    assert(SpecInput { block: iv.block, changes: iv.changes, events: iv.events } == iv);
    assert(Seq::<u8>::empty().len() == 0);
}


/// Every package held in memory is sized: each of its vectors is no longer
/// than the address space allows, which fits the 64-bit length prefixes.
pub proof fn lemma_input_sized(input: Input)
    ensures
        sized_input(input@),
{
    vstd::std_specs::vec::axiom_spec_len(&input.block.bytes);
    vstd::std_specs::vec::axiom_spec_len(&input.storage.entries);
    vstd::std_specs::vec::axiom_spec_len(&input.relayer.entries);
    assert forall|i: int| 0 <= i < input.storage@.len() implies sized_change(
        #[trigger] input.storage@[i],
    ) by {
        let e = input.storage.entries@[i];
        assert(input.storage@[i] == e@);
        vstd::std_specs::vec::axiom_spec_len(&e.key);
        match e.op {
            WriteOperation::Insert(v) => {
                vstd::std_specs::vec::axiom_spec_len(&v);
            },
            WriteOperation::Remove => {},
        }
    }
    assert forall|i: int| 0 <= i < input.relayer@.len() implies sized_list(
        (#[trigger] input.relayer@[i]).events,
    ) by {
        let e = input.relayer.entries@[i];
        assert(input.relayer@[i] == e@);
        vstd::std_specs::vec::axiom_spec_len(&e.events);
        assert forall|j: int| 0 <= j < e@.events.len() implies (#[trigger] e@.events[j]).len()
            <= u64::MAX by {
            let ev = e.events@[j];
            assert(e@.events[j] == ev@);
            vstd::std_specs::vec::axiom_spec_len(&ev.payload);
        }
    }
}

/// Round trip for any package value: serializing it and deserializing the
/// bytes gives back exactly the package.
pub proof fn lemma_round_trip(input: Input)
    ensures
        spec_decode_input(spec_enc_input(input@)) == Some(input@),
{
    lemma_input_sized(input);
    lemma_decode_encode(input@);
}

} // verus!
