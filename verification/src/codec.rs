//! The byte layout in which a validator set is persisted.
//!
//! Each entry is written as the length of its public key (eight bytes, little-endian), the
//! key itself, and its voting power (eight bytes, little-endian); the entries follow one
//! another with nothing between or after them. The layout is canonical: a byte string is
//! the encoding of at most one sequence of entries, and decoding an encoding gives back the
//! entries that were encoded.

use crate::buffer::{append, copy_bytes};
use crate::validators::{validator_views, Validator};
use vstd::bytes::{
    lemma_auto_spec_u64_to_from_le_bytes, spec_u64_from_le_bytes, spec_u64_to_le_bytes,
    u64_from_le_bytes, u64_to_le_bytes,
};
use vstd::prelude::*;
use vstd::slice::slice_subrange;

verus! {

/// The bytes of one entry.
pub open spec fn encode_entry(e: (Seq<u8>, u64)) -> Seq<u8> {
    spec_u64_to_le_bytes(e.0.len() as u64) + e.0 + spec_u64_to_le_bytes(e.1)
}

/// The bytes of a sequence of entries: those of each entry, in order.
pub open spec fn encode_entries(entries: Seq<(Seq<u8>, u64)>) -> Seq<u8>
    decreases entries.len(),
{
    if entries.len() == 0 {
        Seq::empty()
    } else {
        encode_entry(entries.first()) + encode_entries(entries.drop_first())
    }
}

/// The entries that `bytes` encodes, or `None` where `bytes` ends inside an entry.
pub open spec fn decode_entries(bytes: Seq<u8>) -> Option<Seq<(Seq<u8>, u64)>>
    decreases bytes.len(),
{
    if bytes.len() == 0 {
        Some(Seq::empty())
    } else if bytes.len() < 16 {
        None
    } else {
        let n = spec_u64_from_le_bytes(bytes.subrange(0, 8)) as int;
        if n > bytes.len() - 16 {
            None
        } else {
            let key = bytes.subrange(8, 8 + n);
            let power = spec_u64_from_le_bytes(bytes.subrange(8 + n, 16 + n));
            match decode_entries(bytes.skip(16 + n)) {
                Some(rest) => Some(seq![(key, power)] + rest),
                None => None,
            }
        }
    }
}

/// Every key is short enough for its length to fit the eight bytes that hold it.
pub open spec fn keys_fit(entries: Seq<(Seq<u8>, u64)>) -> bool {
    forall|i: int| 0 <= i < entries.len() ==> (#[trigger] entries[i]).0.len() <= u64::MAX
}

/// Encoding one more entry appends its bytes.
pub proof fn lemma_encode_push(entries: Seq<(Seq<u8>, u64)>, e: (Seq<u8>, u64))
    ensures
        encode_entries(entries.push(e)) == encode_entries(entries) + encode_entry(e),
    decreases entries.len(),
{
    if entries.len() == 0 {
        assert(entries.push(e).drop_first() =~= entries);
        assert(encode_entries(entries.push(e)) =~= encode_entry(e) + encode_entries(entries));
        assert(encode_entries(entries.push(e)) =~= encode_entries(entries) + encode_entry(e));
    } else {
        lemma_encode_push(entries.drop_first(), e);
        assert(entries.push(e).drop_first() =~= entries.drop_first().push(e));
        assert(entries.push(e).first() == entries.first());
        assert(encode_entries(entries.push(e)) =~= encode_entries(entries) + encode_entry(e));
    }
}

/// Decoding the encoding of a sequence of entries gives back that sequence.
pub proof fn lemma_decode_encode(entries: Seq<(Seq<u8>, u64)>)
    requires
        keys_fit(entries),
    ensures
        decode_entries(encode_entries(entries)) == Some(entries),
    decreases entries.len(),
{
    lemma_auto_spec_u64_to_from_le_bytes();
    if entries.len() > 0 {
        let e = entries.first();
        let rest = entries.drop_first();
        let bytes = encode_entries(entries);
        let n = e.0.len() as int;
        assert(e.0.len() <= u64::MAX);
        assert forall|i: int| 0 <= i < rest.len() implies (#[trigger] rest[i]).0.len()
            <= u64::MAX by {
            assert(rest[i] == entries[i + 1]);
        }
        lemma_decode_encode(rest);
        assert(bytes.subrange(0, 8) =~= spec_u64_to_le_bytes(e.0.len() as u64));
        assert(bytes.subrange(8, 8 + n) =~= e.0);
        assert(bytes.subrange(8 + n, 16 + n) =~= spec_u64_to_le_bytes(e.1));
        assert(bytes.skip(16 + n) =~= encode_entries(rest));
        assert(seq![e] + rest =~= entries);
    }
}

/// A byte string that decodes is the encoding of what it decodes to, and of nothing else.
pub proof fn lemma_encode_decode(bytes: Seq<u8>)
    requires
        decode_entries(bytes) is Some,
    ensures
        encode_entries(decode_entries(bytes)->0) == bytes,
        keys_fit(decode_entries(bytes)->0),
    decreases bytes.len(),
{
    lemma_auto_spec_u64_to_from_le_bytes();
    if bytes.len() > 0 {
        let n = spec_u64_from_le_bytes(bytes.subrange(0, 8)) as int;
        let key = bytes.subrange(8, 8 + n);
        let power = spec_u64_from_le_bytes(bytes.subrange(8 + n, 16 + n));
        let tail = bytes.skip(16 + n);
        lemma_encode_decode(tail);
        let rest = decode_entries(tail)->0;
        let entries = seq![(key, power)] + rest;
        assert(entries.drop_first() =~= rest);
        assert(spec_u64_to_le_bytes(key.len() as u64) == bytes.subrange(0, 8));
        assert(spec_u64_to_le_bytes(power) == bytes.subrange(8 + n, 16 + n));
        assert(encode_entries(entries) =~= bytes);
        assert forall|i: int| 0 <= i < entries.len() implies (#[trigger] entries[i]).0.len()
            <= u64::MAX by {
            if i > 0 {
                assert(entries[i] == rest[i - 1]);
            }
        }
    } else {
        assert(encode_entries(Seq::<(Seq<u8>, u64)>::empty()) =~= bytes);
    }
}

/// Encodes a list of validators in the order given.
pub fn encode(list: &Vec<Validator>) -> (r: Vec<u8>)
    ensures
        r@ == encode_entries(validator_views(list@)),
{
    let mut out: Vec<u8> = Vec::new();
    let ghost views = validator_views(list@);
    let mut i: usize = 0;
    while i < list.len()
        invariant
            i <= list.len(),
            views == validator_views(list@),
            out@ == encode_entries(views.take(i as int)),
        decreases list.len() - i,
    {
        let key = &list[i].public_key;
        let ghost before = out@;
        append(&mut out, u64_to_le_bytes(key.len() as u64).as_slice());
        append(&mut out, key.as_slice());
        append(&mut out, u64_to_le_bytes(list[i].voting_power).as_slice());
        proof {
            lemma_encode_push(views.take(i as int), views[i as int]);
            assert(views.take(i as int).push(views[i as int]) =~= views.take(i + 1));
            assert(out@ =~= before + encode_entry(views[i as int]));
        }
        i += 1;
    }
    assert(views.take(list.len() as int) =~= views);
    out
}

/// Decodes a list of validators, or gives `None` where `bytes` ends inside an entry.
pub fn decode(bytes: &[u8]) -> (r: Option<Vec<Validator>>)
    ensures
        match r {
            Some(list) => decode_entries(bytes@) == Some(validator_views(list@)),
            None => decode_entries(bytes@) is None,
        },
{
    let mut out: Vec<Validator> = Vec::new();
    let mut pos: usize = 0;
    proof {
        assert(bytes@.skip(0) =~= bytes@);
        assert(validator_views(out@) =~= Seq::<(Seq<u8>, u64)>::empty());
        match decode_entries(bytes@) {
            Some(rest) => {
                assert(validator_views(out@) + rest =~= rest);
            },
            None => {},
        }
    }
    while pos < bytes.len()
        invariant
            pos <= bytes.len(),
            decode_entries(bytes@) == (match decode_entries(bytes@.skip(pos as int)) {
                Some(rest) => Some(validator_views(out@) + rest),
                None => None,
            }),
        decreases bytes.len() - pos,
    {
        let ghost tail = bytes@.skip(pos as int);
        let left: usize = bytes.len() - pos;
        if left < 16 {
            return None;
        }
        let n64: u64 = u64_from_le_bytes(slice_subrange(bytes, pos, pos + 8));
        assert(bytes@.subrange(pos as int, pos + 8) =~= tail.subrange(0, 8));
        if n64 > (left - 16) as u64 {
            return None;
        }
        let n: usize = n64 as usize;
        let key = copy_bytes(slice_subrange(bytes, pos + 8, pos + 8 + n));
        let power: u64 = u64_from_le_bytes(slice_subrange(bytes, pos + 8 + n, pos + 16 + n));
        proof {
            assert(bytes@.subrange(pos + 8, pos + 8 + n) =~= tail.subrange(8, 8 + n));
            assert(bytes@.subrange(pos + 8 + n, pos + 16 + n) =~= tail.subrange(8 + n, 16 + n));
            assert(tail.skip(16 + n) =~= bytes@.skip(pos + 16 + n));
            let ghost_before = validator_views(out@);
            match decode_entries(bytes@.skip(pos + 16 + n)) {
                Some(rest) => {
                    assert(ghost_before + (seq![(key@, power)] + rest) =~= ghost_before.push(
                        (key@, power),
                    ) + rest);
                },
                None => {},
            }
        }
        let ghost before = out@;
        out.push(Validator { public_key: key, voting_power: power });
        assert(validator_views(out@) =~= validator_views(before).push((key@, power)));
        pos = pos + 16 + n;
    }
    proof {
        assert(bytes@.skip(pos as int) =~= Seq::<u8>::empty());
        assert(validator_views(out@) + Seq::<(Seq<u8>, u64)>::empty() =~= validator_views(out@));
    }
    Some(out)
}

} // verus!
