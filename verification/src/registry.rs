//! The validator registry: the one reserved key of the store under which the current
//! validator set is kept, and the two operations that read and write it.

use crate::codec::{decode, decode_entries, encode, encode_entries, lemma_decode_encode};
use crate::store::Store;
use crate::validators::{valid_entries, ValidatorSet};
use vstd::prelude::*;

verus! {

/// Why the validator set could not be read.
#[derive(Clone, Copy, Debug, PartialEq, Eq, Structural)]
pub enum RegistryError {
    /// The store holds nothing under the reserved key: the chain was never initialised, or
    /// the store has lost what was written.
    StateCorruption,
    /// What the store holds under the reserved key is not a validator set in canonical
    /// form.
    DecodeError,
}

/// The reserved key, the ASCII bytes of `validators`.
pub open spec fn validators_key() -> Seq<u8> {
    seq![0x76u8, 0x61u8, 0x6cu8, 0x69u8, 0x64u8, 0x61u8, 0x74u8, 0x6fu8, 0x72u8, 0x73u8]
}

/// The reserved key.
pub fn reserved_key() -> (k: Vec<u8>)
    ensures
        k@ == validators_key(),
{
    let k = vec![0x76u8, 0x61u8, 0x6cu8, 0x69u8, 0x64u8, 0x61u8, 0x74u8, 0x6fu8, 0x72u8, 0x73u8];
    assert(k@ =~= validators_key());
    k
}

/// The validator entries that a store with the contents `m` holds, or the reason why it
/// holds none.
pub open spec fn stored_validators(m: Map<Seq<u8>, Seq<u8>>) -> Result<
    Seq<(Seq<u8>, u64)>,
    RegistryError,
> {
    if !m.contains_key(validators_key()) {
        Err(RegistryError::StateCorruption)
    } else {
        match decode_entries(m[validators_key()]) {
            Some(entries) => if valid_entries(entries) {
                Ok(entries)
            } else {
                Err(RegistryError::DecodeError)
            },
            None => Err(RegistryError::DecodeError),
        }
    }
}

/// The contents of a store after the validator entries `entries` were written to one with
/// the contents `m`.
pub open spec fn with_validators(m: Map<Seq<u8>, Seq<u8>>, entries: Seq<(Seq<u8>, u64)>) -> Map<
    Seq<u8>,
    Seq<u8>,
> {
    m.insert(validators_key(), encode_entries(entries))
}

/// Reading after writing gives back what was written: whatever else the store holds, a
/// validator set that was written to it is the set that is then read from it.
pub proof fn lemma_write_then_read(m: Map<Seq<u8>, Seq<u8>>, entries: Seq<(Seq<u8>, u64)>)
    requires
        valid_entries(entries),
    ensures
        stored_validators(with_validators(m, entries)) == Ok::<Seq<(Seq<u8>, u64)>, RegistryError>(
            entries,
        ),
{
    lemma_decode_encode(entries);
}

/// Reads the validator set from the store.
pub fn read(store: &Store) -> (r: Result<ValidatorSet, RegistryError>)
    requires
        store.wf(),
    ensures
        match r {
            Ok(set) => set.wf() && stored_validators(store@) == Ok::<
                Seq<(Seq<u8>, u64)>,
                RegistryError,
            >(set.entries()),
            Err(e) => stored_validators(store@) == Err::<Seq<(Seq<u8>, u64)>, RegistryError>(e),
        },
{
    let key = reserved_key();
    match store.get(key.as_slice()) {
        None => Err(RegistryError::StateCorruption),
        Some(bytes) => match decode(bytes.as_slice()) {
            None => Err(RegistryError::DecodeError),
            Some(list) => match ValidatorSet::from_canonical(&list) {
                None => Err(RegistryError::DecodeError),
                Some(set) => Ok(set),
            },
        },
    }
}

/// Writes the validator set to the store, in canonical form, under the reserved key.
pub fn write(store: &mut Store, validators: &ValidatorSet)
    requires
        old(store).wf(),
    ensures
        final(store).wf(),
        final(store)@ == with_validators(old(store)@, validators.entries()),
{
    let list = validators.to_validators();
    store.put(reserved_key(), encode(&list));
}

} // verus!
