//! The hooks that the consensus engine drives.
//!
//! Each hook is a function of the store as it stands and of the request: it reads no
//! clock, draws no random number and keeps no state of its own. A request that cannot be
//! served is answered with a rejection and changes nothing; only a store that has lost its
//! validator set makes a hook fail.
//!
//! On the wire a transaction is the JSON array `[kind, source, target, amount]`, where
//! `source` and `target` are arrays of bytes.

use crate::bytemap::entries_map;
use crate::codec::lemma_encode_decode;
use crate::executor::{
    balance_key, balance_key_of, balance_of, executed, lemma_executed_keeps_reserved_key, run,
    Action, ExecutionError, Transaction,
};
use crate::registry::{
    lemma_write_then_read, stored_validators, validators_key, with_validators, RegistryError,
};
use crate::store::Store;
use crate::validators::{
    canonical_entries, collected, lemma_canonical_entries, validator_views, Validator,
    ValidatorSet,
};
use vstd::prelude::*;

verus! {

/// The hook that a transaction came in by.
#[derive(Clone, Copy, Debug, PartialEq, Eq, Structural)]
pub enum Hook {
    /// The transaction is a candidate for a block.
    CheckTx,
    /// The transaction stands in a block that was agreed on.
    DeliverTx,
}

/// Why a transaction was rejected.
#[derive(Clone, Copy, Debug, PartialEq, Eq, Structural)]
pub enum Rejection {
    /// The bytes are no transaction.
    DecodeError,
    /// The transaction breaks a rule of the application.
    ExecutionError(ExecutionError),
}

/// The answer to a transaction.
#[derive(Clone, Copy, Debug, PartialEq, Eq, Structural)]
pub enum TxOutcome {
    Accepted,
    Rejected(Rejection),
}

/// The transaction that the JSON text `bytes` stands for, as `serde_json::from_slice` reads
/// it at the type of a tuple of the kind, the two operands and the amount; `None` where it
/// reads none.
pub uninterp spec fn json_transaction(bytes: Seq<u8>) -> Option<(u8, Seq<u8>, Seq<u8>, u64)>;

/// `serde_json::Error`, the reason why `serde_json` read nothing. It is handed on unread.
#[verifier::external_type_specification]
#[verifier::external_body]
pub struct ExJsonError(serde_json::Error);

/// Calls `serde_json::from_slice` at the type `(u8, Vec<u8>, Vec<u8>, u64)` and moves the
/// four fields into a `Transaction`. The contract claims that whether the bytes are read,
/// and what is read from them, depends on the bytes alone.
#[verifier::external_body]
fn parse_json_transaction(bytes: &[u8]) -> (r: Result<Transaction, serde_json::Error>)
    ensures
        match r {
            Ok(tx) => json_transaction(bytes@) == Some(tx@),
            Err(_) => json_transaction(bytes@) is None,
        },
{
    match serde_json::from_slice::<(u8, Vec<u8>, Vec<u8>, u64)>(bytes) {
        Ok((kind, source, target, amount)) => Ok(Transaction { kind, source, target, amount }),
        Err(e) => Err(e),
    }
}

/// Decodes a transaction from its wire form, or gives `None` where the bytes are none.
pub fn decode_transaction(bytes: &[u8]) -> (r: Option<Transaction>)
    ensures
        match r {
            Some(tx) => json_transaction(bytes@) == Some(tx@),
            None => json_transaction(bytes@) is None,
        },
{
    match parse_json_transaction(bytes) {
        Ok(tx) => Some(tx),
        Err(_) => None,
    }
}

/// What a decoded transaction makes of a store with the contents `m`: the new contents and
/// the answer. Without a validator set to read the store stays as it is and the hook fails;
/// a transaction that the executor refuses is rejected and the store stays as it is; one
/// that it executes is accepted, and the store then holds what the executor wrote and the
/// validator set as the executor left it.
pub open spec fn applied(m: Map<Seq<u8>, Seq<u8>>, tx: (u8, Seq<u8>, Seq<u8>, u64)) -> (
    Map<Seq<u8>, Seq<u8>>,
    Result<TxOutcome, RegistryError>,
) {
    match stored_validators(m) {
        Err(e) => (m, Err(e)),
        Ok(entries) => match executed(m, entries_map(entries), tx) {
            Err(e) => (m, Ok(TxOutcome::Rejected(Rejection::ExecutionError(e)))),
            Ok(post) => (
                with_validators(post.0, canonical_entries(post.1)),
                Ok(TxOutcome::Accepted),
            ),
        },
    }
}

/// What a request with the bytes of a transaction makes of a store with the contents `m`,
/// given what the bytes decode to: bytes that are no transaction are rejected and change
/// nothing.
pub open spec fn answered(m: Map<Seq<u8>, Seq<u8>>, decoded: Option<(u8, Seq<u8>, Seq<u8>, u64)>) -> (
    Map<Seq<u8>, Seq<u8>>,
    Result<TxOutcome, RegistryError>,
) {
    match decoded {
        None => (m, Ok(TxOutcome::Rejected(Rejection::DecodeError))),
        Some(tx) => applied(m, tx),
    }
}

/// The contents of a store after the chain was initialised with the validators `genesis`,
/// taken in the order given.
pub open spec fn initialised(m: Map<Seq<u8>, Seq<u8>>, genesis: Seq<(Seq<u8>, u64)>) -> Map<
    Seq<u8>,
    Seq<u8>,
> {
    with_validators(m, canonical_entries(collected(genesis)))
}

/// A transaction that is not accepted leaves the store as it is, byte for byte: whether
/// its bytes are no transaction, the executor refuses it, or the hook fails.
pub proof fn lemma_only_accepted_changes(
    m: Map<Seq<u8>, Seq<u8>>,
    decoded: Option<(u8, Seq<u8>, Seq<u8>, u64)>,
)
    ensures
        answered(m, decoded).1 != Ok::<TxOutcome, RegistryError>(TxOutcome::Accepted) ==> answered(
            m,
            decoded,
        ).0 == m,
        decoded is None ==> answered(m, decoded) == (
            m,
            Ok::<TxOutcome, RegistryError>(TxOutcome::Rejected(Rejection::DecodeError)),
        ),
{
}

/// The keys of the store that a transaction can read or write: the key of the validator
/// set and the keys of the balances of its two operands.
pub open spec fn touched_keys(tx: (u8, Seq<u8>, Seq<u8>, u64)) -> Seq<Seq<u8>> {
    seq![validators_key(), balance_key(tx.1), balance_key(tx.2)]
}

/// Two contents hold the same under the key `k`, or both hold nothing.
pub open spec fn same_at(a: Map<Seq<u8>, Seq<u8>>, b: Map<Seq<u8>, Seq<u8>>, k: Seq<u8>) -> bool {
    a.contains_key(k) == b.contains_key(k) && (a.contains_key(k) ==> a[k] == b[k])
}

/// A transaction reads and writes the keys that it touches and no others: what it answers
/// and what it leaves under those keys depends on what the store held under them alone, and
/// every other key keeps what it held.
pub proof fn lemma_applied_is_local(
    a: Map<Seq<u8>, Seq<u8>>,
    b: Map<Seq<u8>, Seq<u8>>,
    tx: (u8, Seq<u8>, Seq<u8>, u64),
)
    requires
        forall|i: int| 0 <= i < 3 ==> same_at(a, b, #[trigger] touched_keys(tx)[i]),
    ensures
        applied(a, tx).1 == applied(b, tx).1,
        forall|i: int|
            0 <= i < 3 ==> same_at(applied(a, tx).0, applied(b, tx).0, #[trigger] touched_keys(tx)[i]),
        forall|k: Seq<u8>| !touched_keys(tx).contains(k) ==> same_at(applied(a, tx).0, a, k),
{
    let keys = touched_keys(tx);
    assert(same_at(a, b, keys[0]));
    assert(same_at(a, b, keys[1]));
    assert(same_at(a, b, keys[2]));
    assert(stored_validators(a) == stored_validators(b));
    assert(balance_of(a, tx.1) == balance_of(b, tx.1));
    assert(balance_of(a, tx.2) == balance_of(b, tx.2));
    assert forall|k: Seq<u8>| !keys.contains(k) implies same_at(applied(a, tx).0, a, k) by {
        assert(keys[0] != k && keys[1] != k && keys[2] != k) by {
            if keys[0] == k || keys[1] == k || keys[2] == k {
                assert(keys.contains(k));
            }
        }
    }
}

/// The keys of the store that `tx` can read or write.
pub fn keys_touched(tx: &Transaction) -> (r: Vec<Vec<u8>>)
    ensures
        r@.len() == 3,
        forall|i: int| 0 <= i < 3 ==> (#[trigger] r@[i])@ == touched_keys(tx@)[i],
{
    let mut keys: Vec<Vec<u8>> = Vec::new();
    keys.push(crate::registry::reserved_key());
    keys.push(balance_key_of(tx.source.as_slice()));
    keys.push(balance_key_of(tx.target.as_slice()));
    keys
}

/// Writes the genesis validator set to the store. The validators are taken in the order
/// given: a later one overrides an earlier one with the same key, and one without voting
/// power is left out.
pub fn init_chain(store: &mut Store, genesis_validators: &Vec<Validator>)
    requires
        old(store).wf(),
    ensures
        final(store).wf(),
        final(store)@ == initialised(old(store)@, validator_views(genesis_validators@)),
        stored_validators(final(store)@) matches Ok(entries) && entries_map(entries) == collected(
            validator_views(genesis_validators@),
        ),
{
    let validators = ValidatorSet::from_validators(genesis_validators);
    proof {
        lemma_canonical_entries(validators.entries());
        lemma_write_then_read(store@, validators.entries());
    }
    crate::registry::write(store, &validators);
}

/// Executes a decoded transaction against the store: reads the validator set, runs the
/// executor, and writes the validator set back where the executor changed it.
pub fn apply_transaction(store: &mut Store, tx: Transaction) -> (r: Result<TxOutcome, RegistryError>)
    requires
        old(store).wf(),
    ensures
        final(store).wf(),
        final(store)@ == applied(old(store)@, tx@).0,
        r == applied(old(store)@, tx@).1,
{
    let mut validators = match crate::registry::read(store) {
        Err(e) => {
            return Err(e);
        },
        Ok(v) => v,
    };
    let ghost before = validators.entries();
    let ghost m = store@;
    match run(store, Action::Transaction(tx), &mut validators) {
        Err(e) => Ok(TxOutcome::Rejected(Rejection::ExecutionError(e))),
        Ok(outcome) => {
            proof {
                lemma_canonical_entries(validators.entries());
                lemma_executed_keeps_reserved_key(m, entries_map(before), tx@);
            }
            if outcome.validators_changed {
                crate::registry::write(store, &validators);
            } else {
                proof {
                    lemma_canonical_entries(before);
                    lemma_encode_decode(m[validators_key()]);
                    assert(store@ =~= with_validators(store@, before));
                }
            }
            Ok(TxOutcome::Accepted)
        },
    }
}

/// Answers a transaction that is a candidate for a block. Bytes that are no transaction,
/// and a transaction that the executor refuses, are rejected and leave the store as it
/// is. The effects of an accepted one are written to the store as `deliver_tx` writes
/// them.
pub fn check_tx(store: &mut Store, raw_tx: &[u8]) -> (r: Result<TxOutcome, RegistryError>)
    requires
        old(store).wf(),
    ensures
        final(store).wf(),
        final(store)@ == answered(old(store)@, json_transaction(raw_tx@)).0,
        r == answered(old(store)@, json_transaction(raw_tx@)).1,
{
    match decode_transaction(raw_tx) {
        None => Ok(TxOutcome::Rejected(Rejection::DecodeError)),
        Some(tx) => apply_transaction(store, tx),
    }
}

/// Answers a transaction of an agreed block. The store after it and the answer are
/// functions of the store before it and of the bytes, so every node that delivers the same
/// block to the same store arrives at the same store.
pub fn deliver_tx(store: &mut Store, raw_tx: &[u8]) -> (r: Result<TxOutcome, RegistryError>)
    requires
        old(store).wf(),
    ensures
        final(store).wf(),
        final(store)@ == answered(old(store)@, json_transaction(raw_tx@)).0,
        r == answered(old(store)@, json_transaction(raw_tx@)).1,
{
    match decode_transaction(raw_tx) {
        None => Ok(TxOutcome::Rejected(Rejection::DecodeError)),
        Some(tx) => apply_transaction(store, tx),
    }
}

/// The reason that is reported to the sender of a rejected transaction.
pub fn rejection_message(hook: Hook, rejection: Rejection) -> (r: &'static str)
    ensures
        r@ == rejection_text(hook, rejection),
{
    match (hook, rejection) {
        (Hook::CheckTx, Rejection::DecodeError) => "error deserializing tx (check_tx)",
        (Hook::CheckTx, Rejection::ExecutionError(_)) => "error executing tx (check_tx)",
        (Hook::DeliverTx, Rejection::DecodeError) => "error deserializing tx (deliver_tx)",
        (Hook::DeliverTx, Rejection::ExecutionError(_)) => "error executing tx (deliver_tx)",
    }
}

/// The text of the reason for a rejection by a hook.
pub open spec fn rejection_text(hook: Hook, rejection: Rejection) -> Seq<char> {
    match (hook, rejection) {
        (Hook::CheckTx, Rejection::DecodeError) => "error deserializing tx (check_tx)"@,
        (Hook::CheckTx, Rejection::ExecutionError(_)) => "error executing tx (check_tx)"@,
        (Hook::DeliverTx, Rejection::DecodeError) => "error deserializing tx (deliver_tx)"@,
        (Hook::DeliverTx, Rejection::ExecutionError(_)) => "error executing tx (deliver_tx)"@,
    }
}

} // verus!
