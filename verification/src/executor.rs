//! The transaction executor: what each kind of transaction does to the application's part
//! of the store and to the validator set.
//!
//! A transaction either takes effect as a whole or leaves everything as it was.

use crate::buffer::copy_bytes;
use crate::order::{rank_bytes, Rank};
use crate::registry::validators_key;
use crate::store::Store;
use crate::validators::ValidatorSet;
use vstd::bytes::{
    lemma_auto_spec_u64_to_from_le_bytes, spec_u64_from_le_bytes, spec_u64_to_le_bytes,
    u64_from_le_bytes, u64_to_le_bytes,
};
use vstd::prelude::*;

verus! {

/// Credits `amount` to the account `target`: a deposit of the pegged asset.
pub const KIND_DEPOSIT: u8 = 0;

/// Debits `amount` from the account `source`: a withdrawal of the pegged asset.
pub const KIND_WITHDRAW: u8 = 1;

/// Moves `amount` from the account `source` to the account `target`.
pub const KIND_TRANSFER: u8 = 2;

/// Gives the validator `source` the voting power `amount`.
pub const KIND_SET_POWER: u8 = 3;

/// A transaction as it comes off the wire: the kind of operation and its operands.
#[derive(Clone, Debug, PartialEq, Eq)]
pub struct Transaction {
    pub kind: u8,
    pub source: Vec<u8>,
    pub target: Vec<u8>,
    pub amount: u64,
}

impl View for Transaction {
    type V = (u8, Seq<u8>, Seq<u8>, u64);

    open spec fn view(&self) -> (u8, Seq<u8>, Seq<u8>, u64) {
        (self.kind, self.source@, self.target@, self.amount)
    }
}

/// What the executor is asked to do.
#[derive(Clone, Debug, PartialEq, Eq)]
pub enum Action {
    Transaction(Transaction),
}

/// Why a transaction was not executed.
#[derive(Clone, Copy, Debug, PartialEq, Eq, Structural)]
pub enum ExecutionError {
    /// The kind of the transaction is none that the executor knows.
    UnknownAction,
    /// The transaction names an operand that its kind does not take, or a voting power of
    /// zero.
    MalformedAction,
    /// The account to be debited holds less than the amount.
    InsufficientBalance,
    /// The account to be credited would hold more than a balance can.
    BalanceOverflow,
    /// The key whose voting power is to be set is no validator.
    UnknownSigner,
    /// What the store holds as the balance of an account is not a balance.
    CorruptBalance,
}

/// What an executed transaction did.
#[derive(Clone, Copy, Debug, PartialEq, Eq, Structural)]
pub struct ExecutionOutcome {
    /// The validator set is no longer what it was, and has to be written back.
    pub validators_changed: bool,
}

/// The bytes before the account's name in the key of its balance: the ASCII bytes of
/// `balance/`.
pub open spec fn balance_prefix() -> Seq<u8> {
    seq![0x62u8, 0x61u8, 0x6cu8, 0x61u8, 0x6eu8, 0x63u8, 0x65u8, 0x2fu8]
}

/// The key under which the store holds the balance of `account`.
pub open spec fn balance_key(account: Seq<u8>) -> Seq<u8> {
    balance_prefix() + account
}

/// The balance of `account` in a store with the contents `m`: zero where the store holds
/// none, and `None` where what it holds is not eight bytes.
pub open spec fn balance_of(m: Map<Seq<u8>, Seq<u8>>, account: Seq<u8>) -> Option<u64> {
    if !m.contains_key(balance_key(account)) {
        Some(0)
    } else if m[balance_key(account)].len() == 8 {
        Some(spec_u64_from_le_bytes(m[balance_key(account)]))
    } else {
        None
    }
}

/// The contents `m` with `balance` as the balance of `account`.
pub open spec fn with_balance(m: Map<Seq<u8>, Seq<u8>>, account: Seq<u8>, balance: u64) -> Map<
    Seq<u8>,
    Seq<u8>,
> {
    m.insert(balance_key(account), spec_u64_to_le_bytes(balance))
}

/// The contents `m` after `amount` was added to the balance of `account`.
pub open spec fn credited(m: Map<Seq<u8>, Seq<u8>>, account: Seq<u8>, amount: u64) -> Result<
    Map<Seq<u8>, Seq<u8>>,
    ExecutionError,
> {
    match balance_of(m, account) {
        None => Err(ExecutionError::CorruptBalance),
        Some(b) => if b + amount > u64::MAX {
            Err(ExecutionError::BalanceOverflow)
        } else {
            Ok(with_balance(m, account, (b + amount) as u64))
        },
    }
}

/// The contents `m` after `amount` was taken from the balance of `account`.
pub open spec fn debited(m: Map<Seq<u8>, Seq<u8>>, account: Seq<u8>, amount: u64) -> Result<
    Map<Seq<u8>, Seq<u8>>,
    ExecutionError,
> {
    match balance_of(m, account) {
        None => Err(ExecutionError::CorruptBalance),
        Some(b) => if b < amount {
            Err(ExecutionError::InsufficientBalance)
        } else {
            Ok(with_balance(m, account, (b - amount) as u64))
        },
    }
}

/// What the transaction `tx` makes of a store with the contents `m` and of the validators
/// `v`: the new contents and validators, or the reason why it does nothing.
pub open spec fn executed(
    m: Map<Seq<u8>, Seq<u8>>,
    v: Map<Seq<u8>, u64>,
    tx: (u8, Seq<u8>, Seq<u8>, u64),
) -> Result<(Map<Seq<u8>, Seq<u8>>, Map<Seq<u8>, u64>), ExecutionError> {
    let (kind, source, target, amount) = tx;
    if kind == KIND_DEPOSIT {
        if source.len() != 0 {
            Err(ExecutionError::MalformedAction)
        } else {
            match credited(m, target, amount) {
                Ok(m1) => Ok((m1, v)),
                Err(e) => Err(e),
            }
        }
    } else if kind == KIND_WITHDRAW {
        if target.len() != 0 {
            Err(ExecutionError::MalformedAction)
        } else {
            match debited(m, source, amount) {
                Ok(m1) => Ok((m1, v)),
                Err(e) => Err(e),
            }
        }
    } else if kind == KIND_TRANSFER {
        match debited(m, source, amount) {
            Ok(m1) => match credited(m1, target, amount) {
                Ok(m2) => Ok((m2, v)),
                Err(e) => Err(e),
            },
            Err(e) => Err(e),
        }
    } else if kind == KIND_SET_POWER {
        if target.len() != 0 || amount == 0 {
            Err(ExecutionError::MalformedAction)
        } else if !v.contains_key(source) {
            Err(ExecutionError::UnknownSigner)
        } else {
            Ok((m, v.insert(source, amount)))
        }
    } else {
        Err(ExecutionError::UnknownAction)
    }
}

/// The key of a balance determines the account.
pub proof fn lemma_balance_key_injective(a: Seq<u8>, b: Seq<u8>)
    requires
        balance_key(a) == balance_key(b),
    ensures
        a == b,
{
    assert(balance_key(a).skip(8) =~= a);
    assert(balance_key(b).skip(8) =~= b);
}

/// No balance is kept under the key that is reserved for the validator set.
pub proof fn lemma_balance_key_not_reserved(account: Seq<u8>)
    ensures
        balance_key(account) != validators_key(),
{
    assert(balance_key(account)[0] == 0x62u8);
    assert(validators_key()[0] == 0x76u8);
}

/// The executor leaves the key of the validator set alone: whatever a transaction does, the
/// store holds under that key what it held before.
pub proof fn lemma_executed_keeps_reserved_key(
    m: Map<Seq<u8>, Seq<u8>>,
    v: Map<Seq<u8>, u64>,
    tx: (u8, Seq<u8>, Seq<u8>, u64),
)
    requires
        executed(m, v, tx) is Ok,
    ensures
        executed(m, v, tx)->Ok_0.0.contains_key(validators_key()) == m.contains_key(
            validators_key(),
        ),
        m.contains_key(validators_key()) ==> executed(m, v, tx)->Ok_0.0[validators_key()]
            == m[validators_key()],
{
    lemma_balance_key_not_reserved(tx.1);
    lemma_balance_key_not_reserved(tx.2);
}

/// The key under which the store holds the balance of `account`.
pub fn balance_key_of(account: &[u8]) -> (k: Vec<u8>)
    ensures
        k@ == balance_key(account@),
{
    let mut k = vec![0x62u8, 0x61u8, 0x6cu8, 0x61u8, 0x6eu8, 0x63u8, 0x65u8, 0x2fu8];
    assert(k@ =~= balance_prefix());
    let mut i: usize = 0;
    while i < account.len()
        invariant
            i <= account.len(),
            k@ == balance_prefix() + account@.take(i as int),
        decreases account.len() - i,
    {
        k.push(account[i]);
        i += 1;
        assert(k@ =~= balance_prefix() + account@.take(i as int));
    }
    assert(account@.take(account.len() as int) =~= account@);
    k
}

/// The balance of `account`, or `None` where what the store holds for it is not a balance.
pub fn read_balance(store: &Store, account: &[u8]) -> (r: Option<u64>)
    requires
        store.wf(),
    ensures
        r == balance_of(store@, account@),
{
    let key = balance_key_of(account);
    match store.get(key.as_slice()) {
        None => Some(0),
        Some(bytes) => if bytes.len() == 8 {
            Some(u64_from_le_bytes(bytes.as_slice()))
        } else {
            None
        },
    }
}

/// Sets the balance of `account`.
pub fn write_balance(store: &mut Store, account: &[u8], balance: u64)
    requires
        old(store).wf(),
    ensures
        final(store).wf(),
        final(store)@ == with_balance(old(store)@, account@, balance),
{
    store.put(balance_key_of(account), u64_to_le_bytes(balance));
}

/// Executes `action` on the store and the validator set. On success both are what
/// `executed` says; on an error both are what they were.
pub fn run(store: &mut Store, action: Action, validators: &mut ValidatorSet) -> (r: Result<
    ExecutionOutcome,
    ExecutionError,
>)
    requires
        old(store).wf(),
        old(validators).wf(),
    ensures
        final(store).wf(),
        final(validators).wf(),
        match r {
            Ok(outcome) => {
                &&& executed(old(store)@, old(validators)@, action_view(action)) matches Ok(post)
                &&& post.0 == final(store)@
                &&& post.1 == final(validators)@
                &&& outcome.validators_changed == (final(validators)@ != old(validators)@)
            },
            Err(e) => {
                &&& executed(old(store)@, old(validators)@, action_view(action)) == Err::<
                    (Map<Seq<u8>, Seq<u8>>, Map<Seq<u8>, u64>),
                    ExecutionError,
                >(e)
                &&& final(store)@ == old(store)@
                &&& final(validators)@ == old(validators)@
            },
        },
{
    let Action::Transaction(tx) = action;
    let unchanged = ExecutionOutcome { validators_changed: false };
    proof {
        lemma_auto_spec_u64_to_from_le_bytes();
    }
    if tx.kind == KIND_DEPOSIT {
        if tx.source.len() != 0 {
            return Err(ExecutionError::MalformedAction);
        }
        match read_balance(store, tx.target.as_slice()) {
            None => Err(ExecutionError::CorruptBalance),
            Some(b) => {
                if tx.amount > u64::MAX - b {
                    return Err(ExecutionError::BalanceOverflow);
                }
                write_balance(store, tx.target.as_slice(), b + tx.amount);
                Ok(unchanged)
            },
        }
    } else if tx.kind == KIND_WITHDRAW {
        if tx.target.len() != 0 {
            return Err(ExecutionError::MalformedAction);
        }
        match read_balance(store, tx.source.as_slice()) {
            None => Err(ExecutionError::CorruptBalance),
            Some(b) => {
                if b < tx.amount {
                    return Err(ExecutionError::InsufficientBalance);
                }
                write_balance(store, tx.source.as_slice(), b - tx.amount);
                Ok(unchanged)
            },
        }
    } else if tx.kind == KIND_TRANSFER {
        let from: u64 = match read_balance(store, tx.source.as_slice()) {
            None => {
                return Err(ExecutionError::CorruptBalance);
            },
            Some(b) => b,
        };
        if from < tx.amount {
            return Err(ExecutionError::InsufficientBalance);
        }
        let from_after: u64 = from - tx.amount;
        let same: bool = match rank_bytes(tx.source.as_slice(), tx.target.as_slice()) {
            Rank::Same => true,
            _ => false,
        };
        proof {
            if !same {
                if balance_key(tx.source@) == balance_key(tx.target@) {
                    lemma_balance_key_injective(tx.source@, tx.target@);
                }
            }
        }
        let to: u64 = if same {
            from_after
        } else {
            match read_balance(store, tx.target.as_slice()) {
                None => {
                    return Err(ExecutionError::CorruptBalance);
                },
                Some(b) => b,
            }
        };
        if tx.amount > u64::MAX - to {
            return Err(ExecutionError::BalanceOverflow);
        }
        write_balance(store, tx.source.as_slice(), from_after);
        write_balance(store, tx.target.as_slice(), to + tx.amount);
        Ok(unchanged)
    } else if tx.kind == KIND_SET_POWER {
        if tx.target.len() != 0 || tx.amount == 0 {
            return Err(ExecutionError::MalformedAction);
        }
        match validators.get(tx.source.as_slice()) {
            None => Err(ExecutionError::UnknownSigner),
            Some(power) => {
                validators.insert(copy_bytes(tx.source.as_slice()), tx.amount);
                proof {
                    if power == tx.amount {
                        assert(validators@ =~= old(validators)@);
                    } else {
                        assert(validators@[tx.source@] != old(validators)@[tx.source@]);
                    }
                }
                Ok(ExecutionOutcome { validators_changed: power != tx.amount })
            },
        }
    } else {
        Err(ExecutionError::UnknownAction)
    }
}

/// The transaction that an action carries, by its view.
pub open spec fn action_view(action: Action) -> (u8, Seq<u8>, Seq<u8>, u64) {
    match action {
        Action::Transaction(tx) => tx@,
    }
}

} // verus!
