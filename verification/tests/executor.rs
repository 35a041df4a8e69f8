use peg_zone::executor::{
    balance_key_of, read_balance, run, write_balance, Action, ExecutionError, ExecutionOutcome,
    Transaction, KIND_DEPOSIT, KIND_SET_POWER, KIND_TRANSFER, KIND_WITHDRAW,
};
use peg_zone::store::Store;
use peg_zone::validators::ValidatorSet;

fn tx(kind: u8, source: &[u8], target: &[u8], amount: u64) -> Action {
    Action::Transaction(Transaction {
        kind,
        source: source.to_vec(),
        target: target.to_vec(),
        amount,
    })
}

fn one_validator() -> ValidatorSet {
    let mut set = ValidatorSet::new();
    set.insert(b"val".to_vec(), 10);
    set
}

const UNCHANGED: ExecutionOutcome = ExecutionOutcome { validators_changed: false };

#[test]
fn balance_key_is_prefix_and_account() {
    assert_eq!(balance_key_of(b"alice"), b"balance/alice".to_vec());
    assert_eq!(balance_key_of(b""), b"balance/".to_vec());
}

#[test]
fn balance_is_stored_as_eight_little_endian_bytes() {
    let mut store = Store::new();
    assert_eq!(read_balance(&store, b"alice"), Some(0));
    write_balance(&mut store, b"alice", 0x0102_0304);
    assert_eq!(store.get(b"balance/alice"), Some(vec![4, 3, 2, 1, 0, 0, 0, 0]));
    assert_eq!(read_balance(&store, b"alice"), Some(0x0102_0304));
    store.put(b"balance/bob".to_vec(), vec![1, 2, 3]);
    assert_eq!(read_balance(&store, b"bob"), None);
}

#[test]
fn deposit_credits_the_target() {
    let mut store = Store::new();
    let mut validators = one_validator();
    assert_eq!(run(&mut store, tx(KIND_DEPOSIT, b"", b"alice", 40), &mut validators), Ok(UNCHANGED));
    assert_eq!(run(&mut store, tx(KIND_DEPOSIT, b"", b"alice", 2), &mut validators), Ok(UNCHANGED));
    assert_eq!(read_balance(&store, b"alice"), Some(42));
    assert_eq!(validators, one_validator());
}

#[test]
fn withdraw_debits_the_source() {
    let mut store = Store::new();
    let mut validators = one_validator();
    write_balance(&mut store, b"alice", 10);
    assert_eq!(run(&mut store, tx(KIND_WITHDRAW, b"alice", b"", 3), &mut validators), Ok(UNCHANGED));
    assert_eq!(read_balance(&store, b"alice"), Some(7));
    assert_eq!(
        run(&mut store, tx(KIND_WITHDRAW, b"alice", b"", 8), &mut validators),
        Err(ExecutionError::InsufficientBalance)
    );
    assert_eq!(read_balance(&store, b"alice"), Some(7));
}

#[test]
fn transfer_moves_the_amount() {
    let mut store = Store::new();
    let mut validators = one_validator();
    write_balance(&mut store, b"alice", 10);
    write_balance(&mut store, b"bob", 5);
    assert_eq!(run(&mut store, tx(KIND_TRANSFER, b"alice", b"bob", 4), &mut validators), Ok(UNCHANGED));
    assert_eq!(read_balance(&store, b"alice"), Some(6));
    assert_eq!(read_balance(&store, b"bob"), Some(9));
}

#[test]
fn transfer_to_oneself_keeps_the_balance() {
    let mut store = Store::new();
    let mut validators = one_validator();
    write_balance(&mut store, b"alice", u64::MAX);
    assert_eq!(
        run(&mut store, tx(KIND_TRANSFER, b"alice", b"alice", u64::MAX), &mut validators),
        Ok(UNCHANGED)
    );
    assert_eq!(read_balance(&store, b"alice"), Some(u64::MAX));
}

#[test]
fn transfer_of_more_than_the_balance_changes_nothing() {
    let mut store = Store::new();
    let mut validators = one_validator();
    write_balance(&mut store, b"alice", 3);
    let before = store.clone();
    assert_eq!(
        run(&mut store, tx(KIND_TRANSFER, b"alice", b"bob", 4), &mut validators),
        Err(ExecutionError::InsufficientBalance)
    );
    assert_eq!(store, before);
}

#[test]
fn failed_credit_does_not_leave_the_debit_applied() {
    let mut store = Store::new();
    let mut validators = one_validator();
    write_balance(&mut store, b"alice", 10);
    write_balance(&mut store, b"bob", u64::MAX - 3);
    let before = store.snapshot();
    assert_eq!(
        run(&mut store, tx(KIND_TRANSFER, b"alice", b"bob", 4), &mut validators),
        Err(ExecutionError::BalanceOverflow)
    );
    assert_eq!(store.snapshot(), before);
    assert_eq!(read_balance(&store, b"alice"), Some(10));
    assert_eq!(read_balance(&store, b"bob"), Some(u64::MAX - 3));
    assert_eq!(validators, one_validator());
}

#[test]
fn deposit_that_overflows_is_refused() {
    let mut store = Store::new();
    let mut validators = one_validator();
    write_balance(&mut store, b"alice", u64::MAX);
    assert_eq!(
        run(&mut store, tx(KIND_DEPOSIT, b"", b"alice", 1), &mut validators),
        Err(ExecutionError::BalanceOverflow)
    );
    assert_eq!(read_balance(&store, b"alice"), Some(u64::MAX));
}

#[test]
fn corrupt_balance_is_reported() {
    let mut store = Store::new();
    let mut validators = one_validator();
    store.put(b"balance/alice".to_vec(), vec![1]);
    write_balance(&mut store, b"bob", 5);
    let before = store.clone();
    assert_eq!(
        run(&mut store, tx(KIND_DEPOSIT, b"", b"alice", 1), &mut validators),
        Err(ExecutionError::CorruptBalance)
    );
    assert_eq!(
        run(&mut store, tx(KIND_WITHDRAW, b"alice", b"", 1), &mut validators),
        Err(ExecutionError::CorruptBalance)
    );
    assert_eq!(
        run(&mut store, tx(KIND_TRANSFER, b"bob", b"alice", 1), &mut validators),
        Err(ExecutionError::CorruptBalance)
    );
    assert_eq!(store, before);
}

#[test]
fn set_power_updates_the_validator() {
    let mut store = Store::new();
    let mut validators = one_validator();
    assert_eq!(
        run(&mut store, tx(KIND_SET_POWER, b"val", b"", 25), &mut validators),
        Ok(ExecutionOutcome { validators_changed: true })
    );
    assert_eq!(validators.get(b"val"), Some(25));
    assert_eq!(
        run(&mut store, tx(KIND_SET_POWER, b"val", b"", 25), &mut validators),
        Ok(UNCHANGED)
    );
    assert_eq!(store, Store::new());
}

#[test]
fn set_power_of_a_stranger_is_refused() {
    let mut store = Store::new();
    let mut validators = one_validator();
    assert_eq!(
        run(&mut store, tx(KIND_SET_POWER, b"nobody", b"", 25), &mut validators),
        Err(ExecutionError::UnknownSigner)
    );
    assert_eq!(validators, one_validator());
}

#[test]
fn malformed_actions_are_refused() {
    let mut store = Store::new();
    let mut validators = one_validator();
    assert_eq!(
        run(&mut store, tx(KIND_DEPOSIT, b"x", b"alice", 1), &mut validators),
        Err(ExecutionError::MalformedAction)
    );
    assert_eq!(
        run(&mut store, tx(KIND_WITHDRAW, b"alice", b"x", 0), &mut validators),
        Err(ExecutionError::MalformedAction)
    );
    assert_eq!(
        run(&mut store, tx(KIND_SET_POWER, b"val", b"x", 5), &mut validators),
        Err(ExecutionError::MalformedAction)
    );
    assert_eq!(
        run(&mut store, tx(KIND_SET_POWER, b"val", b"", 0), &mut validators),
        Err(ExecutionError::MalformedAction)
    );
    assert_eq!(store, Store::new());
    assert_eq!(validators, one_validator());
}

#[test]
fn unknown_kinds_are_refused() {
    let mut store = Store::new();
    let mut validators = one_validator();
    assert_eq!(
        run(&mut store, tx(4, b"", b"", 0), &mut validators),
        Err(ExecutionError::UnknownAction)
    );
    assert_eq!(
        run(&mut store, tx(255, b"a", b"b", 1), &mut validators),
        Err(ExecutionError::UnknownAction)
    );
}
