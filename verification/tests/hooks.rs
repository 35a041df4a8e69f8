use peg_zone::adapter::{
    apply_transaction, check_tx, decode_transaction, deliver_tx, init_chain, rejection_message,
    Hook, Rejection, TxOutcome,
};
use peg_zone::executor::{read_balance, write_balance, ExecutionError, Transaction};
use peg_zone::registry::{read, reserved_key, RegistryError};
use peg_zone::store::Store;
use peg_zone::validators::Validator;

fn genesis() -> Vec<Validator> {
    vec![
        Validator { public_key: b"val-b".to_vec(), voting_power: 30 },
        Validator { public_key: b"val-a".to_vec(), voting_power: 70 },
    ]
}

fn started() -> Store {
    let mut store = Store::new();
    init_chain(&mut store, &genesis());
    store
}

#[test]
fn wire_transaction_is_a_json_array_of_four() {
    assert_eq!(
        decode_transaction(b"[2,[1,2],[3],5]"),
        Some(Transaction { kind: 2, source: vec![1, 2], target: vec![3], amount: 5 })
    );
    assert_eq!(
        decode_transaction(b" [ 0 , [] , [255] , 18446744073709551615 ] "),
        Some(Transaction { kind: 0, source: vec![], target: vec![255], amount: u64::MAX })
    );
}

#[test]
fn bytes_that_are_no_transaction_do_not_decode() {
    assert_eq!(decode_transaction(b""), None);
    assert_eq!(decode_transaction(b"not json"), None);
    assert_eq!(decode_transaction(b"[2,[1,2],[3]]"), None);
    assert_eq!(decode_transaction(b"[2,[1,2],[3],5,6]"), None);
    assert_eq!(decode_transaction(b"[256,[],[],0]"), None);
    assert_eq!(decode_transaction(b"[0,[],[300],0]"), None);
    assert_eq!(decode_transaction(b"[0,[],[],-1]"), None);
    assert_eq!(decode_transaction(b"{\"kind\":0}"), None);
    assert_eq!(decode_transaction(&[0xff, 0xfe]), None);
}

#[test]
fn init_chain_writes_the_genesis_validators() {
    let store = started();
    let set = read(&store).expect("validators");
    assert_eq!(set.len(), 2);
    assert_eq!(set.get(b"val-a"), Some(70));
    assert_eq!(set.get(b"val-b"), Some(30));
    assert_eq!(store.len(), 1);
}

#[test]
fn init_chain_leaves_out_validators_without_power() {
    let mut store = Store::new();
    init_chain(
        &mut store,
        &vec![
            Validator { public_key: vec![1], voting_power: 0 },
            Validator { public_key: vec![2], voting_power: 4 },
            Validator { public_key: vec![2], voting_power: 6 },
        ],
    );
    let set = read(&store).expect("validators");
    assert_eq!(set.len(), 1);
    assert_eq!(set.get(&[2]), Some(6));
}

#[test]
fn check_tx_rejects_malformed_bytes_and_keeps_the_store() {
    let mut store = started();
    write_balance(&mut store, b"alice", 9);
    let before = store.snapshot();
    assert_eq!(check_tx(&mut store, b"garbage"), Ok(TxOutcome::Rejected(Rejection::DecodeError)));
    assert_eq!(check_tx(&mut store, &[]), Ok(TxOutcome::Rejected(Rejection::DecodeError)));
    assert_eq!(store.snapshot(), before);
}

#[test]
fn deliver_tx_rejects_malformed_bytes_and_keeps_the_store() {
    let mut store = started();
    write_balance(&mut store, b"alice", 9);
    let before = store.snapshot();
    assert_eq!(deliver_tx(&mut store, b"[1,2"), Ok(TxOutcome::Rejected(Rejection::DecodeError)));
    assert_eq!(deliver_tx(&mut store, &[0x00]), Ok(TxOutcome::Rejected(Rejection::DecodeError)));
    assert_eq!(store.snapshot(), before);
}

#[test]
fn malformed_bytes_are_rejected_even_without_validators() {
    let mut store = Store::new();
    assert_eq!(check_tx(&mut store, b"?"), Ok(TxOutcome::Rejected(Rejection::DecodeError)));
    assert_eq!(deliver_tx(&mut store, b"?"), Ok(TxOutcome::Rejected(Rejection::DecodeError)));
    assert_eq!(store, Store::new());
}

#[test]
fn missing_validators_fail_the_hook() {
    let mut store = Store::new();
    assert_eq!(check_tx(&mut store, b"[0,[],[1],5]"), Err(RegistryError::StateCorruption));
    assert_eq!(deliver_tx(&mut store, b"[0,[],[1],5]"), Err(RegistryError::StateCorruption));
    assert_eq!(store, Store::new());
}

#[test]
fn corrupt_validators_fail_the_hook() {
    let mut store = Store::new();
    store.put(reserved_key(), vec![9, 9, 9]);
    let before = store.clone();
    assert_eq!(deliver_tx(&mut store, b"[0,[],[1],5]"), Err(RegistryError::DecodeError));
    assert_eq!(store, before);
}

#[test]
fn deliver_tx_applies_an_accepted_transaction() {
    let mut store = started();
    assert_eq!(deliver_tx(&mut store, b"[0,[],[97],50]"), Ok(TxOutcome::Accepted));
    assert_eq!(deliver_tx(&mut store, b"[2,[97],[98],20]"), Ok(TxOutcome::Accepted));
    assert_eq!(read_balance(&store, b"a"), Some(30));
    assert_eq!(read_balance(&store, b"b"), Some(20));
    assert_eq!(read(&store).expect("validators").len(), 2);
}

#[test]
fn check_tx_writes_as_deliver_tx_does() {
    let mut checked = started();
    let mut delivered = started();
    assert_eq!(check_tx(&mut checked, b"[0,[],[97],50]"), Ok(TxOutcome::Accepted));
    assert_eq!(deliver_tx(&mut delivered, b"[0,[],[97],50]"), Ok(TxOutcome::Accepted));
    assert_eq!(checked, delivered);
}

#[test]
fn rejected_transaction_keeps_the_store() {
    let mut store = started();
    write_balance(&mut store, b"a", 1);
    let before = store.snapshot();
    assert_eq!(
        deliver_tx(&mut store, b"[2,[97],[98],20]"),
        Ok(TxOutcome::Rejected(Rejection::ExecutionError(ExecutionError::InsufficientBalance)))
    );
    assert_eq!(
        check_tx(&mut store, b"[9,[],[],0]"),
        Ok(TxOutcome::Rejected(Rejection::ExecutionError(ExecutionError::UnknownAction)))
    );
    assert_eq!(store.snapshot(), before);
}

#[test]
fn changed_validators_are_written_back() {
    let mut store = started();
    assert_eq!(
        apply_transaction(
            &mut store,
            Transaction { kind: 3, source: b"val-b".to_vec(), target: vec![], amount: 45 }
        ),
        Ok(TxOutcome::Accepted)
    );
    let set = read(&store).expect("validators");
    assert_eq!(set.get(b"val-b"), Some(45));
    assert_eq!(set.get(b"val-a"), Some(70));
}

#[test]
fn unchanged_validators_leave_the_same_bytes() {
    let mut store = started();
    let before = store.get(b"validators");
    assert_eq!(
        apply_transaction(
            &mut store,
            Transaction { kind: 3, source: b"val-b".to_vec(), target: vec![], amount: 30 }
        ),
        Ok(TxOutcome::Accepted)
    );
    assert_eq!(store.get(b"validators"), before);
}

#[test]
fn same_block_on_two_nodes_gives_the_same_store() {
    let block: Vec<&[u8]> =
        vec![b"[0,[],[97],50]", b"oops", b"[2,[97],[98],20]", b"[3,[118,97,108,45,97],[],71]", b"[1,[98],[],21]"];
    let mut one = started();
    let mut other = started();
    let mut answers_one = Vec::new();
    let mut answers_other = Vec::new();
    for tx in &block {
        answers_one.push(deliver_tx(&mut one, tx));
    }
    for tx in &block {
        answers_other.push(deliver_tx(&mut other, tx));
    }
    assert_eq!(answers_one, answers_other);
    assert_eq!(one.snapshot(), other.snapshot());
    assert_eq!(
        answers_one,
        vec![
            Ok(TxOutcome::Accepted),
            Ok(TxOutcome::Rejected(Rejection::DecodeError)),
            Ok(TxOutcome::Accepted),
            Ok(TxOutcome::Accepted),
            Ok(TxOutcome::Rejected(Rejection::ExecutionError(ExecutionError::InsufficientBalance))),
        ]
    );
    assert_eq!(read(&one).expect("validators").get(b"val-a"), Some(71));
}

#[test]
fn rejection_messages_name_the_hook() {
    assert_eq!(
        rejection_message(Hook::CheckTx, Rejection::DecodeError),
        "error deserializing tx (check_tx)"
    );
    assert_eq!(
        rejection_message(Hook::DeliverTx, Rejection::DecodeError),
        "error deserializing tx (deliver_tx)"
    );
    assert_eq!(
        rejection_message(Hook::CheckTx, Rejection::ExecutionError(ExecutionError::UnknownSigner)),
        "error executing tx (check_tx)"
    );
    assert_eq!(
        rejection_message(
            Hook::DeliverTx,
            Rejection::ExecutionError(ExecutionError::BalanceOverflow)
        ),
        "error executing tx (deliver_tx)"
    );
}
