use peg_zone::codec::{decode, encode};
use peg_zone::registry::{read, reserved_key, RegistryError};
use peg_zone::store::Store;
use peg_zone::validators::{Validator, ValidatorSet};

fn entry(key: &[u8], power: u64) -> Validator {
    Validator { public_key: key.to_vec(), voting_power: power }
}

#[test]
fn reserved_key_is_the_word_validators() {
    assert_eq!(reserved_key(), b"validators".to_vec());
}

#[test]
fn encoding_of_one_entry_is_length_key_power() {
    let bytes = encode(&vec![entry(&[1, 2, 3], 70)]);
    assert_eq!(bytes, vec![3, 0, 0, 0, 0, 0, 0, 0, 1, 2, 3, 70, 0, 0, 0, 0, 0, 0, 0]);
}

#[test]
fn encoding_of_entries_is_their_concatenation() {
    let bytes = encode(&vec![entry(&[], 1), entry(&[9], 0x0102)]);
    assert_eq!(
        bytes,
        vec![
            0, 0, 0, 0, 0, 0, 0, 0, 1, 0, 0, 0, 0, 0, 0, 0, // empty key, power 1
            1, 0, 0, 0, 0, 0, 0, 0, 9, 2, 1, 0, 0, 0, 0, 0, 0, // key [9], power 0x0102
        ]
    );
    assert_eq!(encode(&Vec::new()), Vec::<u8>::new());
}

#[test]
fn decoding_gives_back_what_was_encoded() {
    let list = vec![entry(&[5, 5], 1), entry(&[1], u64::MAX), entry(&[], 7)];
    assert_eq!(decode(&encode(&list)), Some(list));
    assert_eq!(decode(&[]), Some(Vec::new()));
}

#[test]
fn decoding_refuses_truncated_bytes() {
    let bytes = encode(&vec![entry(&[1, 2, 3], 70)]);
    for cut in 1..bytes.len() {
        assert_eq!(decode(&bytes[..cut]), None);
    }
    let mut too_long_key = bytes.clone();
    too_long_key[0] = 4;
    assert_eq!(decode(&too_long_key), None);
    let mut huge_key = bytes;
    huge_key[7] = 0xff;
    assert_eq!(decode(&huge_key), None);
}

#[test]
fn read_of_an_empty_store_is_state_corruption() {
    let store = Store::new();
    assert_eq!(read(&store), Err(RegistryError::StateCorruption));
}

#[test]
fn read_of_malformed_bytes_is_a_decode_error() {
    let mut store = Store::new();
    store.put(reserved_key(), vec![1, 2, 3]);
    assert_eq!(read(&store), Err(RegistryError::DecodeError));
}

#[test]
fn read_of_a_set_out_of_order_is_a_decode_error() {
    let mut store = Store::new();
    store.put(reserved_key(), encode(&vec![entry(&[2], 1), entry(&[1], 1)]));
    assert_eq!(read(&store), Err(RegistryError::DecodeError));
    store.put(reserved_key(), encode(&vec![entry(&[1], 0)]));
    assert_eq!(read(&store), Err(RegistryError::DecodeError));
}

#[test]
fn write_then_read_round_trips() {
    let mut set = ValidatorSet::new();
    set.insert(vec![0xbb; 33], 30);
    set.insert(vec![0xaa; 33], 70);
    set.insert(vec![], 5);
    let mut store = Store::new();
    store.put(b"other".to_vec(), vec![1]);
    peg_zone::registry::write(&mut store, &set);
    assert_eq!(read(&store), Ok(set));
    assert_eq!(store.get(b"other"), Some(vec![1]));
}

#[test]
fn write_then_read_round_trips_a_single_validator_of_power_one() {
    let mut set = ValidatorSet::new();
    set.insert(vec![0x02; 33], 1);
    let mut store = Store::new();
    peg_zone::registry::write(&mut store, &set);
    let back = read(&store).expect("readable");
    assert_eq!(back.len(), 1);
    assert_eq!(back.get(&[0x02; 33]), Some(1));
    assert_eq!(back, set);
}

#[test]
fn written_bytes_do_not_depend_on_insertion_order() {
    let mut one = ValidatorSet::new();
    one.insert(vec![1], 10);
    one.insert(vec![2], 20);
    let mut other = ValidatorSet::new();
    other.insert(vec![2], 20);
    other.insert(vec![1], 10);
    let mut first = Store::new();
    let mut second = Store::new();
    peg_zone::registry::write(&mut first, &one);
    peg_zone::registry::write(&mut second, &other);
    assert_eq!(first.get(b"validators"), second.get(b"validators"));
    assert_eq!(
        first.get(b"validators"),
        Some(vec![
            1, 0, 0, 0, 0, 0, 0, 0, 1, 10, 0, 0, 0, 0, 0, 0, 0, //
            1, 0, 0, 0, 0, 0, 0, 0, 2, 20, 0, 0, 0, 0, 0, 0, 0,
        ])
    );
}

#[test]
fn write_replaces_the_earlier_set() {
    let mut store = Store::new();
    let mut set = ValidatorSet::new();
    set.insert(vec![1], 10);
    peg_zone::registry::write(&mut store, &set);
    set.insert(vec![1], 0);
    set.insert(vec![2], 4);
    peg_zone::registry::write(&mut store, &set);
    assert_eq!(read(&store), Ok(set));
    assert_eq!(store.len(), 1);
}
