use peg_zone::adapter::init_chain;
use peg_zone::registry::read;
use peg_zone::signatory::{deposit_address, output_script, Network, SignatorySet};
use peg_zone::store::Store;
use peg_zone::validators::Validator;

fn pk_a() -> Vec<u8> {
    let mut k = vec![0x02];
    k.extend_from_slice(&[0xaa; 32]);
    k
}

fn pk_b() -> Vec<u8> {
    let mut k = vec![0x03];
    k.extend_from_slice(&[0xbb; 32]);
    k
}

fn pk_d() -> Vec<u8> {
    let mut k = vec![0x02];
    k.extend_from_slice(&[0xdd; 32]);
    k
}

fn node_address(genesis: &Vec<Validator>) -> String {
    let mut store = Store::new();
    init_chain(&mut store, genesis);
    let validators = read(&store).expect("validators");
    assert_eq!(validators.len(), 2);
    assert_eq!(validators.get(&pk_a()), Some(70));
    assert_eq!(validators.get(&pk_b()), Some(30));
    let signatories = SignatorySet::from_validator_set(&validators);
    assert_eq!(signatories.len(), 2);
    assert_eq!(signatories.key_at(0), &pk_a());
    assert_eq!(signatories.power_at(0), 70);
    assert_eq!(signatories.key_at(1), &pk_b());
    assert_eq!(signatories.power_at(1), 30);
    let script = output_script(&signatories, &pk_d()).expect("script");
    assert_eq!(script.len(), 120);
    deposit_address(&signatories, &pk_d(), Network::Testnet).expect("address")
}

#[test]
fn genesis_to_deposit_address() {
    let genesis = vec![
        Validator { public_key: pk_a(), voting_power: 70 },
        Validator { public_key: pk_b(), voting_power: 30 },
    ];
    let first = node_address(&genesis);
    let second = node_address(&genesis);
    assert_eq!(first, second);
    assert_eq!(first, "tb1qy5zltn5mvvrd7w6sf38de5nk98err0upgqglnqher8wxe72wnq8q4nack3");
}

#[test]
fn genesis_in_another_order_gives_the_same_address() {
    let forward = vec![
        Validator { public_key: pk_a(), voting_power: 70 },
        Validator { public_key: pk_b(), voting_power: 30 },
    ];
    let backward = vec![
        Validator { public_key: pk_b(), voting_power: 30 },
        Validator { public_key: pk_a(), voting_power: 70 },
    ];
    assert_eq!(node_address(&forward), node_address(&backward));
}
