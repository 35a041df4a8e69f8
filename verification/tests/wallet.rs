use peg_zone::script::ScriptError;
use peg_zone::signatory::{deposit_address, Network, SignatorySet};
use peg_zone::validators::ValidatorSet;
use peg_zone::wallet::{Wallet, WalletError, PUBLIC_KEY_LEN, SECRET_KEY_LEN};

const CURVE_ORDER: [u8; 32] = [
    0xff, 0xff, 0xff, 0xff, 0xff, 0xff, 0xff, 0xff, 0xff, 0xff, 0xff, 0xff, 0xff, 0xff, 0xff, 0xfe,
    0xba, 0xae, 0xdc, 0xe6, 0xaf, 0x48, 0xa0, 0x3b, 0xbf, 0xd2, 0x5e, 0x8c, 0xd0, 0x36, 0x41, 0x41,
];

const GENERATOR_COMPRESSED: [u8; 33] = [
    0x02, 0x79, 0xbe, 0x66, 0x7e, 0xf9, 0xdc, 0xbb, 0xac, 0x55, 0xa0, 0x62, 0x95, 0xce, 0x87, 0x0b,
    0x07, 0x02, 0x9b, 0xfc, 0xdb, 0x2d, 0xce, 0x28, 0xd9, 0x59, 0xf2, 0x81, 0x5b, 0x16, 0xf8, 0x17,
    0x98,
];

fn secret_one() -> Vec<u8> {
    let mut s = vec![0u8; 32];
    s[31] = 1;
    s
}

fn two_signatories() -> SignatorySet {
    let mut set = ValidatorSet::new();
    set.insert(vec![2; 33], 70);
    set.insert(vec![3; 33], 30);
    SignatorySet::from_validator_set(&set)
}

#[test]
fn secret_key_must_have_32_bytes() {
    assert_eq!(SECRET_KEY_LEN, 32);
    assert!(matches!(Wallet::from_secret_bytes(&[1; 31]), Err(WalletError::InvalidSecretKey)));
    assert!(matches!(Wallet::from_secret_bytes(&[1; 33]), Err(WalletError::InvalidSecretKey)));
    assert!(matches!(Wallet::from_secret_bytes(&[]), Err(WalletError::InvalidSecretKey)));
    assert!(Wallet::from_secret_bytes(&[1; 32]).is_ok());
}

#[test]
fn secret_key_must_be_in_the_range_of_the_curve() {
    assert!(matches!(Wallet::from_secret_bytes(&[0; 32]), Err(WalletError::InvalidSecretKey)));
    assert!(matches!(Wallet::from_secret_bytes(&CURVE_ORDER), Err(WalletError::InvalidSecretKey)));
    assert!(matches!(Wallet::from_secret_bytes(&[0xff; 32]), Err(WalletError::InvalidSecretKey)));
    let mut below = CURVE_ORDER;
    below[31] -= 1;
    assert!(Wallet::from_secret_bytes(&below).is_ok());
    assert!(Wallet::from_secret_bytes(&secret_one()).is_ok());
}

#[test]
fn pubkey_of_secret_one_is_the_generator() {
    let wallet = Wallet::from_secret_bytes(&secret_one()).ok().expect("wallet");
    assert_eq!(wallet.pubkey(), GENERATOR_COMPRESSED.to_vec());
    assert_eq!(wallet.pubkey().len(), PUBLIC_KEY_LEN);
}

#[test]
fn load_keeps_the_stored_key() {
    let material = Wallet::load_or_generate(Some(secret_one()));
    assert!(material.fresh.is_none());
    let wallet = material.wallet.ok().expect("wallet");
    assert_eq!(wallet.pubkey(), GENERATOR_COMPRESSED.to_vec());
}

#[test]
fn load_of_bad_stored_bytes_fails() {
    let material = Wallet::load_or_generate(Some(vec![1, 2, 3]));
    assert!(material.fresh.is_none());
    assert!(matches!(material.wallet, Err(WalletError::InvalidSecretKey)));
}

#[test]
fn generate_hands_back_the_new_key_to_store() {
    let material = Wallet::load_or_generate(None);
    let fresh = material.fresh.expect("bytes to store");
    assert_eq!(fresh.len(), 32);
    let wallet = material.wallet.ok().expect("wallet");
    let again = Wallet::load_or_generate(Some(fresh));
    assert_eq!(again.wallet.ok().expect("wallet").pubkey(), wallet.pubkey());
}

#[test]
fn generated_keys_differ() {
    let one = Wallet::load_or_generate(None).fresh.expect("bytes");
    let other = Wallet::load_or_generate(None).fresh.expect("bytes");
    assert_ne!(one, other);
}

#[test]
fn wallet_deposit_address_is_that_of_its_public_key_on_testnet() {
    let wallet = Wallet::from_secret_bytes(&secret_one()).ok().expect("wallet");
    let sigs = two_signatories();
    let address = wallet.deposit_address(&sigs).expect("address");
    assert!(address.starts_with("tb1q"));
    assert_eq!(address.len(), 62);
    assert_eq!(Ok(address), deposit_address(&sigs, &GENERATOR_COMPRESSED, Network::Testnet));
}

#[test]
fn wallet_has_no_deposit_address_without_signatories() {
    let wallet = Wallet::from_secret_bytes(&secret_one()).ok().expect("wallet");
    let none = SignatorySet::from_validator_set(&ValidatorSet::new());
    assert_eq!(wallet.deposit_address(&none), Err(ScriptError::NoSignatories));
}
