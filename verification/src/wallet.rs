//! The depositor's wallet: a secp256k1 secret key, the public key that belongs to it, and
//! the address to which its deposits go.

use crate::script::{script_obstacle, ScriptError};
use crate::signatory::{deposit_address, deposit_address_text, Network, SignatorySet};
use crate::buffer::copy_bytes;
use vstd::prelude::*;

verus! {

/// The number of bytes of a secret key.
pub const SECRET_KEY_LEN: usize = 32;

/// The number of bytes of a public key in compressed form.
pub const PUBLIC_KEY_LEN: usize = 33;

/// Whether the 32 bytes `bytes` are a secret key, as `secp256k1::SecretKey::from_secret_bytes`
/// judges them.
pub uninterp spec fn is_secret_key(bytes: Seq<u8>) -> bool;

/// The compressed form of the public key that belongs to the secret key with the bytes
/// `secret`, as `secp256k1::PublicKey::from_secret_key` derives it and `serialize` writes it.
pub uninterp spec fn public_key_of(secret: Seq<u8>) -> Seq<u8>;

/// `secp256k1::Error`, the reason why `secp256k1` made no key. It is handed on unread.
#[verifier::external_type_specification]
#[verifier::external_body]
pub struct ExKeyError(secp256k1::Error);

/// Calls `secp256k1::SecretKey::from_secret_bytes` on the 32 bytes and, where they are a
/// secret key, `secp256k1::PublicKey::from_secret_key` and `serialize` on what comes of it.
/// The contract claims that whether the bytes are a secret key, and the 33 bytes of the
/// public key, depend on the bytes alone.
#[verifier::external_body]
fn derive_public_key(secret: &[u8]) -> (r: Result<Vec<u8>, secp256k1::Error>)
    requires
        secret@.len() == SECRET_KEY_LEN,
    ensures
        match r {
            Ok(public) => is_secret_key(secret@) && public@ == public_key_of(secret@)
                && public@.len() == PUBLIC_KEY_LEN,
            Err(_) => !is_secret_key(secret@),
        },
{
    let data: [u8; 32] = secret.try_into().unwrap();
    match secp256k1::SecretKey::from_secret_bytes(data) {
        Ok(key) => Ok(secp256k1::PublicKey::from_secret_key(&key).serialize().to_vec()),
        Err(e) => Err(e),
    }
}

/// Calls `rand::random` for 32 bytes. Nothing is claimed of the bytes but their number.
#[verifier::external_body]
fn random_secret_bytes() -> (r: Vec<u8>)
    ensures
        r@.len() == SECRET_KEY_LEN,
{
    rand::random::<[u8; 32]>().to_vec()
}

/// Why some bytes are no wallet.
#[derive(Clone, Copy, Debug, PartialEq, Eq, Structural)]
pub enum WalletError {
    /// The bytes are not 32 bytes, or are no secret key of the curve.
    InvalidSecretKey,
}

/// Whether `bytes` can be the secret key of a wallet.
pub open spec fn usable_secret(bytes: Seq<u8>) -> bool {
    bytes.len() == SECRET_KEY_LEN && is_secret_key(bytes)
}

/// A wallet: a secret key and the public key that belongs to it.
pub struct Wallet {
    secret: Vec<u8>,
    public: Vec<u8>,
}

/// What `load_or_generate` hands back.
pub struct KeyMaterial {
    /// The wallet, or the reason why the bytes are none.
    pub wallet: Result<Wallet, WalletError>,
    /// The bytes of a secret key that was made for want of a stored one, for the caller to
    /// store.
    pub fresh: Option<Vec<u8>>,
}

impl Wallet {
    #[verifier::type_invariant]
    spec fn keys_belong_together(self) -> bool {
        &&& usable_secret(self.secret@)
        &&& self.public@ == public_key_of(self.secret@)
        &&& self.public@.len() == PUBLIC_KEY_LEN
    }

    /// The bytes of the secret key.
    pub closed spec fn secret(&self) -> Seq<u8> {
        self.secret@
    }

    /// The wallet with the secret key `bytes`.
    pub fn from_secret_bytes(bytes: &[u8]) -> (r: Result<Wallet, WalletError>)
        ensures
            r is Ok == usable_secret(bytes@),
            r matches Ok(wallet) ==> wallet.secret() == bytes@,
            r matches Err(e) ==> e == WalletError::InvalidSecretKey,
    {
        if bytes.len() != SECRET_KEY_LEN {
            return Err(WalletError::InvalidSecretKey);
        }
        match derive_public_key(bytes) {
            Ok(public) => Ok(Wallet { secret: copy_bytes(bytes), public }),
            Err(_) => Err(WalletError::InvalidSecretKey),
        }
    }

    /// The wallet of the stored secret key, where there is one; otherwise a wallet with a
    /// new random secret key, whose bytes are handed back for the caller to store.
    pub fn load_or_generate(stored: Option<Vec<u8>>) -> (r: KeyMaterial)
        ensures
            match stored {
                Some(bytes) => {
                    &&& r.fresh is None
                    &&& r.wallet is Ok == usable_secret(bytes@)
                    &&& r.wallet matches Ok(wallet) ==> wallet.secret() == bytes@
                },
                None => {
                    &&& r.fresh matches Some(bytes)
                    &&& bytes@.len() == SECRET_KEY_LEN
                    &&& r.wallet is Ok == usable_secret(bytes@)
                    &&& r.wallet matches Ok(wallet) ==> wallet.secret() == bytes@
                },
            },
    {
        match stored {
            Some(bytes) => KeyMaterial {
                wallet: Wallet::from_secret_bytes(bytes.as_slice()),
                fresh: None,
            },
            None => {
                let bytes = random_secret_bytes();
                let wallet = Wallet::from_secret_bytes(bytes.as_slice());
                KeyMaterial { wallet, fresh: Some(bytes) }
            },
        }
    }

    /// The public key that belongs to the wallet's secret key, in compressed form.
    pub fn pubkey(&self) -> (r: Vec<u8>)
        ensures
            r@ == public_key_of(self.secret()),
            r@.len() == PUBLIC_KEY_LEN,
    {
        proof {
            use_type_invariant(self);
        }
        copy_bytes(self.public.as_slice())
    }

    /// The address on the test network to which this wallet's deposits go while
    /// `signatories` hold custody.
    pub fn deposit_address(&self, signatories: &SignatorySet) -> (r: Result<String, ScriptError>)
        ensures
            match r {
                Ok(address) => script_obstacle(signatories@, public_key_of(self.secret())) is None
                    && address@ == deposit_address_text(
                    signatories@,
                    public_key_of(self.secret()),
                    Network::Testnet,
                ),
                Err(e) => script_obstacle(signatories@, public_key_of(self.secret())) == Some(e),
            },
    {
        let key = self.pubkey();
        deposit_address(signatories, key.as_slice(), Network::Testnet)
    }
}

} // verus!
