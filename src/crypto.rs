//! Post-quantum signatures (CRYSTALS-Dilithium, level 3), the 64-byte
//! SHA3-512 digest, random nonces and the wall clock.

use pqcrypto_dilithium::dilithium3;
use pqcrypto_traits::sign::PublicKey as PqPublicKey;
use pqcrypto_traits::sign::SecretKey as PqSecretKey;
use pqcrypto_traits::sign::SignedMessage as PqSignedMessage;
use rand::RngCore;
use sha3::Digest as Sha3Digest;
use crate::bytes::{le_bytes, le_value, lemma_le_round_trip};
use vstd::prelude::*;

verus! {

/// Length in bytes of a Dilithium3 public key.
pub const PUBLIC_KEY_SIZE: usize = 1952;

/// Length in bytes of a Dilithium3 secret key.
pub const SECRET_KEY_SIZE: usize = 4032;

/// Length in bytes of a Dilithium3 signature (a signed message is the
/// signature followed by the message).
pub const SIGNATURE_SIZE: usize = 3309;

/// SHA3-512 of a byte string.
pub uninterp spec fn sha3_512(data: Seq<u8>) -> Seq<u8>;

/// The message that a Dilithium3 signed message opens to under a public key,
/// or `None` when the signature does not check.
pub uninterp spec fn dilithium_opened(public_key: Seq<u8>, signed: Seq<u8>) -> Option<Seq<u8>>;

/// The signed message (signature followed by the message) that Dilithium3
/// signing produces for a secret key and a message; signing is deterministic.
pub uninterp spec fn dilithium_signed(secret_key: Seq<u8>, message: Seq<u8>) -> Seq<u8>;

/// The keys belong together: every message signed with the secret key opens,
/// under the public key, to that message.
pub open spec fn keys_match(public_key: Seq<u8>, secret_key: Seq<u8>) -> bool {
    forall|m: Seq<u8>| #[trigger] dilithium_opened(public_key, dilithium_signed(secret_key, m)) == Some(m)
}

/// `signed` is a valid Dilithium3 signature of `message` under `public_key`.
pub open spec fn signature_valid(public_key: Seq<u8>, message: Seq<u8>, signed: Seq<u8>) -> bool {
    dilithium_opened(public_key, signed) == Some(message)
}

/// Errors of the signature layer.
pub enum CryptoError {
    SignatureError(String),
    VerificationError(String),
    InvalidKeyFormat,
}

/// Relies on sha3::Sha3_512: the 64-byte digest of the input.
#[verifier::external_body]
pub fn hash_512(data: &[u8]) -> (r: [u8; 64])
    ensures
        r@ == sha3_512(data@),
{
    let mut hasher = sha3::Sha3_512::new();
    hasher.update(data);
    hasher.finalize().into()
}

/// Relies on rand::thread_rng and RngCore::next_u64: a fresh random value.
#[verifier::external_body]
pub fn generate_nonce() -> (r: u64) {
    rand::thread_rng().next_u64()
}

/// Relies on std::time::SystemTime::now: milliseconds since the Unix epoch
/// (zero for a clock set before it).
#[verifier::external_body]
pub fn current_timestamp_ms() -> (r: u64) {
    match std::time::SystemTime::now().duration_since(std::time::UNIX_EPOCH) {
        Ok(d) => d.as_millis() as u64,
        Err(_) => 0,
    }
}

/// Relies on dilithium3::keypair: a fresh key pair of the documented sizes,
/// whose signatures open under its public key (the scheme's correctness, as
/// the crate's own example shows).
#[verifier::external_body]
fn dilithium_keypair() -> (r: (Vec<u8>, Vec<u8>))
    ensures
        r.0@.len() == PUBLIC_KEY_SIZE,
        r.1@.len() == SECRET_KEY_SIZE,
        keys_match(r.0@, r.1@),
{
    let (pk, sk) = dilithium3::keypair();
    (pk.as_bytes().to_vec(), sk.as_bytes().to_vec())
}

/// Relies on dilithium3::sign, after SecretKey::from_bytes, which accepts
/// exactly the keys of SECRET_KEY_SIZE bytes: the signed message, which
/// depends on the key and the message alone.
#[verifier::external_body]
fn dilithium_sign(message: &[u8], secret_key: &[u8]) -> (r: Option<Vec<u8>>)
    ensures
        r.is_some() == (secret_key@.len() == SECRET_KEY_SIZE),
        r is Some ==> r->Some_0@ == dilithium_signed(secret_key@, message@),
{
    match dilithium3::SecretKey::from_bytes(secret_key) {
        Ok(sk) => Some(dilithium3::sign(message, &sk).as_bytes().to_vec()),
        Err(_) => None,
    }
}

/// Relies on dilithium3::open, after PublicKey::from_bytes (which accepts
/// exactly the keys of PUBLIC_KEY_SIZE bytes) and SignedMessage::from_bytes
/// (which accepts any bytes): the opened message, if the signature checks.
#[verifier::external_body]
fn dilithium_open(public_key: &[u8], signed: &[u8]) -> (r: Option<Vec<u8>>)
    requires
        public_key@.len() == PUBLIC_KEY_SIZE,
    ensures
        match r {
            Some(m) => dilithium_opened(public_key@, signed@) == Some(m@),
            None => dilithium_opened(public_key@, signed@) == None::<Seq<u8>>,
        },
{
    let pk = match dilithium3::PublicKey::from_bytes(public_key) {
        Ok(pk) => pk,
        Err(_) => return None,
    };
    let sm = match dilithium3::SignedMessage::from_bytes(signed) {
        Ok(sm) => sm,
        Err(_) => return None,
    };
    dilithium3::open(&sm, &pk).ok()
}

/// A stored key pair: each key preceded by its length as eight
/// little-endian bytes.
#[verifier::opaque]
pub open spec fn key_file(public_key: Seq<u8>, secret_key: Seq<u8>) -> Seq<u8> {
    le_bytes(public_key.len() as u64) + public_key + le_bytes(secret_key.len() as u64) + secret_key
}

/// The two keys a stored key pair holds, if the bytes are long enough;
/// bytes after the second key are ignored.
pub open spec fn parse_key_file(b: Seq<u8>) -> Option<(Seq<u8>, Seq<u8>)> {
    if b.len() < 16 {
        None
    } else {
        let n1 = le_value(b.subrange(0, 8));
        if b.len() < 16 + n1 {
            None
        } else {
            let n2 = le_value(b.subrange(8 + n1, 16 + n1));
            if b.len() < 16 + n1 + n2 {
                None
            } else {
                Some((b.subrange(8, 8 + n1), b.subrange(16 + n1, 16 + n1 + n2)))
            }
        }
    }
}

/// Eight little-endian length bytes amid others read back as the length.
proof fn lemma_read_le(x: u64, pre: Seq<u8>, rest: Seq<u8>)
    ensures
        le_value((pre + le_bytes(x) + rest).subrange(pre.len() as int, pre.len() as int + 8)) == x,
{
    assert((pre + le_bytes(x) + rest).subrange(pre.len() as int, pre.len() as int + 8) =~= le_bytes(x));
    lemma_le_round_trip(x);
}

/// Reading a stored key pair gives back the keys that were stored.
#[verifier::rlimit(40)]
pub proof fn lemma_key_file_round_trip(public_key: Seq<u8>, secret_key: Seq<u8>)
    requires
        public_key.len() <= u64::MAX,
        secret_key.len() <= u64::MAX,
    ensures
        parse_key_file(key_file(public_key, secret_key)) == Some((public_key, secret_key)),
{
    let n1 = public_key.len() as int;
    let n2 = secret_key.len() as int;
    let a = le_bytes(n1 as u64);
    let c = le_bytes(n2 as u64);
    let f = key_file(public_key, secret_key);
    assert(f == a + public_key + c + secret_key) by {
        reveal(key_file);
    }
    assert(f.len() == 16 + n1 + n2);
    assert(le_value(f.subrange(0, 8)) == n1) by {
        assert(f =~= Seq::<u8>::empty() + a + (public_key + c + secret_key));
        lemma_read_le(n1 as u64, Seq::<u8>::empty(), public_key + c + secret_key);
    }
    assert(le_value(f.subrange(8 + n1, 16 + n1)) == n2) by {
        assert(f =~= (a + public_key) + c + secret_key);
        lemma_read_le(n2 as u64, a + public_key, secret_key);
    }
    assert(f.subrange(8, 8 + n1) == public_key) by {
        assert(f.subrange(8, 8 + n1) =~= public_key);
    }
    assert(f.subrange(16 + n1, 16 + n1 + n2) == secret_key) by {
        assert(f.subrange(16 + n1, 16 + n1 + n2) =~= secret_key);
    }
}

/// Relies on bincode::serialize of a pair of byte vectors: each vector as
/// its length in eight little-endian bytes followed by its bytes; writing to
/// a vector with no size limit cannot fail.
#[verifier::external_body]
fn bincode_encode_keys(public_key: &Vec<u8>, secret_key: &Vec<u8>) -> (r: Vec<u8>)
    ensures
        r@ == key_file(public_key@, secret_key@),
{
    bincode::serialize(&(public_key, secret_key)).unwrap_or_default()
}

/// Relies on bincode::deserialize of a pair of byte vectors: two
/// length-prefixed byte strings, failing on input too short for the
/// announced lengths, with trailing bytes allowed.
#[verifier::external_body]
fn bincode_decode_keys(bytes: &[u8]) -> (r: Option<(Vec<u8>, Vec<u8>)>)
    ensures
        match parse_key_file(bytes@) {
            Some(keys) => r is Some && r->Some_0.0@ == keys.0 && r->Some_0.1@ == keys.1,
            None => r is None,
        },
{
    bincode::deserialize::<(Vec<u8>, Vec<u8>)>(bytes).ok()
}

/// A Dilithium3 key pair.
pub struct KeyPair {
    public_key: Vec<u8>,
    secret_key: Vec<u8>,
}

impl Clone for KeyPair {
    fn clone(&self) -> (r: Self)
        ensures
            r.public_view() == self.public_view(),
            r.secret_view() == self.secret_view(),
    {
        KeyPair { public_key: self.public_key.clone(), secret_key: self.secret_key.clone() }
    }
}

impl KeyPair {
    pub closed spec fn public_view(&self) -> Seq<u8> {
        self.public_key@
    }

    pub closed spec fn secret_view(&self) -> Seq<u8> {
        self.secret_key@
    }

    /// Generates a fresh key pair whose keys belong together.
    pub fn generate() -> (r: Self)
        ensures
            r.public_view().len() == PUBLIC_KEY_SIZE,
            r.secret_view().len() == SECRET_KEY_SIZE,
            keys_match(r.public_view(), r.secret_view()),
    {
        let (public_key, secret_key) = dilithium_keypair();
        KeyPair { public_key, secret_key }
    }

    /// A key pair from stored key bytes; nothing is checked here, signing
    /// reports a malformed secret key.
    pub fn from_parts(public_key: Vec<u8>, secret_key: Vec<u8>) -> (r: Self)
        ensures
            r.public_view() == public_key@,
            r.secret_view() == secret_key@,
    {
        KeyPair { public_key, secret_key }
    }

    /// Signs `message`; the result is the signed message (signature followed
    /// by the message). Fails exactly when the secret key is malformed.
    pub fn sign(&self, message: &[u8]) -> (r: Result<Vec<u8>, CryptoError>)
        ensures
            r is Ok <==> self.secret_view().len() == SECRET_KEY_SIZE,
            r is Ok ==> r->Ok_0@ == dilithium_signed(self.secret_view(), message@),
            r is Err ==> r->Err_0 is SignatureError,
    {
        match dilithium_sign(message, self.secret_key.as_slice()) {
            Some(s) => Ok(s),
            None => Err(CryptoError::SignatureError("invalid secret key length".to_owned())),
        }
    }

    /// The stored form of this key pair.
    pub fn to_bytes(&self) -> (r: Result<Vec<u8>, CryptoError>)
        ensures
            r is Ok,
            r->Ok_0@ == key_file(self.public_view(), self.secret_view()),
    {
        Ok(bincode_encode_keys(&self.public_key, &self.secret_key))
    }

    /// A key pair read from its stored form; refuses bytes too short for
    /// the lengths they announce.
    pub fn from_bytes(bytes: &[u8]) -> (r: Result<Self, CryptoError>)
        ensures
            match parse_key_file(bytes@) {
                Some(keys) => r is Ok && r->Ok_0.public_view() == keys.0 && r->Ok_0.secret_view()
                    == keys.1,
                None => r is Err && r->Err_0 is InvalidKeyFormat,
            },
    {
        match bincode_decode_keys(bytes) {
            Some((public_key, secret_key)) => Ok(KeyPair { public_key, secret_key }),
            None => Err(CryptoError::InvalidKeyFormat),
        }
    }

    /// The public key bytes.
    pub fn public_key(&self) -> (r: &[u8])
        ensures
            r@ == self.public_view(),
    {
        self.public_key.as_slice()
    }

    /// The secret key bytes.
    pub fn secret_key(&self) -> (r: &[u8])
        ensures
            r@ == self.secret_view(),
    {
        self.secret_key.as_slice()
    }
}

/// A public key used to check signatures.
pub struct PublicKeyBytes(pub Vec<u8>);

impl PublicKeyBytes {
    /// Accepts exactly the byte strings of a Dilithium3 public key's length.
    pub fn from_bytes(bytes: &[u8]) -> (r: Result<Self, CryptoError>)
        ensures
            r is Ok <==> bytes@.len() == PUBLIC_KEY_SIZE,
            r is Ok ==> r->Ok_0.0@ == bytes@,
            r is Err ==> r->Err_0 is InvalidKeyFormat,
    {
        if bytes.len() != PUBLIC_KEY_SIZE {
            return Err(CryptoError::InvalidKeyFormat);
        }
        Ok(PublicKeyBytes(crate::bytes::bytes_to_vec(bytes)))
    }

    /// Checks that `signature` is a signed message of exactly `message` under
    /// this key. Fails only on a malformed key.
    pub fn verify(&self, message: &[u8], signature: &[u8]) -> (r: Result<bool, CryptoError>)
        ensures
            self.0@.len() != PUBLIC_KEY_SIZE ==> (r is Err && r->Err_0 is VerificationError),
            self.0@.len() == PUBLIC_KEY_SIZE ==> r == Ok::<bool, CryptoError>(
                signature_valid(self.0@, message@, signature@),
            ),
    {
        if self.0.len() != PUBLIC_KEY_SIZE {
            return Err(CryptoError::VerificationError("invalid public key length".to_owned()));
        }
        match dilithium_open(self.0.as_slice(), signature) {
            Some(opened) => Ok(crate::bytes::bytes_eq(opened.as_slice(), message)),
            None => Ok(false),
        }
    }
}

} // verus!
