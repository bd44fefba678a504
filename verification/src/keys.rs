//! Key material: the public keys that name wallets and cash notes, and the
//! secret keys that spend them.
//!
//! Keys and signatures are held as their bytes, so that the bookkeeping can
//! compare them and the contracts can speak of them. What only `blsttc` can
//! compute is computed by it, from bytes to bytes. Unlike a
//! `blsttc::SecretKey`, the bytes of a secret are not wiped when the key is
//! dropped.

use vstd::prelude::*;

verus! {

/// The seed from which the owner of a main key derives the key of one cash note.
pub type DerivationIndex = [u8; 32];

/// `blsttc::SecretKey`, carried through as it is: nothing here looks inside.
#[verifier::external_type_specification]
#[verifier::external_body]
pub struct ExSecretKey(blsttc::SecretKey);

/// The address of a wallet: the public half of its main key.
#[derive(Clone, Copy, Debug, PartialEq, Eq, PartialOrd, Ord, Hash)]
pub struct MainPubkey {
    pub bytes: [u8; 48],
}

/// The identity of one cash note: a public key that no other note carries.
#[derive(Clone, Copy, Debug, PartialEq, Eq, PartialOrd, Ord, Hash)]
pub struct UniquePubkey {
    pub bytes: [u8; 48],
}

/// Whether two arrays hold the same bytes.
pub fn same_bytes<const N: usize>(a: &[u8; N], b: &[u8; N]) -> (r: bool)
    ensures
        r == (*a == *b),
{
    let mut i: usize = 0;
    while i < N
        invariant
            i <= N,
            forall|j: int| 0 <= j < i ==> a[j] == b[j],
        decreases N - i,
    {
        if a[i] != b[i] {
            return false;
        }
        i += 1;
    }
    assert(*a =~= *b);
    true
}

impl MainPubkey {
    /// The address with the given compressed bytes.
    pub fn new(bytes: [u8; 48]) -> (r: MainPubkey)
        ensures
            r.bytes == bytes,
    {
        MainPubkey { bytes }
    }

    /// The compressed bytes of the address.
    pub fn to_bytes(&self) -> (r: [u8; 48])
        ensures
            r == self.bytes,
    {
        self.bytes
    }

    /// Whether `other` is this same address.
    pub fn same(&self, other: &MainPubkey) -> (r: bool)
        ensures
            r == (*self == *other),
    {
        same_bytes(&self.bytes, &other.bytes)
    }
}

impl UniquePubkey {
    /// The identity with the given compressed bytes.
    pub fn new(bytes: [u8; 48]) -> (r: UniquePubkey)
        ensures
            r.bytes == bytes,
    {
        UniquePubkey { bytes }
    }

    /// The compressed bytes of the identity.
    pub fn to_bytes(&self) -> (r: [u8; 48])
        ensures
            r == self.bytes,
    {
        self.bytes
    }

    /// Whether `other` is this same identity.
    pub fn same(&self, other: &UniquePubkey) -> (r: bool)
        ensures
            r == (*self == *other),
    {
        same_bytes(&self.bytes, &other.bytes)
    }
}

/// Whether `blsttc::SecretKey::from_bytes` takes the 32 bytes `secret` for a
/// secret key.
pub uninterp spec fn bls_secret_is_valid(secret: Seq<u8>) -> bool;

/// The 48 compressed bytes of the public key that `blsttc` gives for the
/// secret key with the bytes `secret`.
pub uninterp spec fn bls_public_key_of(secret: Seq<u8>) -> Seq<u8>;

/// The 32 bytes of the child key that `blsttc` derives from the secret key
/// with the bytes `secret` for `index`.
pub uninterp spec fn bls_child_of(secret: Seq<u8>, index: Seq<u8>) -> Seq<u8>;

/// The 96 compressed bytes of the signature that `blsttc` gives with the
/// secret key with the bytes `secret` for `msg`.
pub uninterp spec fn bls_signature_of(secret: Seq<u8>, msg: Seq<u8>) -> Seq<u8>;

/// What `blsttc` reads out of the bytes `cipher` with the secret key with the
/// bytes `secret`: `None` where the bytes are no ciphertext or the ciphertext
/// does not hold up.
pub uninterp spec fn bls_decrypted(secret: Seq<u8>, cipher: Seq<u8>) -> Option<Seq<u8>>;

/// Draws a secret key with `blsttc::SecretKey::random`, which takes it from the
/// thread's random number generator. Nothing is promised of the key drawn.
#[verifier::external_body]
fn bls_random_secret() -> (secret: blsttc::SecretKey) {
    blsttc::SecretKey::random()
}

/// Copies a secret key with its `Clone` impl. Nothing is claimed of the copy
/// here; it is only ever handed back as it is.
#[verifier::external_body]
fn bls_clone_secret(secret: &blsttc::SecretKey) -> (copy: blsttc::SecretKey) {
    secret.clone()
}

/// The 32 bytes of `blsttc::SecretKey::to_bytes`. The key is opaque here, so
/// the contract claims one thing only: that these are bytes which
/// `blsttc::SecretKey::from_bytes` takes, as `to_bytes` writes the scalar in
/// the canonical form that `from_bytes` asks for.
#[verifier::external_body]
fn bls_secret_bytes(secret: &blsttc::SecretKey) -> (bytes: [u8; 32])
    ensures
        bls_secret_is_valid(bytes@),
{
    secret.to_bytes()
}

/// The compressed bytes of `blsttc::SecretKey::public_key` for the key that
/// `blsttc::SecretKey::from_bytes` reads from `secret`. The contract gives the
/// bytes the name `bls_public_key_of`: they depend on `secret` alone.
#[verifier::external_body]
fn bls_public_key(secret: &[u8; 32]) -> (bytes: [u8; 48])
    requires
        bls_secret_is_valid(secret@),
    ensures
        bytes@ == bls_public_key_of(secret@),
{
    let key = blsttc::SecretKey::from_bytes(*secret).expect("bytes of a secret key");
    key.public_key().to_bytes()
}

/// The bytes of the child key that `blsttc::SecretKey::derive_child` gives for
/// `index`, from the key that `blsttc::SecretKey::from_bytes` reads from
/// `secret`. The contract gives the bytes the name `bls_child_of`: they depend
/// on `secret` and `index` alone. Being what `to_bytes` wrote, they are bytes
/// that `from_bytes` takes.
#[verifier::external_body]
fn bls_derive_child(secret: &[u8; 32], index: &[u8; 32]) -> (child: [u8; 32])
    requires
        bls_secret_is_valid(secret@),
    ensures
        child@ == bls_child_of(secret@, index@),
        bls_secret_is_valid(child@),
{
    let key = blsttc::SecretKey::from_bytes(*secret).expect("bytes of a secret key");
    key.derive_child(index).to_bytes()
}

/// The compressed bytes of the signature that `blsttc::SecretKey::sign` gives
/// for `msg`, with the key that `blsttc::SecretKey::from_bytes` reads from
/// `secret`. The contract gives the bytes the name `bls_signature_of`: they
/// depend on `secret` and `msg` alone.
#[verifier::external_body]
fn bls_sign(secret: &[u8; 32], msg: &[u8]) -> (signature: [u8; 96])
    requires
        bls_secret_is_valid(secret@),
    ensures
        signature@ == bls_signature_of(secret@, msg@),
{
    let key = blsttc::SecretKey::from_bytes(*secret).expect("bytes of a secret key");
    key.sign(msg).to_bytes()
}

/// Reads `cipher` with `blsttc::Ciphertext::from_bytes` and decrypts it with
/// `blsttc::SecretKey::decrypt`, with the key that
/// `blsttc::SecretKey::from_bytes` reads from `secret`: `None` where either
/// refuses, otherwise the plain bytes. The contract gives the outcome the name
/// `bls_decrypted`: it depends on `secret` and `cipher` alone.
#[verifier::external_body]
fn bls_decrypt(secret: &[u8; 32], cipher: &[u8]) -> (plain: Option<Vec<u8>>)
    requires
        bls_secret_is_valid(secret@),
    ensures
        bls_decrypted(secret@, cipher@) == (match plain {
            Some(bytes) => Some(bytes@),
            None => None,
        }),
{
    let key = blsttc::SecretKey::from_bytes(*secret).expect("bytes of a secret key");
    match blsttc::Ciphertext::from_bytes(cipher) {
        Ok(ciphertext) => key.decrypt(&ciphertext),
        Err(_) => None,
    }
}

/// Fills 32 bytes from the operating system's generator with
/// `rand::RngCore::try_fill_bytes` on `rand::rngs::OsRng`; `None` where the
/// system gives an error. The contract claims nothing of the bytes.
#[verifier::external_body]
fn os_random_bytes() -> (bytes: Option<[u8; 32]>) {
    let mut bytes = [0u8; 32];
    match rand::RngCore::try_fill_bytes(&mut rand::rngs::OsRng, &mut bytes) {
        Ok(()) => Some(bytes),
        Err(_) => None,
    }
}

/// A fresh derivation index from the operating system's random number
/// generator, or `None` where that generator fails.
pub fn random_derivation_index() -> (r: Option<DerivationIndex>) {
    os_random_bytes()
}

/// A signature: its 96 compressed bytes.
#[derive(Clone, Copy, Debug, PartialEq, Eq)]
pub struct Signature {
    pub bytes: [u8; 96],
}

/// The main key of a wallet: the secret from which every cash note's spending
/// key is derived, together with its public half. The secret is held as it
/// was given and as its 32 bytes; what is computed with the key is computed
/// from the bytes.
pub struct MainSecretKey {
    secret: blsttc::SecretKey,
    bytes: [u8; 32],
    public: MainPubkey,
}

/// The key that spends one cash note, as its 32 bytes, with a note of what it
/// was derived from: the main key with the address `main_pubkey`, and the
/// derivation index.
pub struct DerivedSecretKey {
    bytes: [u8; 32],
    main_pubkey: MainPubkey,
    derivation_index: DerivationIndex,
}

/// What a main key holds, as mathematical values: its address and the 32
/// bytes of its secret.
pub struct KeyState {
    pub address: MainPubkey,
    pub secret: Seq<u8>,
}

impl View for MainSecretKey {
    type V = KeyState;

    open spec fn view(&self) -> KeyState {
        KeyState { address: self.main_pubkey(), secret: self.secret_bytes() }
    }
}

impl MainSecretKey {
    /// The bytes are those of a secret key, and the address is the public key
    /// that belongs to them.
    #[verifier::type_invariant]
    spec fn in_order(self) -> bool {
        &&& bls_secret_is_valid(self.bytes@)
        &&& self.public.bytes@ == bls_public_key_of(self.bytes@)
    }

    /// The secret as it was given.
    pub closed spec fn secret(&self) -> blsttc::SecretKey {
        self.secret
    }

    /// The 32 bytes of the secret.
    pub closed spec fn secret_bytes(&self) -> Seq<u8> {
        self.bytes@
    }

    /// The address that belongs to this key.
    pub closed spec fn spec_main_pubkey(&self) -> MainPubkey {
        self.public
    }

    /// The main key around `secret`: it keeps the secret, and its address is
    /// the public key of the secret's bytes.
    pub fn new(secret: blsttc::SecretKey) -> (r: MainSecretKey)
        ensures
            r.secret() == secret,
            bls_secret_is_valid(r.secret_bytes()),
            r.main_pubkey().bytes@ == bls_public_key_of(r.secret_bytes()),
    {
        let bytes = bls_secret_bytes(&secret);
        let public = MainPubkey { bytes: bls_public_key(&bytes) };
        MainSecretKey { secret, bytes, public }
    }

    /// A main key drawn at random.
    pub fn random() -> (r: MainSecretKey)
        ensures
            bls_secret_is_valid(r.secret_bytes()),
            r.main_pubkey().bytes@ == bls_public_key_of(r.secret_bytes()),
    {
        MainSecretKey::new(bls_random_secret())
    }

    /// The address that belongs to this key: the public key of the secret.
    #[verifier::when_used_as_spec(spec_main_pubkey)]
    pub fn main_pubkey(&self) -> (r: MainPubkey)
        ensures
            r == self.main_pubkey(),
            r.bytes@ == bls_public_key_of(self.secret_bytes()),
    {
        proof {
            use_type_invariant(self);
        }
        self.public
    }

    /// The secret itself, as it was given, for what only `blsttc` can do with
    /// it.
    pub fn secret_key(&self) -> (r: &blsttc::SecretKey)
        ensures
            *r == self.secret(),
    {
        &self.secret
    }

    /// Signs `msg` with the main key.
    pub fn sign(&self, msg: &[u8]) -> (r: Signature)
        ensures
            r.bytes@ == bls_signature_of(self.secret_bytes(), msg@),
    {
        proof {
            use_type_invariant(self);
        }
        Signature { bytes: bls_sign(&self.bytes, msg) }
    }

    /// The key that spends the cash note made with `derivation_index`: the
    /// child of the main key for that index.
    pub fn derive_key(&self, derivation_index: &DerivationIndex) -> (r: DerivedSecretKey)
        ensures
            r.main_pubkey() == self.main_pubkey(),
            r.derivation_index() == *derivation_index,
            r.secret_bytes() == bls_child_of(self.secret_bytes(), derivation_index@),
    {
        proof {
            use_type_invariant(self);
        }
        DerivedSecretKey {
            bytes: bls_derive_child(&self.bytes, derivation_index),
            main_pubkey: self.public,
            derivation_index: *derivation_index,
        }
    }

    /// Tries to read one part of a transfer with the main key: `None` where
    /// the part is no ciphertext or does not hold up, otherwise what the key
    /// gets out of it.
    pub(crate) fn decrypt(&self, cipher: &Vec<u8>) -> (r: Option<Vec<u8>>)
        ensures
            bls_decrypted(self.secret_bytes(), cipher@) == (match r {
                Some(bytes) => Some(bytes@),
                None => None,
            }),
    {
        proof {
            use_type_invariant(self);
        }
        bls_decrypt(&self.bytes, cipher.as_slice())
    }
}

impl Clone for MainSecretKey {
    fn clone(&self) -> (r: MainSecretKey)
        ensures
            r.main_pubkey() == self.main_pubkey(),
            r.secret_bytes() == self.secret_bytes(),
    {
        proof {
            use_type_invariant(self);
        }
        MainSecretKey {
            secret: bls_clone_secret(&self.secret),
            bytes: self.bytes,
            public: self.public,
        }
    }
}

impl DerivedSecretKey {
    /// The bytes are those of a secret key.
    #[verifier::type_invariant]
    spec fn in_order(self) -> bool {
        bls_secret_is_valid(self.bytes@)
    }

    /// The 32 bytes of the key.
    pub closed spec fn secret_bytes(&self) -> Seq<u8> {
        self.bytes@
    }

    /// The address of the main key that this key was derived from.
    pub closed spec fn spec_main_pubkey(&self) -> MainPubkey {
        self.main_pubkey
    }

    /// The derivation index that this key was derived with.
    pub closed spec fn spec_derivation_index(&self) -> DerivationIndex {
        self.derivation_index
    }

    /// The address of the main key that this key was derived from.
    #[verifier::when_used_as_spec(spec_main_pubkey)]
    pub fn main_pubkey(&self) -> (r: MainPubkey)
        ensures
            r == self.main_pubkey(),
    {
        self.main_pubkey
    }

    /// The derivation index that this key was derived with.
    #[verifier::when_used_as_spec(spec_derivation_index)]
    pub fn derivation_index(&self) -> (r: DerivationIndex)
        ensures
            r == self.derivation_index(),
    {
        self.derivation_index
    }

    /// The identity of the cash note that this key spends: the public key of
    /// this key.
    pub fn unique_pubkey(&self) -> (r: UniquePubkey)
        ensures
            r.bytes@ == bls_public_key_of(self.secret_bytes()),
    {
        proof {
            use_type_invariant(self);
        }
        UniquePubkey { bytes: bls_public_key(&self.bytes) }
    }

    /// Signs `msg` with the note's key.
    pub fn sign(&self, msg: &[u8]) -> (r: Signature)
        ensures
            r.bytes@ == bls_signature_of(self.secret_bytes(), msg@),
    {
        proof {
            use_type_invariant(self);
        }
        Signature { bytes: bls_sign(&self.bytes, msg) }
    }
}

} // verus!
