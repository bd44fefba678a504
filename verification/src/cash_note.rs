//! Cash notes and the transactions they come from.

use vstd::prelude::*;
use crate::amount::Nano;
use crate::error::Error;
use crate::keys::{
    bls_child_of, same_bytes, DerivationIndex, DerivedSecretKey, MainPubkey, MainSecretKey,
    UniquePubkey,
};

verus! {

/// A 32-byte digest, as used for the reason attached to a spend and for the
/// name of a transaction.
#[derive(Clone, Copy, Debug, PartialEq, Eq)]
pub struct Hash {
    pub bytes: [u8; 32],
}

impl Hash {
    /// The digest with the given bytes.
    pub fn new(bytes: [u8; 32]) -> (r: Hash)
        ensures
            r.bytes == bytes,
    {
        Hash { bytes }
    }

    /// Whether `other` is this same digest.
    pub fn same(&self, other: &Hash) -> (r: bool)
        ensures
            r == (*self == *other),
    {
        same_bytes(&self.bytes, &other.bytes)
    }

    /// Whether every byte of the digest is zero, which stands for "no reason
    /// given".
    pub open spec fn is_zero(self) -> bool {
        forall|i: int| 0 <= i < 32 ==> self.bytes[i] == 0
    }
}

impl Default for Hash {
    fn default() -> (r: Hash)
        ensures
            r.is_zero(),
    {
        Hash { bytes: [0u8; 32] }
    }
}

/// A cash note consumed by a transaction.
#[derive(Clone, Copy, Debug, PartialEq, Eq)]
pub struct Input {
    pub unique_pubkey: UniquePubkey,
    pub amount: Nano,
}

/// A cash note brought forth by a transaction.
#[derive(Clone, Copy, Debug, PartialEq, Eq)]
pub struct Output {
    pub unique_pubkey: UniquePubkey,
    pub amount: Nano,
}

/// A transaction: the notes it consumes and the notes it brings forth.
#[derive(Debug, PartialEq, Eq)]
pub struct Transaction {
    pub inputs: Vec<Input>,
    pub outputs: Vec<Output>,
}

/// What a [`Transaction`] holds, as mathematical sequences.
pub struct TransactionView {
    pub inputs: Seq<Input>,
    pub outputs: Seq<Output>,
}

impl View for Transaction {
    type V = TransactionView;

    open spec fn view(&self) -> TransactionView {
        TransactionView { inputs: self.inputs@, outputs: self.outputs@ }
    }
}

/// A copy of `v`, item for item.
pub fn copy_items<T: Copy>(v: &Vec<T>) -> (r: Vec<T>)
    ensures
        r@ == v@,
{
    let mut r: Vec<T> = Vec::new();
    let mut i: usize = 0;
    while i < v.len()
        invariant
            i <= v.len(),
            r@ == v@.take(i as int),
        decreases v.len() - i,
    {
        r.push(v[i]);
        assert(v@.take(i + 1) =~= v@.take(i as int).push(v@[i as int]));
        i += 1;
    }
    assert(v@.take(v.len() as int) =~= v@);
    r
}

impl Clone for Transaction {
    fn clone(&self) -> (r: Transaction)
        ensures
            r@ == self@,
    {
        Transaction { inputs: copy_items(&self.inputs), outputs: copy_items(&self.outputs) }
    }
}

/// The amount of the first output at or after position `from` that is made out
/// to `id`, if there is one.
pub open spec fn find_output(outputs: Seq<Output>, id: UniquePubkey, from: int) -> Option<Nano>
    decreases outputs.len() - from,
{
    if from < 0 || from >= outputs.len() {
        None
    } else if outputs[from].unique_pubkey == id {
        Some(outputs[from].amount)
    } else {
        find_output(outputs, id, from + 1)
    }
}

/// A cash note: a unit of value that whoever holds the matching derived key
/// can spend once.
#[derive(Debug, PartialEq, Eq)]
pub struct CashNote {
    /// The identity of the note.
    pub id: UniquePubkey,
    /// The transaction that brought the note forth.
    pub src_tx: Transaction,
    /// The address of the wallet that the note is made out to.
    pub main_pubkey: MainPubkey,
    /// The seed from which that wallet derives the key that spends the note.
    pub derivation_index: DerivationIndex,
}

/// What a [`CashNote`] holds, as mathematical values.
pub struct CashNoteView {
    pub id: UniquePubkey,
    pub src_tx: TransactionView,
    pub main_pubkey: MainPubkey,
    pub derivation_index: DerivationIndex,
}

impl CashNoteView {
    /// The amount that the note is worth: what its source transaction pays out
    /// to the note's identity. `None` where the transaction has no such output.
    pub open spec fn amount(self) -> Option<Nano> {
        find_output(self.src_tx.outputs, self.id, 0)
    }

    /// Whether the wallet at `address` can derive the key that spends the note.
    pub open spec fn owned_by(self, address: MainPubkey) -> bool {
        self.main_pubkey == address
    }
}

impl View for CashNote {
    type V = CashNoteView;

    open spec fn view(&self) -> CashNoteView {
        CashNoteView {
            id: self.id,
            src_tx: self.src_tx@,
            main_pubkey: self.main_pubkey,
            derivation_index: self.derivation_index,
        }
    }
}

impl Clone for CashNote {
    fn clone(&self) -> (r: CashNote)
        ensures
            r@ == self@,
    {
        CashNote {
            id: self.id,
            src_tx: self.src_tx.clone(),
            main_pubkey: self.main_pubkey,
            derivation_index: self.derivation_index,
        }
    }
}

impl CashNote {
    /// The identity of the note.
    pub fn unique_pubkey(&self) -> (r: UniquePubkey)
        ensures
            r == self@.id,
    {
        self.id
    }

    /// The address of the wallet that the note is made out to.
    pub fn main_pubkey(&self) -> (r: &MainPubkey)
        ensures
            *r == self@.main_pubkey,
    {
        &self.main_pubkey
    }

    /// The seed from which the owner derives the note's key.
    pub fn derivation_index(&self) -> (r: DerivationIndex)
        ensures
            r == self@.derivation_index,
    {
        self.derivation_index
    }

    /// The amount that the note is worth, read from the transaction that
    /// brought it forth.
    pub fn token(&self) -> (r: Result<Nano, Error>)
        ensures
            r == (match self@.amount() {
                Some(amount) => Ok::<Nano, Error>(amount),
                None => Err(Error::OutputNotFound),
            }),
    {
        let mut i: usize = 0;
        while i < self.src_tx.outputs.len()
            invariant
                i <= self.src_tx.outputs.len(),
                self@.amount() == find_output(self.src_tx.outputs@, self.id, i as int),
            decreases self.src_tx.outputs.len() - i,
        {
            if self.src_tx.outputs[i].unique_pubkey.same(&self.id) {
                return Ok(self.src_tx.outputs[i].amount);
            }
            i += 1;
        }
        Err(Error::OutputNotFound)
    }

    /// The key that spends the note, derived from `main_key`. It can be derived
    /// only by the wallet that the note is made out to.
    pub fn derived_key(&self, main_key: &MainSecretKey) -> (r: Result<DerivedSecretKey, Error>)
        ensures
            match r {
                Ok(key) => self@.owned_by(main_key.main_pubkey()) && key.main_pubkey()
                    == main_key.main_pubkey() && key.derivation_index() == self@.derivation_index
                    && key.secret_bytes() == bls_child_of(
                    main_key.secret_bytes(),
                    self@.derivation_index@,
                ),
                Err(failure) => !self@.owned_by(main_key.main_pubkey()) && failure
                    == Error::MainSecretKeyDoesNotMatchMainPubkey,
            },
    {
        if !main_key.main_pubkey().same(&self.main_pubkey) {
            return Err(Error::MainSecretKeyDoesNotMatchMainPubkey);
        }
        Ok(main_key.derive_key(&self.derivation_index))
    }
}

/// The notes of `v`, each as its mathematical value.
pub open spec fn note_views(v: Seq<CashNote>) -> Seq<CashNoteView> {
    v.map_values(|note: CashNote| note@)
}

} // verus!
