//! What a transfer is made of: the spends to hand to the network, and the
//! cash notes that come out of it.

use vstd::prelude::*;
use crate::amount::Nano;
use crate::cash_note::{CashNote, CashNoteView, Input, Transaction, TransactionView, note_views};
use crate::codec::{
    append_array, append_u64, array_at, lemma_array_at, lemma_u64_at, read_array, read_u64,
    u64_at, u64_bytes, Record,
};
use crate::error::Error;
use crate::keys::{bls_decrypted, same_bytes, DerivationIndex, UniquePubkey};

verus! {

/// The declaration, signed with the cash note's key, that one cash note is
/// spent in one transaction. It goes to the network, and is kept until the
/// network is known to have taken it.
#[derive(Clone, Copy, Debug, PartialEq, Eq)]
pub struct SpendRequest {
    /// The cash note that is spent.
    pub unique_pubkey: UniquePubkey,
    /// The name of the transaction in which it is spent.
    pub spent_tx: crate::cash_note::Hash,
    /// The reason given for the spend.
    pub reason: crate::cash_note::Hash,
    /// The amount of the cash note.
    pub amount: Nano,
    /// The signature of the cash note's key over the rest.
    pub signature: [u8; 96],
}

impl SpendRequest {
    /// Whether `other` is this same request, field for field.
    pub fn same(&self, other: &SpendRequest) -> (r: bool)
        ensures
            r == (*self == *other),
    {
        self.unique_pubkey.same(&other.unique_pubkey) && self.spent_tx.same(&other.spent_tx)
            && self.reason.same(&other.reason) && self.amount.as_nano() == other.amount.as_nano()
            && same_bytes(&self.signature, &other.signature)
    }
}

impl Record for SpendRequest {
    open spec fn size() -> nat {
        216
    }

    /// The cash note, the transaction, the reason, the amount, and the
    /// signature, in this order.
    open spec fn bytes(self) -> Seq<u8> {
        self.unique_pubkey.bytes@ + self.spent_tx.bytes@ + self.reason.bytes@ + u64_bytes(
            self.amount.value,
        ) + self.signature@
    }

    open spec fn at(bytes: Seq<u8>, at: int) -> SpendRequest {
        SpendRequest {
            unique_pubkey: UniquePubkey { bytes: array_at::<48>(bytes, at) },
            spent_tx: crate::cash_note::Hash { bytes: array_at::<32>(bytes, at + 48) },
            reason: crate::cash_note::Hash { bytes: array_at::<32>(bytes, at + 80) },
            amount: Nano { value: u64_at(bytes, at + 112) },
            signature: array_at::<96>(bytes, at + 120),
        }
    }

    proof fn lemma_record(before: Seq<u8>, item: SpendRequest, after: Seq<u8>) {
        let id = item.unique_pubkey.bytes@;
        let tx = item.spent_tx.bytes@;
        let reason = item.reason.bytes@;
        let amount = u64_bytes(item.amount.value);
        let signature = item.signature@;
        let bytes = before + item.bytes() + after;
        lemma_array_at(before, item.unique_pubkey.bytes, tx + reason + amount + signature + after);
        assert(bytes =~= before + id + (tx + reason + amount + signature + after));
        lemma_array_at(before + id, item.spent_tx.bytes, reason + amount + signature + after);
        assert(bytes =~= (before + id) + tx + (reason + amount + signature + after));
        lemma_array_at(before + id + tx, item.reason.bytes, amount + signature + after);
        assert(bytes =~= (before + id + tx) + reason + (amount + signature + after));
        lemma_u64_at(before + id + tx + reason, item.amount.value, signature + after);
        assert(bytes =~= (before + id + tx + reason) + amount + (signature + after));
        lemma_array_at(before + id + tx + reason + amount, item.signature, after);
        assert(bytes =~= (before + id + tx + reason + amount) + signature + after);
    }

    fn width() -> (r: usize) {
        216
    }

    fn append(&self, out: &mut Vec<u8>) {
        append_array(out, &self.unique_pubkey.bytes);
        append_array(out, &self.spent_tx.bytes);
        append_array(out, &self.reason.bytes);
        append_u64(out, self.amount.as_nano());
        append_array(out, &self.signature);
        assert(out@ =~= old(out)@ + self.bytes());
    }

    fn read(bytes: &[u8], at: usize) -> (r: SpendRequest) {
        let len = bytes.len();
        SpendRequest {
            unique_pubkey: UniquePubkey { bytes: read_array::<48>(bytes, at) },
            spent_tx: crate::cash_note::Hash { bytes: read_array::<32>(bytes, at + 48) },
            reason: crate::cash_note::Hash { bytes: read_array::<32>(bytes, at + 80) },
            amount: Nano::from(read_u64(bytes, at + 112)),
            signature: read_array::<96>(bytes, at + 120),
        }
    }
}

/// The outcome of building one transfer.
#[derive(Debug, PartialEq, Eq)]
pub struct TransferOutputs {
    /// The transaction: its inputs are the cash notes that the transfer spends.
    pub tx: Transaction,
    /// The cash notes made for the recipients.
    pub created_cash_notes: Vec<CashNote>,
    /// The cash note that carries what is left over back to the sender.
    pub change_cash_note: Option<CashNote>,
    /// The spends to hand to the network, in the order in which to hand them over.
    pub all_spend_requests: Vec<SpendRequest>,
}

/// What a [`TransferOutputs`] holds, as mathematical values.
pub struct TransferOutputsView {
    pub tx: TransactionView,
    pub created_cash_notes: Seq<CashNoteView>,
    pub change_cash_note: Option<CashNoteView>,
    pub all_spend_requests: Seq<SpendRequest>,
}

impl TransferOutputsView {
    /// The identities of the cash notes that the transfer spends.
    pub open spec fn spent_ids(self) -> Seq<UniquePubkey> {
        self.tx.inputs.map_values(|input: Input| input.unique_pubkey)
    }

    /// The identities of the cash notes made for the recipients.
    pub open spec fn created_ids(self) -> Seq<UniquePubkey> {
        self.created_cash_notes.map_values(|note: CashNoteView| note.id)
    }
}

impl View for TransferOutputs {
    type V = TransferOutputsView;

    open spec fn view(&self) -> TransferOutputsView {
        TransferOutputsView {
            tx: self.tx@,
            created_cash_notes: note_views(self.created_cash_notes@),
            change_cash_note: match self.change_cash_note {
                Some(note) => Some(note@),
                None => None,
            },
            all_spend_requests: self.all_spend_requests@,
        }
    }
}

/// The claim on one cash note that a transfer carries to its recipient: the
/// seed from which the recipient derives the note's key, and the address of
/// the spend that the note comes from.
#[derive(Clone, Copy, Debug, PartialEq, Eq)]
pub struct CashNoteRedemption {
    pub derivation_index: DerivationIndex,
    pub parent_spend: [u8; 32],
}

/// A transfer as it reaches the recipient.
#[derive(Debug, PartialEq, Eq)]
pub enum Transfer {
    /// Claims that only the recipient can read, one ciphertext each.
    Encrypted(Vec<Vec<u8>>),
    /// Claims that anyone can read.
    NetworkRoyalties(Vec<CashNoteRedemption>),
}

/// The four bytes that every claim begins with: the letters `CNR` and the
/// version 1. They tell a claim from what a key that the transfer was not made
/// out to gets out of it.
pub open spec fn claim_tag() -> Seq<u8> {
    seq![67u8, 78u8, 82u8, 1u8]
}

/// Whether `bytes` stand for a claim: the tag, then 64 more bytes.
pub open spec fn is_claim(bytes: Seq<u8>) -> bool {
    bytes.len() == 68 && bytes.take(4) == claim_tag()
}

impl CashNoteRedemption {
    /// The 68 bytes that stand for the claim: the tag, the derivation index,
    /// then the address of the parent spend.
    pub open spec fn bytes(self) -> Seq<u8> {
        claim_tag() + self.derivation_index@ + self.parent_spend@
    }

    /// The bytes that stand for the claim.
    pub fn to_bytes(&self) -> (r: Vec<u8>)
        ensures
            r@ == self.bytes(),
            is_claim(r@),
    {
        let mut r: Vec<u8> = Vec::new();
        r.push(67u8);
        r.push(78u8);
        r.push(82u8);
        r.push(1u8);
        assert(r@ =~= claim_tag());
        let mut i: usize = 0;
        while i < 32
            invariant
                i <= 32,
                r@ == claim_tag() + self.derivation_index@.take(i as int),
            decreases 32 - i,
        {
            r.push(self.derivation_index[i]);
            assert(r@ =~= claim_tag() + self.derivation_index@.take(i + 1));
            i += 1;
        }
        let mut j: usize = 0;
        while j < 32
            invariant
                j <= 32,
                r@ == claim_tag() + self.derivation_index@ + self.parent_spend@.take(j as int),
            decreases 32 - j,
        {
            r.push(self.parent_spend[j]);
            assert(r@ =~= claim_tag() + self.derivation_index@ + self.parent_spend@.take(j + 1));
            j += 1;
        }
        assert(r@ =~= self.bytes());
        assert(r@.take(4) =~= claim_tag());
        r
    }

    /// The claim that `bytes` stand for; `None` where they stand for none.
    pub fn from_bytes(bytes: &Vec<u8>) -> (r: Option<CashNoteRedemption>)
        ensures
            match r {
                Some(claim) => is_claim(bytes@) && claim.bytes() == bytes@,
                None => !is_claim(bytes@),
            },
    {
        if bytes.len() != 68 {
            return None;
        }
        if bytes[0] != 67u8 || bytes[1] != 78u8 || bytes[2] != 82u8 || bytes[3] != 1u8 {
            assert(bytes@.take(4)[0] == bytes@[0]);
            assert(bytes@.take(4)[1] == bytes@[1]);
            assert(bytes@.take(4)[2] == bytes@[2]);
            assert(bytes@.take(4)[3] == bytes@[3]);
            return None;
        }
        let mut derivation_index = [0u8; 32];
        let mut parent_spend = [0u8; 32];
        let mut i: usize = 0;
        while i < 32
            invariant
                i <= 32,
                bytes@.len() == 68,
                forall|k: int| 0 <= k < i ==> derivation_index@[k] == bytes@[4 + k],
                forall|k: int| 0 <= k < i ==> parent_spend@[k] == bytes@[36 + k],
            decreases 32 - i,
        {
            derivation_index[i] = bytes[4 + i];
            parent_spend[i] = bytes[36 + i];
            i += 1;
        }
        let claim = CashNoteRedemption { derivation_index, parent_spend };
        assert(bytes@.take(4) =~= claim_tag());
        assert(claim.bytes() =~= bytes@);
        Some(claim)
    }
}

/// What decrypting the parts of a transfer gave, as mathematical sequences.
pub open spec fn plain_views(plain: Seq<Option<Vec<u8>>>) -> Seq<Option<Seq<u8>>> {
    plain.map_values(
        |part: Option<Vec<u8>>|
            match part {
                Some(bytes) => Some(bytes@),
                None => None,
            },
    )
}

/// What the key with the secret bytes `secret` gets out of each part of
/// `cyphers`.
pub open spec fn decrypted_parts(secret: Seq<u8>, cyphers: Seq<Vec<u8>>) -> Seq<Option<Seq<u8>>> {
    cyphers.map_values(|part: Vec<u8>| bls_decrypted(secret, part@))
}

/// The parts of `plain` that could be decrypted and stand for a claim, in
/// their order.
pub open spec fn readable_claims(plain: Seq<Option<Seq<u8>>>) -> Seq<Seq<u8>>
    decreases plain.len(),
{
    if plain.len() == 0 {
        Seq::empty()
    } else {
        match plain.last() {
            Some(bytes) => if is_claim(bytes) {
                readable_claims(plain.drop_last()).push(bytes)
            } else {
                readable_claims(plain.drop_last())
            },
            None => readable_claims(plain.drop_last()),
        }
    }
}

/// The bytes that stand for each claim of `claims`.
pub open spec fn claim_bytes(claims: Seq<CashNoteRedemption>) -> Seq<Seq<u8>> {
    claims.map_values(|claim: CashNoteRedemption| claim.bytes())
}

/// The claims among the decrypted parts of a transfer: every part that could
/// be decrypted and stands for a claim, in order. It is a failure if there is
/// none.
pub fn read_redemptions(plain: &Vec<Option<Vec<u8>>>) -> (r: Result<
    Vec<CashNoteRedemption>,
    Error,
>)
    ensures
        match r {
            Ok(claims) => claims@.len() > 0 && claim_bytes(claims@) == readable_claims(
                plain_views(plain@),
            ),
            Err(failure) => failure == Error::FailedToDecypherTransfer && readable_claims(
                plain_views(plain@),
            ).len() == 0,
        },
{
    let ghost parts = plain_views(plain@);
    let mut cashnote_redemptions: Vec<CashNoteRedemption> = Vec::new();
    assert(claim_bytes(cashnote_redemptions@) =~= Seq::empty());
    let mut i: usize = 0;
    while i < plain.len()
        invariant
            i <= plain.len(),
            parts == plain_views(plain@),
            claim_bytes(cashnote_redemptions@) == readable_claims(parts.take(i as int)),
        decreases plain.len() - i,
    {
        proof {
            let next = parts.take(i + 1);
            assert(next.drop_last() =~= parts.take(i as int));
            assert(next.last() == parts[i as int]);
        }
        if let Some(bytes) = &plain[i] {
            if let Some(claim) = CashNoteRedemption::from_bytes(bytes) {
                let ghost before = claim_bytes(cashnote_redemptions@);
                cashnote_redemptions.push(claim);
                assert(claim_bytes(cashnote_redemptions@) =~= before.push(claim.bytes()));
            }
        }
        i += 1;
    }
    assert(parts.take(parts.len() as int) =~= parts);
    if cashnote_redemptions.len() > 0 {
        Ok(cashnote_redemptions)
    } else {
        Err(Error::FailedToDecypherTransfer)
    }
}

} // verus!
