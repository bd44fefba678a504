//! The wallet directory as the wallet sees it: the main key, the file of the
//! saved ledger, the file of the saved unconfirmed spends, the cash notes on
//! record, and the cash notes that came in from elsewhere and wait to be
//! picked up.
//!
//! A `WalletDir` holds all of that in memory: the two files as their bytes,
//! the key and the cash notes as values. Reading it from a real directory and
//! writing it back is left to the caller.

use vstd::prelude::*;
use vstd::string::StringExecFns;
use crate::cash_note::{copy_items, note_views, CashNote, CashNoteView};
use crate::codec::counted_bytes;
use crate::entries::{
    distinct_keys, has_key, lemma_index_of_key, lemma_put, lemma_with_items_of_set, put, value_of,
    with_items,
};
use crate::error::Error;
use crate::keys::{KeyState, MainSecretKey, UniquePubkey};
use crate::ledger::{ledger_bytes, lemma_parse_ledger, read_ledger, KeyLessWallet, LedgerState};
use crate::pending::{lemma_parse_requests, parse_requests, PendingSpends};
use crate::transfer::SpendRequest;

verus! {

/// The name that `xor_name` gives to `content`: 32 bytes.
pub uninterp spec fn xor_name_of(content: Seq<u8>) -> Seq<u8>;

/// The bytes of `xor_name::XorName::from_content`, which is the SHA3-256
/// digest of `content`. The digest is not spelled out here: the contract
/// gives it the name `xor_name_of`.
#[verifier::external_body]
fn xor_name_from_content(content: &[u8]) -> (name: [u8; 32])
    ensures
        name@ == xor_name_of(content@),
{
    xor_name::XorName::from_content(content).0
}

/// The hexadecimal digit for `nibble`, in lower case.
pub open spec fn hex_digit(nibble: int) -> char {
    if nibble == 0 {
        '0'
    } else if nibble == 1 {
        '1'
    } else if nibble == 2 {
        '2'
    } else if nibble == 3 {
        '3'
    } else if nibble == 4 {
        '4'
    } else if nibble == 5 {
        '5'
    } else if nibble == 6 {
        '6'
    } else if nibble == 7 {
        '7'
    } else if nibble == 8 {
        '8'
    } else if nibble == 9 {
        '9'
    } else if nibble == 10 {
        'a'
    } else if nibble == 11 {
        'b'
    } else if nibble == 12 {
        'c'
    } else if nibble == 13 {
        'd'
    } else if nibble == 14 {
        'e'
    } else {
        'f'
    }
}

/// `bytes` in hexadecimal: two lower-case digits for each byte, the high
/// half first.
pub open spec fn hex_chars(bytes: Seq<u8>) -> Seq<char>
    decreases bytes.len(),
{
    if bytes.len() == 0 {
        Seq::empty()
    } else {
        hex_chars(bytes.drop_last()).push(hex_digit(bytes.last() as int / 16)).push(
            hex_digit(bytes.last() as int % 16),
        )
    }
}

/// The hexadecimal digit for `nibble` as a string of one character.
fn hex_digit_str(nibble: u8) -> (r: &'static str)
    requires
        nibble < 16,
    ensures
        r@ == seq![hex_digit(nibble as int)],
{
    proof {
        reveal_strlit("0");
        reveal_strlit("1");
        reveal_strlit("2");
        reveal_strlit("3");
        reveal_strlit("4");
        reveal_strlit("5");
        reveal_strlit("6");
        reveal_strlit("7");
        reveal_strlit("8");
        reveal_strlit("9");
        reveal_strlit("a");
        reveal_strlit("b");
        reveal_strlit("c");
        reveal_strlit("d");
        reveal_strlit("e");
        reveal_strlit("f");
    }
    let r = if nibble == 0 {
        "0"
    } else if nibble == 1 {
        "1"
    } else if nibble == 2 {
        "2"
    } else if nibble == 3 {
        "3"
    } else if nibble == 4 {
        "4"
    } else if nibble == 5 {
        "5"
    } else if nibble == 6 {
        "6"
    } else if nibble == 7 {
        "7"
    } else if nibble == 8 {
        "8"
    } else if nibble == 9 {
        "9"
    } else if nibble == 10 {
        "a"
    } else if nibble == 11 {
        "b"
    } else if nibble == 12 {
        "c"
    } else if nibble == 13 {
        "d"
    } else if nibble == 14 {
        "e"
    } else {
        "f"
    };
    assert(r@ =~= seq![hex_digit(nibble as int)]);
    r
}

/// The name of the file that holds the record of the cash note
/// `unique_pubkey`: the name that `xor_name` gives to the identity's bytes, in
/// hexadecimal, with the extension `.cash_note`.
pub fn cash_note_file_name(unique_pubkey: &UniquePubkey) -> (r: String)
    ensures
        r@ == hex_chars(xor_name_of(unique_pubkey.bytes@)) + ".cash_note"@,
{
    let name = xor_name_from_content(unique_pubkey.bytes.as_slice());
    let mut file_name = String::from_str("");
    proof {
        reveal_strlit("");
    }
    assert(file_name@ =~= Seq::<char>::empty());
    let mut i: usize = 0;
    while i < 32
        invariant
            i <= 32,
            file_name@ == hex_chars(name@.take(i as int)),
        decreases 32 - i,
    {
        let ghost before = file_name@;
        file_name.append(hex_digit_str(name[i] / 16));
        file_name.append(hex_digit_str(name[i] % 16));
        proof {
            let next = name@.take(i + 1);
            assert(next.drop_last() =~= name@.take(i as int));
            assert(next.last() == name@[i as int]);
            assert(file_name@ =~= before.push(hex_digit(name@[i as int] as int / 16)).push(
                hex_digit(name@[i as int] as int % 16),
            ));
        }
        i += 1;
    }
    assert(name@.take(32) =~= name@);
    file_name.append(".cash_note");
    file_name
}

/// The cash notes of `notes` as records: each under its identity.
pub open spec fn record_entries(notes: Seq<CashNote>) -> Seq<(UniquePubkey, CashNoteView)> {
    notes.map_values(|note: CashNote| (note@.id, note@))
}

/// The cash notes behind the references of `notes`, each as its mathematical
/// value.
pub open spec fn ref_note_views(notes: Seq<&CashNote>) -> Seq<CashNoteView> {
    notes.map_values(|note: &CashNote| note@)
}

/// `records` after each cash note of `notes` was put on record, first to last;
/// a cash note takes the place of the record with its identity, if there is one.
pub open spec fn store_notes(
    records: Seq<(UniquePubkey, CashNoteView)>,
    notes: Seq<CashNoteView>,
) -> Seq<(UniquePubkey, CashNoteView)>
    decreases notes.len(),
{
    if notes.len() == 0 {
        records
    } else {
        put(store_notes(records, notes.drop_last()), notes.last().id, notes.last())
    }
}

/// Whether each record of `records` stands under the identity of its cash note.
pub open spec fn keyed_by_id(records: Seq<(UniquePubkey, CashNoteView)>) -> bool {
    forall|i: int| 0 <= i < records.len() ==> (#[trigger] records[i]).0 == records[i].1.id
}

/// Putting cash notes on record keeps the records in order.
pub proof fn lemma_store_notes(records: Seq<(UniquePubkey, CashNoteView)>, notes: Seq<CashNoteView>)
    requires
        distinct_keys(records),
        keyed_by_id(records),
    ensures
        distinct_keys(store_notes(records, notes)),
        keyed_by_id(store_notes(records, notes)),
    decreases notes.len(),
{
    if notes.len() > 0 {
        let before = store_notes(records, notes.drop_last());
        lemma_store_notes(records, notes.drop_last());
        lemma_put(before, notes.last().id, notes.last());
    }
}

/// What a wallet directory holds, as mathematical values.
pub struct DirState {
    /// The main key on file, if a key is on file.
    pub main_key: Option<KeyState>,
    /// The bytes of the file of the saved ledger, if there is one.
    pub wallet: Option<Seq<u8>>,
    /// The bytes of the file of the saved unconfirmed spends, if there is one.
    pub unconfirmed_txs: Option<Seq<u8>>,
    /// The cash notes on record, each under its identity.
    pub created_cash_notes: Seq<(UniquePubkey, CashNoteView)>,
    /// The cash notes that came in from elsewhere; `None` while there is no
    /// place for them yet.
    pub received_cash_notes: Option<Seq<CashNoteView>>,
}

impl DirState {
    /// The directory that holds nothing.
    pub open spec fn empty() -> DirState {
        DirState {
            main_key: None,
            wallet: None,
            unconfirmed_txs: None,
            created_cash_notes: Seq::empty(),
            received_cash_notes: None,
        }
    }

    /// Whether the directory is in order: no identity has two records, and
    /// each record stands under the identity of its cash note.
    pub open spec fn wf(self) -> bool {
        &&& distinct_keys(self.created_cash_notes)
        &&& keyed_by_id(self.created_cash_notes)
    }

    /// Whether a cash note is on record under `id`.
    pub open spec fn has_cash_note(self, id: UniquePubkey) -> bool {
        has_key(self.created_cash_notes, id)
    }

    /// The cash note on record under `id`.
    pub open spec fn cash_note(self, id: UniquePubkey) -> Option<CashNoteView> {
        value_of(self.created_cash_notes, id)
    }

    /// The directory after `note` was put on record, in the place of the record
    /// with its identity, if there was one.
    pub open spec fn store_cash_note(self, note: CashNoteView) -> DirState {
        DirState { created_cash_notes: put(self.created_cash_notes, note.id, note), ..self }
    }

    /// The directory after `notes` were put on record, first to last.
    pub open spec fn store_cash_notes(self, notes: Seq<CashNoteView>) -> DirState {
        DirState { created_cash_notes: store_notes(self.created_cash_notes, notes), ..self }
    }

    /// The directory after `ledger` was saved.
    pub open spec fn store_wallet(self, ledger: LedgerState) -> DirState {
        DirState { wallet: Some(ledger_bytes(ledger)), ..self }
    }

    /// The directory after the unconfirmed spends `requests` were saved.
    pub open spec fn store_unconfirmed_txs(self, requests: Seq<SpendRequest>) -> DirState {
        DirState { unconfirmed_txs: Some(counted_bytes(requests)), ..self }
    }

    /// The saved ledger: none where no file is there, a failure where the
    /// file cannot be read or holds a ledger that is not in order.
    pub open spec fn saved_wallet(self) -> Result<Option<LedgerState>, Error> {
        match self.wallet {
            Some(bytes) => match read_ledger(bytes) {
                Ok(ledger) => Ok(Some(ledger)),
                Err(failure) => Err(failure),
            },
            None => Ok(None),
        }
    }

    /// The saved unconfirmed spends, each once, in their order: none where no
    /// file is there, a failure where the file cannot be read.
    pub open spec fn saved_unconfirmed_txs(self) -> Result<Option<Seq<SpendRequest>>, Error> {
        match self.unconfirmed_txs {
            Some(bytes) => match parse_requests(bytes) {
                Some(requests) => Ok(Some(with_items(Seq::empty(), requests))),
                None => Err(Error::MalformedUnconfirmedTxs),
            },
            None => Ok(None),
        }
    }

    /// The cash notes on record under `ids`, in the order of `ids`; an identity
    /// without a record adds nothing.
    pub open spec fn notes_on_record(self, ids: Seq<UniquePubkey>) -> Seq<CashNoteView>
        decreases ids.len(),
    {
        if ids.len() == 0 {
            Seq::empty()
        } else {
            match self.cash_note(ids.last()) {
                Some(note) => self.notes_on_record(ids.drop_last()).push(note),
                None => self.notes_on_record(ids.drop_last()),
            }
        }
    }

    /// The cash notes that wait to be picked up.
    pub open spec fn inbox(self) -> Seq<CashNoteView> {
        match self.received_cash_notes {
            Some(notes) => notes,
            None => Seq::empty(),
        }
    }
}

/// A wallet directory, held in memory.
pub struct WalletDir {
    main_key: Option<MainSecretKey>,
    wallet: Option<Vec<u8>>,
    unconfirmed_txs: Option<Vec<u8>>,
    created_cash_notes: Vec<CashNote>,
    received_cash_notes: Option<Vec<CashNote>>,
}

impl View for WalletDir {
    type V = DirState;

    closed spec fn view(&self) -> DirState {
        DirState {
            main_key: match self.main_key {
                Some(key) => Some(key@),
                None => None,
            },
            wallet: match self.wallet {
                Some(bytes) => Some(bytes@),
                None => None,
            },
            unconfirmed_txs: match self.unconfirmed_txs {
                Some(bytes) => Some(bytes@),
                None => None,
            },
            created_cash_notes: record_entries(self.created_cash_notes@),
            received_cash_notes: match self.received_cash_notes {
                Some(notes) => Some(note_views(notes@)),
                None => None,
            },
        }
    }
}

/// A copy of `notes`, note for note.
pub fn copy_notes(notes: &Vec<CashNote>) -> (r: Vec<CashNote>)
    ensures
        note_views(r@) == note_views(notes@),
        record_entries(r@) == record_entries(notes@),
{
    let mut r: Vec<CashNote> = Vec::new();
    let mut i: usize = 0;
    while i < notes.len()
        invariant
            i <= notes.len(),
            r.len() == i,
            forall|j: int| 0 <= j < i ==> (#[trigger] r@[j])@ == notes@[j]@,
        decreases notes.len() - i,
    {
        r.push(notes[i].clone());
        i += 1;
    }
    assert(note_views(r@) =~= note_views(notes@));
    assert(record_entries(r@) =~= record_entries(notes@));
    r
}

impl WalletDir {
    /// Whether the directory is in order.
    pub open spec fn wf(&self) -> bool {
        self@.wf()
    }

    /// The directory that holds nothing.
    pub fn new() -> (r: WalletDir)
        ensures
            r@ == DirState::empty(),
            r.wf(),
    {
        let r = WalletDir {
            main_key: None,
            wallet: None,
            unconfirmed_txs: None,
            created_cash_notes: Vec::new(),
            received_cash_notes: None,
        };
        assert(r@.created_cash_notes =~= Seq::empty());
        r
    }

    /// The main key on file.
    pub fn get_main_key(&self) -> (r: Option<MainSecretKey>)
        ensures
            match r {
                Some(key) => self@.main_key == Some(key@),
                None => self@.main_key is None,
            },
    {
        match &self.main_key {
            Some(key) => Some(key.clone()),
            None => None,
        }
    }

    /// Puts `key` on file as the main key.
    pub fn store_new_keypair(&mut self, key: &MainSecretKey)
        ensures
            final(self)@ == (DirState { main_key: Some(key@), ..old(self)@ }),
    {
        self.main_key = Some(key.clone());
    }

    /// The saved ledger: none where no file is there, a failure where the
    /// file cannot be read or holds a ledger that is not in order.
    pub fn get_wallet(&self) -> (r: Result<Option<KeyLessWallet>, Error>)
        ensures
            match r {
                Ok(Some(wallet)) => wallet.wf() && self@.saved_wallet() == Ok::<
                    Option<LedgerState>,
                    Error,
                >(Some(wallet@)),
                Ok(None) => self@.saved_wallet() == Ok::<Option<LedgerState>, Error>(None),
                Err(failure) => self@.saved_wallet() == Err::<Option<LedgerState>, Error>(
                    failure,
                ),
            },
    {
        match &self.wallet {
            Some(bytes) => match KeyLessWallet::from_bytes(bytes.as_slice()) {
                Ok(wallet) => Ok(Some(wallet)),
                Err(failure) => Err(failure),
            },
            None => Ok(None),
        }
    }

    /// Saves `wallet`, in the place of the ledger saved before. What is saved
    /// reads back as that ledger.
    pub fn store_wallet(&mut self, wallet: &KeyLessWallet)
        requires
            wallet.wf(),
        ensures
            final(self)@ == old(self)@.store_wallet(wallet@),
            final(self)@.saved_wallet() == Ok::<Option<LedgerState>, Error>(Some(wallet@)),
    {
        self.wallet = Some(wallet.to_bytes());
        proof {
            lemma_parse_ledger(wallet@);
        }
    }

    /// The bytes of the file of the saved ledger.
    pub fn wallet_file(&self) -> (r: Option<&Vec<u8>>)
        ensures
            match r {
                Some(bytes) => self@.wallet == Some(bytes@),
                None => self@.wallet is None,
            },
    {
        match &self.wallet {
            Some(bytes) => Some(bytes),
            None => None,
        }
    }

    /// Puts `bytes` in the place of the file of the saved ledger.
    pub fn set_wallet_file(&mut self, bytes: Vec<u8>)
        ensures
            final(self)@ == (DirState { wallet: Some(bytes@), ..old(self)@ }),
    {
        self.wallet = Some(bytes);
    }

    /// The saved unconfirmed spends, each once, in their order: none where no
    /// file is there, a failure where the file cannot be read.
    pub fn get_unconfirmed_txs(&self) -> (r: Result<Option<PendingSpends>, Error>)
        ensures
            match r {
                Ok(Some(pending)) => pending.wf() && self@.saved_unconfirmed_txs() == Ok::<
                    Option<Seq<SpendRequest>>,
                    Error,
                >(Some(pending@)),
                Ok(None) => self@.saved_unconfirmed_txs() == Ok::<
                    Option<Seq<SpendRequest>>,
                    Error,
                >(None),
                Err(failure) => self@.saved_unconfirmed_txs() == Err::<
                    Option<Seq<SpendRequest>>,
                    Error,
                >(failure),
            },
    {
        match &self.unconfirmed_txs {
            Some(bytes) => match PendingSpends::from_bytes(bytes.as_slice()) {
                Ok(pending) => Ok(Some(pending)),
                Err(failure) => Err(failure),
            },
            None => Ok(None),
        }
    }

    /// Saves `unconfirmed_txs`, in the place of the spends saved before. What
    /// is saved reads back as those spends, in their order.
    pub fn store_unconfirmed_txs(&mut self, unconfirmed_txs: &PendingSpends)
        requires
            unconfirmed_txs.wf(),
        ensures
            final(self)@ == old(self)@.store_unconfirmed_txs(unconfirmed_txs@),
            final(self)@.saved_unconfirmed_txs() == Ok::<Option<Seq<SpendRequest>>, Error>(
                Some(unconfirmed_txs@),
            ),
    {
        self.unconfirmed_txs = Some(unconfirmed_txs.to_bytes());
        proof {
            lemma_parse_requests(unconfirmed_txs@);
            lemma_with_items_of_set(unconfirmed_txs@);
        }
    }

    /// The bytes of the file of the saved unconfirmed spends.
    pub fn unconfirmed_txs_file(&self) -> (r: Option<&Vec<u8>>)
        ensures
            match r {
                Some(bytes) => self@.unconfirmed_txs == Some(bytes@),
                None => self@.unconfirmed_txs is None,
            },
    {
        match &self.unconfirmed_txs {
            Some(bytes) => Some(bytes),
            None => None,
        }
    }

    /// Puts `bytes` in the place of the file of the saved unconfirmed spends.
    pub fn set_unconfirmed_txs_file(&mut self, bytes: Vec<u8>)
        ensures
            final(self)@ == (DirState { unconfirmed_txs: Some(bytes@), ..old(self)@ }),
    {
        self.unconfirmed_txs = Some(bytes);
    }

    /// The cash notes on record.
    pub fn created_cash_notes(&self) -> (r: &Vec<CashNote>)
        ensures
            record_entries(r@) == self@.created_cash_notes,
    {
        &self.created_cash_notes
    }

    /// The cash notes that wait to be picked up, if there is a place for them.
    pub fn received_cash_notes(&self) -> (r: Option<&Vec<CashNote>>)
        ensures
            match r {
                Some(notes) => self@.received_cash_notes == Some(note_views(notes@)),
                None => self@.received_cash_notes is None,
            },
    {
        match &self.received_cash_notes {
            Some(notes) => Some(notes),
            None => None,
        }
    }

    /// The position of the record under `id`.
    fn position(&self, id: &UniquePubkey) -> (r: Option<usize>)
        ensures
            match r {
                Some(i) => i < self.created_cash_notes.len() && self@.created_cash_notes[i as int].0
                    == *id,
                None => !self@.has_cash_note(*id),
            },
    {
        let mut i: usize = 0;
        while i < self.created_cash_notes.len()
            invariant
                i <= self.created_cash_notes.len(),
                self@.created_cash_notes.len() == self.created_cash_notes.len(),
                forall|j: int| 0 <= j < i ==> (#[trigger] self@.created_cash_notes[j]).0 != *id,
            decreases self.created_cash_notes.len() - i,
        {
            if self.created_cash_notes[i].id.same(id) {
                return Some(i);
            }
            i += 1;
        }
        None
    }

    /// Whether a cash note is on record under `unique_pubkey`.
    pub fn has_cash_note(&self, unique_pubkey: &UniquePubkey) -> (r: bool)
        ensures
            r == self@.has_cash_note(*unique_pubkey),
    {
        self.position(unique_pubkey).is_some()
    }

    /// The cash note on record under `unique_pubkey`.
    pub fn load_cash_note(&self, unique_pubkey: &UniquePubkey) -> (r: Option<CashNote>)
        requires
            self.wf(),
        ensures
            match r {
                Some(note) => self@.cash_note(*unique_pubkey) == Some(note@),
                None => self@.cash_note(*unique_pubkey) is None,
            },
    {
        match self.position(unique_pubkey) {
            Some(i) => {
                proof {
                    lemma_index_of_key(self@.created_cash_notes, i as int);
                }
                Some(self.created_cash_notes[i].clone())
            },
            None => None,
        }
    }

    /// Puts one cash note on record, in the place of the record with its
    /// identity, if there is one.
    pub fn store_created_cash_note(&mut self, cash_note: &CashNote)
        requires
            old(self).wf(),
        ensures
            final(self).wf(),
            final(self)@ == old(self)@.store_cash_note(cash_note@),
    {
        proof {
            lemma_put(self@.created_cash_notes, cash_note@.id, cash_note@);
        }
        match self.position(&cash_note.id) {
            Some(i) => {
                proof {
                    lemma_index_of_key(self@.created_cash_notes, i as int);
                }
                self.created_cash_notes.set(i, cash_note.clone());
                assert(self@.created_cash_notes =~= put(
                    old(self)@.created_cash_notes,
                    cash_note@.id,
                    cash_note@,
                ));
            },
            None => {
                self.created_cash_notes.push(cash_note.clone());
                assert(self@.created_cash_notes =~= put(
                    old(self)@.created_cash_notes,
                    cash_note@.id,
                    cash_note@,
                ));
            },
        }
    }

    /// Puts the cash notes on record, first to last.
    pub fn store_created_cash_notes(&mut self, created_cash_notes: Vec<&CashNote>)
        requires
            old(self).wf(),
        ensures
            final(self).wf(),
            final(self)@ == old(self)@.store_cash_notes(ref_note_views(created_cash_notes@)),
    {
        let ghost notes = ref_note_views(created_cash_notes@);
        let mut i: usize = 0;
        while i < created_cash_notes.len()
            invariant
                i <= created_cash_notes.len(),
                notes == ref_note_views(created_cash_notes@),
                self.wf(),
                self@ == old(self)@.store_cash_notes(notes.take(i as int)),
            decreases created_cash_notes.len() - i,
        {
            self.store_created_cash_note(created_cash_notes[i]);
            proof {
                let next = notes.take(i + 1);
                assert(next.drop_last() =~= notes.take(i as int));
                assert(next.last() == created_cash_notes@[i as int]@);
            }
            i += 1;
        }
        assert(notes.take(notes.len() as int) =~= notes);
    }

    /// The cash notes that wait to be picked up; none where there is no place
    /// for them yet.
    pub fn load_received_cash_notes(&self) -> (r: Vec<CashNote>)
        ensures
            note_views(r@) == self@.inbox(),
    {
        match &self.received_cash_notes {
            Some(notes) => copy_notes(notes),
            None => {
                let r: Vec<CashNote> = Vec::new();
                assert(note_views(r@) =~= Seq::empty());
                r
            },
        }
    }

    /// Makes the place for cash notes that come in, unless it is there.
    pub fn create_received_cash_notes_dir(&mut self)
        ensures
            final(self)@ == (DirState {
                received_cash_notes: Some(old(self)@.inbox()),
                ..old(self)@
            }),
    {
        if self.received_cash_notes.is_none() {
            let notes: Vec<CashNote> = Vec::new();
            assert(note_views(notes@) =~= Seq::empty());
            self.received_cash_notes = Some(notes);
        }
    }

    /// Puts `cash_notes` in the place of the cash notes that wait to be picked
    /// up, as they are found when the directory is looked at again.
    pub fn set_received_cash_notes(&mut self, cash_notes: Vec<CashNote>)
        ensures
            final(self)@ == (DirState {
                received_cash_notes: Some(note_views(cash_notes@)),
                ..old(self)@
            }),
    {
        self.received_cash_notes = Some(cash_notes);
    }

    /// Lays `cash_note` down among the cash notes that wait to be picked up,
    /// as whoever hands it over from elsewhere does.
    pub fn receive_cash_note(&mut self, cash_note: CashNote)
        ensures
            final(self)@ == (DirState {
                received_cash_notes: Some(old(self)@.inbox().push(cash_note@)),
                ..old(self)@
            }),
    {
        let mut notes: Vec<CashNote> = self.load_received_cash_notes();
        notes.push(cash_note);
        assert(note_views(notes@) =~= old(self)@.inbox().push(cash_note@));
        self.received_cash_notes = Some(notes);
    }
}

impl Clone for WalletDir {
    fn clone(&self) -> (r: WalletDir)
        ensures
            r@ == self@,
    {
        WalletDir {
            main_key: match &self.main_key {
                Some(key) => Some(key.clone()),
                None => None,
            },
            wallet: match &self.wallet {
                Some(bytes) => Some(copy_items(bytes)),
                None => None,
            },
            unconfirmed_txs: match &self.unconfirmed_txs {
                Some(bytes) => Some(copy_items(bytes)),
                None => None,
            },
            created_cash_notes: copy_notes(&self.created_cash_notes),
            received_cash_notes: match &self.received_cash_notes {
                Some(notes) => Some(copy_notes(notes)),
                None => None,
            },
        }
    }
}

} // verus!
