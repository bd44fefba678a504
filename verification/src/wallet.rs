//! The wallet: a main key, a ledger, the wallet directory, and the spends that
//! the network has not confirmed yet.

use vstd::prelude::*;
use crate::amount::Nano;
use crate::cash_note::{note_views, CashNote, CashNoteView, Input};
use crate::entries::{lemma_put, lemma_with_items, value_of, with_items};
use crate::error::Error;
use crate::keys::{
    bls_child_of, bls_decrypted, bls_public_key_of, bls_signature_of, random_derivation_index,
    DerivationIndex, DerivedSecretKey, KeyState, MainPubkey, MainSecretKey, Signature,
    UniquePubkey,
};
use crate::ledger::{
    lemma_accept_wf, lemma_parse_ledger, lemma_spend_wf, KeyLessWallet, LedgerState,
};
use crate::payments::{
    attribute_payments, attributed, payment_requests, ContentAddress, ContentPaymentsIdMap,
};
use crate::order::{ascending, in_ascending_order};
use crate::pending::{parse_requests, PendingSpends};
use crate::transfer::{
    claim_bytes, decrypted_parts, plain_views, read_redemptions, readable_claims,
    CashNoteRedemption, SpendRequest, Transfer, TransferOutputs, TransferOutputsView,
};
use crate::wallet_dir::{copy_notes, lemma_store_notes, ref_note_views, DirState, WalletDir};

verus! {

/// What became of one cash note that was handed in.
#[derive(Clone, Copy, Debug, PartialEq, Eq, Structural)]
pub enum DepositOutcome {
    /// The cash note is now available.
    Accepted,
    /// A cash note with this identity is on record already.
    AlreadyHeld,
    /// The cash note was spent by this wallet.
    AlreadySpent,
    /// The cash note is made out to another wallet.
    NotOwned,
}

/// What a wallet holds, as mathematical values.
pub struct WalletState {
    /// The address of the wallet.
    pub address: MainPubkey,
    /// The 32 bytes of the secret of the wallet's main key.
    pub secret: Seq<u8>,
    /// The ledger.
    pub ledger: LedgerState,
    /// The wallet directory.
    pub dir: DirState,
    /// The spends that wait for the network, in the order in which they were
    /// first added.
    pub unconfirmed_txs: Seq<SpendRequest>,
}

impl WalletState {
    /// Whether the wallet is in order: its ledger and its directory are, and
    /// no spend waits twice.
    pub open spec fn wf(self) -> bool {
        &&& self.ledger.wf()
        &&& self.dir.wf()
        &&& self.unconfirmed_txs.no_duplicates()
    }

    /// What becomes of the wallet, and what is reported, when one cash note is
    /// handed in. A cash note that is on record, that was spent, or that is
    /// made out to another wallet is passed over. Otherwise its amount is read
    /// and becomes available under its identity, the note goes on record, and
    /// the ledger is saved.
    pub open spec fn deposit_one(self, note: CashNoteView) -> (
        WalletState,
        Result<DepositOutcome, Error>,
    ) {
        if self.dir.has_cash_note(note.id) {
            (self, Ok(DepositOutcome::AlreadyHeld))
        } else if self.ledger.spent.contains(note.id) {
            (self, Ok(DepositOutcome::AlreadySpent))
        } else if !note.owned_by(self.address) {
            (self, Ok(DepositOutcome::NotOwned))
        } else {
            match note.amount() {
                None => (self, Err(Error::OutputNotFound)),
                Some(amount) => if self.ledger.balance_with(note.id, amount) > u64::MAX {
                    (self, Err(Error::BalanceOverflow))
                } else {
                    (
                        WalletState {
                            ledger: self.ledger.accept(note.id, amount),
                            dir: self.dir.store_cash_note(note).store_wallet(
                                self.ledger.accept(note.id, amount),
                            ),
                            ..self
                        },
                        Ok(DepositOutcome::Accepted),
                    )
                },
            }
        }
    }

    /// What becomes of the wallet, and what is reported, when `notes` are
    /// handed in, first to last. The first failure ends it, with the wallet as
    /// the cash notes before it left it.
    pub open spec fn deposit(self, notes: Seq<CashNoteView>) -> (WalletState, Result<(), Error>)
        decreases notes.len(),
    {
        if notes.len() == 0 {
            (self, Ok(()))
        } else {
            let (before, done) = self.deposit(notes.drop_last());
            match done {
                Err(_) => (before, done),
                Ok(_) => match before.deposit_one(notes.last()) {
                    (after, Ok(_)) => (after, Ok(())),
                    (after, Err(failure)) => (after, Err(failure)),
                },
            }
        }
    }

    /// What becomes of the wallet, and what is reported, when the outcome of a
    /// transfer is applied: the cash notes that the transfer spends leave the
    /// available ones and are listed as spent; the change, if there is any, is
    /// handed in; the cash notes made for the recipients are listed as made for
    /// others and go on record; the spends join those that wait for the
    /// network; and the ledger and the spends that wait are saved. If handing
    /// in the change fails, the rest is left undone.
    pub open spec fn update(self, transfer: TransferOutputsView) -> (
        WalletState,
        Result<(), Error>,
    ) {
        let spent = WalletState { ledger: self.ledger.spend(transfer.spent_ids()), ..self };
        let (changed, done) = match transfer.change_cash_note {
            Some(note) => spent.deposit(seq![note]),
            None => (spent, Ok(())),
        };
        match done {
            Err(_) => (changed, done),
            Ok(_) => {
                let ledger = changed.ledger.create_for_others(transfer.created_ids());
                let unconfirmed_txs = with_items(
                    changed.unconfirmed_txs,
                    transfer.all_spend_requests,
                );
                (
                    WalletState {
                        ledger,
                        dir: changed.dir.store_cash_notes(
                            transfer.created_cash_notes,
                        ).store_wallet(ledger).store_unconfirmed_txs(unconfirmed_txs),
                        unconfirmed_txs,
                        ..changed
                    },
                    Ok(()),
                )
            },
        }
    }

    /// The wallet that loading from the directory `dir` gives. The key on file
    /// is the wallet's key; where none is on file, the key `fresh` is, and
    /// goes on file. The saved spends are the ones that wait, each once. The
    /// saved ledger is the wallet's ledger; where none was saved, an empty one
    /// is saved, and the place for incoming cash notes is made. It is a
    /// failure if the saved spends or the saved ledger cannot be read, or if
    /// the saved ledger is not in order.
    pub open spec fn loaded(dir: DirState, fresh: KeyState) -> Result<WalletState, Error> {
        let key = match dir.main_key {
            Some(on_file) => on_file,
            None => fresh,
        };
        let keyed = DirState { main_key: Some(key), ..dir };
        match dir.saved_unconfirmed_txs() {
            Err(failure) => Err(failure),
            Ok(saved) => {
                let unconfirmed_txs = match saved {
                    Some(requests) => requests,
                    None => Seq::empty(),
                };
                match dir.saved_wallet() {
                    Err(failure) => Err(failure),
                    Ok(Some(ledger)) => Ok(
                        WalletState {
                            address: key.address,
                            secret: key.secret,
                            ledger,
                            dir: keyed,
                            unconfirmed_txs,
                        },
                    ),
                    Ok(None) => Ok(
                        WalletState {
                            address: key.address,
                            secret: key.secret,
                            ledger: LedgerState::empty(),
                            dir: DirState {
                                received_cash_notes: Some(dir.inbox()),
                                ..keyed.store_wallet(LedgerState::empty())
                            },
                            unconfirmed_txs,
                        },
                    ),
                }
            },
        }
    }

    /// The main key of the wallet.
    pub open spec fn key(self) -> KeyState {
        KeyState { address: self.address, secret: self.secret }
    }

    /// Whether the wallet stands on its directory: its key is the key on
    /// file, and the files of the saved ledger and of the saved spends, where
    /// they are there, can be read.
    pub open spec fn rooted(self) -> bool {
        &&& self.dir.main_key == Some(self.key())
        &&& self.dir.saved_wallet() is Ok
        &&& self.dir.saved_unconfirmed_txs() is Ok
    }

    /// Whether the ledger is saved: what is on file reads back as the ledger
    /// of the wallet.
    pub open spec fn ledger_saved(self) -> bool {
        self.dir.saved_wallet() == Ok::<Option<LedgerState>, Error>(Some(self.ledger))
    }

    /// Whether the spends that wait are saved: what is on file reads back as
    /// them, in their order.
    pub open spec fn spends_saved(self) -> bool {
        self.dir.saved_unconfirmed_txs() == Ok::<Option<Seq<SpendRequest>>, Error>(
            Some(self.unconfirmed_txs),
        )
    }

    /// Whether the directory `dir` holds nothing of a wallet: neither a key
    /// nor a saved ledger.
    pub open spec fn nothing_found(dir: DirState) -> bool {
        dir.main_key is None && dir.wallet is None
    }

    /// Of the cash notes listed in `entries`, those that are on record and
    /// made out to this wallet, in the order of `entries`.
    pub open spec fn spendable_among(self, entries: Seq<(UniquePubkey, Nano)>) -> Seq<
        CashNoteView,
    >
        decreases entries.len(),
    {
        if entries.len() == 0 {
            Seq::empty()
        } else {
            let before = self.spendable_among(entries.drop_last());
            match self.dir.cash_note(entries.last().0) {
                Some(note) => if note.owned_by(self.address) {
                    before.push(note)
                } else {
                    before
                },
                None => before,
            }
        }
    }

    /// The available cash notes that the wallet can spend right away: those
    /// that are on record and made out to this wallet, in the ascending order
    /// of their identities.
    pub open spec fn spendable(self) -> Seq<CashNoteView> {
        self.spendable_among(ascending(self.ledger.available))
    }

    /// The cash notes on record that paid for the content at `name`.
    pub open spec fn payment_cash_notes(self, name: ContentAddress) -> Seq<CashNoteView> {
        match value_of(self.ledger.payments, name) {
            Some(ids) => self.dir.notes_on_record(ids),
            None => Seq::empty(),
        }
    }
}

impl WalletState {
    /// What becomes of the wallet, and what is handed back, once the transfer
    /// has been built with the outcome `built`: a failure to build is handed
    /// on and changes nothing; an outcome is applied, and the cash notes made
    /// for the recipients are handed back.
    pub open spec fn sent(self, built: Result<TransferOutputsView, Error>) -> (
        WalletState,
        Result<Seq<CashNoteView>, Error>,
    ) {
        match built {
            Err(failure) => (self, Err(failure)),
            Ok(transfer) => match self.update(transfer) {
                (after, Ok(_)) => (after, Ok(transfer.created_cash_notes)),
                (after, Err(failure)) => (after, Err(failure)),
            },
        }
    }

    /// What becomes of the wallet, and what is reported, once the transfer that
    /// pays `requests` has been built with the outcome `built`: a failure to
    /// build is handed on and changes nothing; an outcome is applied, the cash
    /// notes it made are told apart by the content that each pays for and put
    /// into the ledger's index, and the ledger is saved.
    pub open spec fn paid(
        self,
        requests: Seq<(ContentAddress, Seq<(MainPubkey, Nano)>)>,
        built: Result<TransferOutputsView, Error>,
    ) -> (WalletState, Result<(), Error>) {
        match built {
            Err(failure) => (self, Err(failure)),
            Ok(transfer) => match self.update(transfer) {
                (after, Err(failure)) => (after, Err(failure)),
                (after, Ok(_)) => {
                    let ledger = after.ledger.record_payments(
                        attributed(requests, transfer.created_cash_notes),
                    );
                    (
                        WalletState { ledger, dir: after.dir.store_wallet(ledger), ..after },
                        Ok(()),
                    )
                },
            },
        }
    }
}

/// The outputs of `outputs` without their derivation indices.
pub open spec fn recipients(outputs: Seq<(Nano, MainPubkey, DerivationIndex)>) -> Seq<
    (Nano, MainPubkey),
> {
    outputs.map_values(|output: (Nano, MainPubkey, DerivationIndex)| (output.0, output.1))
}

/// Every payee of `requests` with the amount due, content address after
/// content address, as the outputs of one transfer.
pub open spec fn all_payees(requests: Seq<(ContentAddress, Seq<(MainPubkey, Nano)>)>) -> Seq<
    (Nano, MainPubkey),
>
    decreases requests.len(),
{
    if requests.len() == 0 {
        Seq::empty()
    } else {
        all_payees(requests.drop_last()) + requests.last().1.map_values(
            |payee: (MainPubkey, Nano)| (payee.1, payee.0),
        )
    }
}

/// Whether `reason` is the reason to attach to a transfer for which
/// `reason_hash` was given: the given one, or all zero where none was given.
pub open spec fn reason_for(
    reason_hash: Option<crate::cash_note::Hash>,
    reason: crate::cash_note::Hash,
) -> bool {
    match reason_hash {
        Some(given) => reason == given,
        None => reason.is_zero(),
    }
}

/// The outcome of building a transfer, as mathematical values.
pub open spec fn built_view(built: Result<TransferOutputs, Error>) -> Result<
    TransferOutputsView,
    Error,
> {
    match built {
        Ok(transfer) => Ok(transfer@),
        Err(failure) => Err(failure),
    }
}

/// What a send hands back, as mathematical values.
pub open spec fn created_view(created: Result<Vec<CashNote>, Error>) -> Result<
    Seq<CashNoteView>,
    Error,
> {
    match created {
        Ok(notes) => Ok(note_views(notes@)),
        Err(failure) => Err(failure),
    }
}

/// The cash notes of `pairs`, each as its mathematical value.
pub open spec fn paired_notes(pairs: Seq<(CashNote, DerivedSecretKey)>) -> Seq<CashNoteView> {
    pairs.map_values(|pair: (CashNote, DerivedSecretKey)| pair.0@)
}

/// Whether each cash note of `pairs` comes with the key that the main key at
/// `address`, with the secret bytes `secret`, gives for the note's own
/// derivation index: the child of the main key for that index.
pub open spec fn keys_fit(
    pairs: Seq<(CashNote, DerivedSecretKey)>,
    address: MainPubkey,
    secret: Seq<u8>,
) -> bool {
    forall|i: int|
        0 <= i < pairs.len() ==> (#[trigger] pairs[i]).1.main_pubkey() == address
            && pairs[i].1.derivation_index() == pairs[i].0@.derivation_index
            && pairs[i].1.secret_bytes() == bls_child_of(secret, pairs[i].0@.derivation_index@)
}

/// Handing in one cash note keeps a wallet in order.
pub proof fn lemma_deposit_one_wf(state: WalletState, note: CashNoteView)
    requires
        state.wf(),
    ensures
        state.deposit_one(note).0.wf(),
{
    if !state.dir.has_cash_note(note.id) && !state.ledger.spent.contains(note.id) && note.owned_by(
        state.address,
    ) {
        if let Some(amount) = note.amount() {
            if state.ledger.balance_with(note.id, amount) <= u64::MAX {
                lemma_accept_wf(state.ledger, note.id, amount);
                lemma_put(state.dir.created_cash_notes, note.id, note);
            }
        }
    }
}

/// Once handing in has failed, the cash notes that follow change nothing.
pub proof fn lemma_deposit_stops(state: WalletState, notes: Seq<CashNoteView>, n: int)
    requires
        0 <= n <= notes.len(),
        state.deposit(notes.take(n)).1 is Err,
    ensures
        state.deposit(notes) == state.deposit(notes.take(n)),
    decreases notes.len() - n,
{
    if n < notes.len() {
        assert(notes.take(n + 1).drop_last() =~= notes.take(n));
        lemma_deposit_stops(state, notes, n + 1);
    } else {
        assert(notes.take(n) =~= notes);
    }
}

/// Handing in cash notes keeps a wallet in order.
pub proof fn lemma_deposit_wf(state: WalletState, notes: Seq<CashNoteView>)
    requires
        state.wf(),
    ensures
        state.deposit(notes).0.wf(),
    decreases notes.len(),
{
    if notes.len() > 0 {
        lemma_deposit_wf(state, notes.drop_last());
        lemma_deposit_one_wf(state.deposit(notes.drop_last()).0, notes.last());
    }
}

/// Applying the outcome of a transfer keeps a wallet in order.
pub proof fn lemma_update_wf(state: WalletState, transfer: TransferOutputsView)
    requires
        state.wf(),
    ensures
        state.update(transfer).0.wf(),
{
    lemma_spend_wf(state.ledger, transfer.spent_ids());
    let spent = WalletState { ledger: state.ledger.spend(transfer.spent_ids()), ..state };
    let changed = match transfer.change_cash_note {
        Some(note) => spent.deposit(seq![note]).0,
        None => spent,
    };
    if let Some(note) = transfer.change_cash_note {
        lemma_deposit_wf(spent, seq![note]);
    }
    lemma_with_items(changed.ledger.created_for_others, transfer.created_ids());
    lemma_store_notes(changed.dir.created_cash_notes, transfer.created_cash_notes);
    lemma_with_items(changed.unconfirmed_txs, transfer.all_spend_requests);
}

/// The wallet that loading gives is in order.
pub proof fn lemma_loaded_wf(dir: DirState, fresh: KeyState)
    requires
        dir.wf(),
    ensures
        WalletState::loaded(dir, fresh) matches Ok(wallet) ==> wallet.wf() && wallet.rooted(),
{
    if let Some(bytes) = dir.unconfirmed_txs {
        if let Some(requests) = parse_requests(bytes) {
            lemma_with_items(Seq::<SpendRequest>::empty(), requests);
        }
    }
    lemma_parse_ledger(LedgerState::empty());
}

/// The key, the ledger and the unconfirmed spends that loading from
/// `wallet_dir` gives; what was not there before is put there. `main_key` is
/// the key to put on file where none is on file; where it is `None` too, a
/// key is drawn at random.
pub fn load_from_path(wallet_dir: &mut WalletDir, main_key: Option<MainSecretKey>) -> (r: Result<
    (MainSecretKey, KeyLessWallet, PendingSpends),
    Error,
>)
    requires
        old(wallet_dir).wf(),
    ensures
        final(wallet_dir).wf(),
        final(wallet_dir)@.main_key is Some,
        old(wallet_dir)@.main_key is Some ==> final(wallet_dir)@.main_key == old(
            wallet_dir,
        )@.main_key,
        old(wallet_dir)@.main_key is None ==> (main_key matches Some(given)
            ==> final(wallet_dir)@.main_key == Some(given@)),
        match r {
            Ok((key, wallet, unconfirmed_txs)) => {
                &&& final(wallet_dir)@.main_key == Some(key@)
                &&& WalletState::loaded(old(wallet_dir)@, key@) == Ok::<WalletState, Error>(
                    WalletState {
                        address: key.main_pubkey(),
                        secret: key.secret_bytes(),
                        ledger: wallet@,
                        dir: final(wallet_dir)@,
                        unconfirmed_txs: unconfirmed_txs@,
                    },
                )
                &&& wallet.wf()
                &&& unconfirmed_txs.wf()
            },
            Err(failure) => {
                &&& forall|fresh: KeyState|
                    WalletState::loaded(old(wallet_dir)@, fresh) == Err::<WalletState, Error>(
                        failure,
                    )
                &&& final(wallet_dir)@ == (DirState {
                    main_key: final(wallet_dir)@.main_key,
                    ..old(wallet_dir)@
                })
            },
        },
{
    let key = match wallet_dir.get_main_key() {
        Some(key) => key,
        None => {
            let key = match main_key {
                Some(key) => key,
                None => MainSecretKey::random(),
            };
            wallet_dir.store_new_keypair(&key);
            key
        },
    };
    let unconfirmed_txs = match wallet_dir.get_unconfirmed_txs() {
        Ok(Some(unconfirmed_txs)) => unconfirmed_txs,
        Ok(None) => PendingSpends::new(),
        Err(failure) => {
            return Err(failure);
        },
    };
    let wallet = match wallet_dir.get_wallet() {
        Ok(Some(wallet)) => wallet,
        Ok(None) => {
            let wallet = KeyLessWallet::new();
            wallet_dir.store_wallet(&wallet);
            wallet_dir.create_received_cash_notes_dir();
            wallet
        },
        Err(failure) => {
            return Err(failure);
        },
    };
    Ok((key, wallet, unconfirmed_txs))
}

/// Gives each output of `to` a derivation index of its own, drawn at random.
/// `None` where the operating system gives no random bytes; that cannot
/// happen where there is no output, as then no bytes are asked for.
fn with_fresh_indices(to: &Vec<(Nano, MainPubkey)>) -> (r: Option<
    Vec<(Nano, MainPubkey, DerivationIndex)>,
>)
    ensures
        r matches Some(outputs) ==> recipients(outputs@) == to@,
        to@.len() == 0 ==> r is Some,
{
    let mut outputs: Vec<(Nano, MainPubkey, DerivationIndex)> = Vec::new();
    let mut i: usize = 0;
    while i < to.len()
        invariant
            i <= to.len(),
            outputs.len() == i,
            forall|j: int|
                0 <= j < i ==> (#[trigger] outputs@[j]).0 == to@[j].0 && outputs@[j].1 == to@[j].1,
        decreases to.len() - i,
    {
        match random_derivation_index() {
            Some(index) => {
                outputs.push((to[i].0, to[i].1, index));
            },
            None => {
                return None;
            },
        }
        i += 1;
    }
    assert(recipients(outputs@) =~= to@);
    Some(outputs)
}

/// Every payee of `all_data_payments` with the amount due, content address
/// after content address.
fn flatten_payees(all_data_payments: &Vec<(ContentAddress, Vec<(MainPubkey, Nano)>)>) -> (r: Vec<
    (Nano, MainPubkey),
>)
    ensures
        r@ == all_payees(payment_requests(all_data_payments@)),
{
    let ghost requests = payment_requests(all_data_payments@);
    let mut all_payees_only: Vec<(Nano, MainPubkey)> = Vec::new();
    let mut i: usize = 0;
    while i < all_data_payments.len()
        invariant
            i <= all_data_payments.len(),
            requests == payment_requests(all_data_payments@),
            all_payees_only@ == all_payees(requests.take(i as int)),
        decreases all_data_payments.len() - i,
    {
        let payees = &all_data_payments[i].1;
        let ghost before = all_payees_only@;
        let mut j: usize = 0;
        while j < payees.len()
            invariant
                j <= payees.len(),
                all_payees_only@ == before + payees@.take(j as int).map_values(
                    |payee: (MainPubkey, Nano)| (payee.1, payee.0),
                ),
            decreases payees.len() - j,
        {
            all_payees_only.push((payees[j].1, payees[j].0));
            assert(all_payees_only@ =~= before + payees@.take(j + 1).map_values(
                |payee: (MainPubkey, Nano)| (payee.1, payee.0),
            ));
            j += 1;
        }
        proof {
            assert(payees@.take(payees@.len() as int) =~= payees@);
            let next = requests.take(i + 1);
            assert(next.drop_last() =~= requests.take(i as int));
            assert(next.last() == (all_data_payments@[i as int].0, payees@));
        }
        i += 1;
    }
    assert(requests.take(requests.len() as int) =~= requests);
    all_payees_only
}

/// The identities of the cash notes that a transaction consumes.
fn input_ids(inputs: &Vec<Input>) -> (r: Vec<UniquePubkey>)
    ensures
        r@ == inputs@.map_values(|input: Input| input.unique_pubkey),
{
    let mut r: Vec<UniquePubkey> = Vec::new();
    let mut i: usize = 0;
    while i < inputs.len()
        invariant
            i <= inputs.len(),
            r.len() == i,
            forall|j: int| 0 <= j < i ==> r@[j] == inputs@[j].unique_pubkey,
        decreases inputs.len() - i,
    {
        r.push(inputs[i].unique_pubkey);
        i += 1;
    }
    assert(r@ =~= inputs@.map_values(|input: Input| input.unique_pubkey));
    r
}

/// The identities of `notes`.
fn note_ids(notes: &Vec<CashNote>) -> (r: Vec<UniquePubkey>)
    ensures
        r@ == note_views(notes@).map_values(|note: CashNoteView| note.id),
{
    let mut r: Vec<UniquePubkey> = Vec::new();
    let mut i: usize = 0;
    while i < notes.len()
        invariant
            i <= notes.len(),
            r.len() == i,
            forall|j: int| 0 <= j < i ==> r@[j] == notes@[j]@.id,
        decreases notes.len() - i,
    {
        r.push(notes[i].unique_pubkey());
        i += 1;
    }
    assert(r@ =~= note_views(notes@).map_values(|note: CashNoteView| note.id));
    r
}

/// References to `notes`, one for one.
fn note_refs(notes: &Vec<CashNote>) -> (r: Vec<&CashNote>)
    ensures
        ref_note_views(r@) == note_views(notes@),
{
    let mut r: Vec<&CashNote> = Vec::new();
    let mut i: usize = 0;
    while i < notes.len()
        invariant
            i <= notes.len(),
            r.len() == i,
            forall|j: int| 0 <= j < i ==> (#[trigger] r@[j])@ == notes@[j]@,
        decreases notes.len() - i,
    {
        r.push(&notes[i]);
        i += 1;
    }
    assert(ref_note_views(r@) =~= note_views(notes@));
    r
}

/// What the directory under a root holds; nothing where there is none yet.
pub open spec fn root_state(root_dir: Option<WalletDir>) -> DirState {
    match root_dir {
        Some(wallet_dir) => wallet_dir@,
        None => DirState::empty(),
    }
}

/// A wallet of cash notes.
pub struct LocalWallet {
    /// The main key, from which the key of every available cash note derives.
    key: MainSecretKey,
    /// The ledger.
    wallet: KeyLessWallet,
    /// The wallet directory.
    wallet_dir: WalletDir,
    /// The spends that the network has not confirmed yet, in the order in
    /// which they were added: a later one may rest on an earlier one, so they
    /// have to be handed over again in this order.
    unconfirmed_txs: PendingSpends,
}

impl View for LocalWallet {
    type V = WalletState;

    closed spec fn view(&self) -> WalletState {
        WalletState {
            address: self.key.main_pubkey(),
            secret: self.key.secret_bytes(),
            ledger: self.wallet@,
            dir: self.wallet_dir@,
            unconfirmed_txs: self.unconfirmed_txs@,
        }
    }
}

impl LocalWallet {
    /// Whether the wallet is in order and stands on its directory.
    pub open spec fn wf(&self) -> bool {
        self@.wf() && self@.rooted()
    }

    /// The numbers of items of a wallet in memory can be written in eight
    /// bytes each, so that what it saves can be read back.
    pub proof fn lemma_fits(&self)
        ensures
            self@.ledger.fits(),
            self@.unconfirmed_txs.len() <= u64::MAX,
    {
        self.wallet.lemma_fits();
        self.unconfirmed_txs.lemma_fits();
    }

    /// A new wallet with the key `key` over `wallet_dir`: the key goes on file
    /// in the place of the key that was there, and an empty ledger and no
    /// spends are saved. The cash notes on record and those that wait to be
    /// picked up stay.
    pub fn new(key: MainSecretKey, wallet_dir: WalletDir) -> (r: LocalWallet)
        requires
            wallet_dir.wf(),
        ensures
            r.wf(),
            r@ == (WalletState {
                address: key.main_pubkey(),
                secret: key.secret_bytes(),
                ledger: LedgerState::empty(),
                dir: (DirState { main_key: Some(key@), ..wallet_dir@ }).store_wallet(
                    LedgerState::empty(),
                ).store_unconfirmed_txs(Seq::empty()),
                unconfirmed_txs: Seq::empty(),
            }),
    {
        let mut wallet_dir = wallet_dir;
        let wallet = KeyLessWallet::new();
        let unconfirmed_txs = PendingSpends::new();
        wallet_dir.store_new_keypair(&key);
        wallet_dir.store_wallet(&wallet);
        wallet_dir.store_unconfirmed_txs(&unconfirmed_txs);
        LocalWallet { key, wallet, wallet_dir, unconfirmed_txs }
    }

    /// The ledger of the wallet.
    pub fn wallet(&self) -> (r: &KeyLessWallet)
        ensures
            r@ == self@.ledger,
    {
        &self.wallet
    }

    /// The wallet directory.
    pub fn wallet_dir(&self) -> (r: &WalletDir)
        ensures
            r@ == self@.dir,
    {
        &self.wallet_dir
    }

    /// The address of the wallet: the public key of its main key.
    pub fn address(&self) -> (r: MainPubkey)
        ensures
            r == self@.address,
            r.bytes@ == bls_public_key_of(self.secret_bytes()),
    {
        self.key.main_pubkey()
    }

    /// The balance: the sum of the amounts of the available cash notes.
    pub fn balance(&self) -> (r: Nano)
        requires
            self.wf(),
        ensures
            r.value == self@.ledger.balance(),
    {
        self.wallet.balance()
    }

    /// Saves the ledger to the wallet directory.
    pub fn store(&mut self) -> (r: Result<(), Error>)
        requires
            old(self).wf(),
        ensures
            final(self).wf(),
            r is Ok,
            final(self)@ == (WalletState {
                dir: old(self)@.dir.store_wallet(old(self)@.ledger),
                ..old(self)@
            }),
            final(self)@.ledger_saved(),
    {
        self.wallet_dir.store_wallet(&self.wallet);
        Ok(())
    }

    /// Puts the cash note on record in the wallet directory, from where it can
    /// be handed to its recipient over any channel.
    pub fn store_cash_note(&mut self, cash_note: &CashNote) -> (r: Result<(), Error>)
        requires
            old(self).wf(),
        ensures
            final(self).wf(),
            r is Ok,
            final(self)@ == (WalletState {
                dir: old(self)@.dir.store_cash_note(cash_note@),
                ..old(self)@
            }),
    {
        self.wallet_dir.store_created_cash_note(cash_note);
        Ok(())
    }

    /// Puts the cash notes on record in the wallet directory, first to last.
    pub fn store_cash_notes(&mut self, cash_note: Vec<&CashNote>) -> (r: Result<(), Error>)
        requires
            old(self).wf(),
        ensures
            final(self).wf(),
            r is Ok,
            final(self)@ == (WalletState {
                dir: old(self)@.dir.store_cash_notes(ref_note_views(cash_note@)),
                ..old(self)@
            }),
    {
        self.wallet_dir.store_created_cash_notes(cash_note);
        Ok(())
    }

    /// The cash note on record under `unique_pubkey`.
    pub fn get_cash_note(&mut self, unique_pubkey: &UniquePubkey) -> (r: Option<CashNote>)
        requires
            old(self).wf(),
        ensures
            final(self)@ == old(self)@,
            match r {
                Some(note) => old(self)@.dir.cash_note(*unique_pubkey) == Some(note@),
                None => old(self)@.dir.cash_note(*unique_pubkey) is None,
            },
    {
        self.wallet_dir.load_cash_note(unique_pubkey)
    }

    /// Saves the unconfirmed spends to the wallet directory.
    pub fn store_unconfirmed_txs(&mut self) -> (r: Result<(), Error>)
        requires
            old(self).wf(),
        ensures
            final(self).wf(),
            r is Ok,
            final(self)@ == (WalletState {
                dir: old(self)@.dir.store_unconfirmed_txs(old(self)@.unconfirmed_txs),
                ..old(self)@
            }),
            final(self)@.spends_saved(),
    {
        self.wallet_dir.store_unconfirmed_txs(&self.unconfirmed_txs);
        Ok(())
    }

    /// Whether any spend waits for the network.
    pub fn unconfirmed_txs_exist(&self) -> (r: bool)
        ensures
            r == (self@.unconfirmed_txs.len() > 0),
    {
        !self.unconfirmed_txs.is_empty()
    }

    /// The spends that wait for the network, in the order in which they were
    /// added.
    pub fn unconfirmed_txs(&self) -> (r: &Vec<SpendRequest>)
        ensures
            r@ == self@.unconfirmed_txs,
    {
        self.unconfirmed_txs.snapshot()
    }

    /// Forgets the spends that wait for the network, and saves that none
    /// waits.
    pub fn clear_unconfirmed_txs(&mut self)
        requires
            old(self).wf(),
        ensures
            final(self).wf(),
            final(self)@ == (WalletState {
                unconfirmed_txs: Seq::empty(),
                dir: old(self)@.dir.store_unconfirmed_txs(Seq::empty()),
                ..old(self)@
            }),
            final(self)@.spends_saved(),
    {
        self.unconfirmed_txs.clear();
        self.wallet_dir.store_unconfirmed_txs(&self.unconfirmed_txs);
    }

    /// Puts `cash_notes` in the place of the cash notes that wait in the wallet
    /// directory to be picked up, as they are found when the directory is
    /// looked at again. The ledger is left as it is until
    /// [`LocalWallet::try_load_deposits`] runs.
    pub fn set_received_cash_notes(&mut self, cash_notes: Vec<CashNote>)
        ensures
            final(self)@ == (WalletState {
                dir: DirState {
                    received_cash_notes: Some(note_views(cash_notes@)),
                    ..old(self)@.dir
                },
                ..old(self)@
            }),
    {
        self.wallet_dir.set_received_cash_notes(cash_notes);
    }

    /// Lays `cash_note` down in the wallet directory among the cash notes that
    /// wait to be picked up, as whoever hands it over from elsewhere does. The
    /// ledger is left as it is until [`LocalWallet::try_load_deposits`] runs.
    pub fn receive_cash_note(&mut self, cash_note: CashNote)
        ensures
            final(self)@ == (WalletState {
                dir: DirState {
                    received_cash_notes: Some(old(self)@.dir.inbox().push(cash_note@)),
                    ..old(self)@.dir
                },
                ..old(self)@
            }),
    {
        self.wallet_dir.receive_cash_note(cash_note);
    }

    /// Hands in the cash notes that came in from elsewhere and wait in the
    /// wallet directory.
    pub fn try_load_deposits(&mut self) -> (r: Result<(), Error>)
        requires
            old(self).wf(),
        ensures
            final(self).wf(),
            (final(self)@, r) == old(self)@.deposit(old(self)@.dir.inbox()),
    {
        let deposited = self.wallet_dir.load_received_cash_notes();
        self.deposit(&deposited)
    }

    /// Loads the wallet from the directory under `root_dir`, making the
    /// directory where there is none. Where no key is on file, `main_key`
    /// becomes the wallet's key and goes on file. It is a failure if what was
    /// saved cannot be read or is not in order.
    pub fn load_from_main_key(root_dir: Option<WalletDir>, main_key: MainSecretKey) -> (r: Result<
        LocalWallet,
        Error,
    >)
        requires
            root_dir matches Some(wallet_dir) ==> wallet_dir.wf(),
        ensures
            match r {
                Ok(wallet) => wallet.wf() && WalletState::loaded(root_state(root_dir), main_key@)
                    == Ok::<WalletState, Error>(wallet@),
                Err(failure) => WalletState::loaded(root_state(root_dir), main_key@) == Err::<
                    WalletState,
                    Error,
                >(failure),
            },
    {
        let mut wallet_dir = match root_dir {
            Some(wallet_dir) => wallet_dir,
            None => WalletDir::new(),
        };
        proof {
            lemma_loaded_wf(wallet_dir@, main_key@);
        }
        match load_from_path(&mut wallet_dir, Some(main_key)) {
            Ok((key, wallet, unconfirmed_txs)) => Ok(
                LocalWallet { key, wallet, wallet_dir, unconfirmed_txs },
            ),
            Err(failure) => Err(failure),
        }
    }

    /// Loads the wallet from the directory under `root_dir`, making the
    /// directory where there is none. Where no key is on file, a key drawn at
    /// random becomes the wallet's key and goes on file. It is a failure if
    /// what was saved cannot be read or is not in order.
    pub fn load_from(root_dir: Option<WalletDir>) -> (r: Result<LocalWallet, Error>)
        requires
            root_dir matches Some(wallet_dir) ==> wallet_dir.wf(),
        ensures
            match r {
                Ok(wallet) => wallet.wf() && WalletState::loaded(
                    root_state(root_dir),
                    wallet@.key(),
                ) == Ok::<WalletState, Error>(wallet@),
                Err(failure) => forall|fresh: KeyState|
                    WalletState::loaded(root_state(root_dir), fresh) == Err::<WalletState, Error>(
                        failure,
                    ),
            },
    {
        let mut wallet_dir = match root_dir {
            Some(wallet_dir) => wallet_dir,
            None => WalletDir::new(),
        };
        match load_from_path(&mut wallet_dir, None) {
            Ok((key, wallet, unconfirmed_txs)) => {
                proof {
                    lemma_loaded_wf(root_state(root_dir), key@);
                }
                Ok(LocalWallet { key, wallet, wallet_dir, unconfirmed_txs })
            },
            Err(failure) => Err(failure),
        }
    }

    /// Loads the wallet from the directory under `root_dir`, and makes none:
    /// it is a failure if there is no directory, or if the directory holds
    /// neither a key nor a saved ledger. Nothing is put there then.
    pub fn try_load_from(root_dir: Option<WalletDir>) -> (r: Result<LocalWallet, Error>)
        requires
            root_dir matches Some(wallet_dir) ==> wallet_dir.wf(),
        ensures
            match root_dir {
                None => r matches Err(failure) && failure == Error::WalletNotFound,
                Some(wallet_dir) => if WalletState::nothing_found(wallet_dir@) {
                    r matches Err(failure) && failure == Error::WalletNotFound
                } else {
                    match r {
                        Ok(wallet) => wallet.wf() && WalletState::loaded(
                            wallet_dir@,
                            wallet@.key(),
                        ) == Ok::<WalletState, Error>(wallet@),
                        Err(failure) => forall|fresh: KeyState|
                            WalletState::loaded(wallet_dir@, fresh) == Err::<WalletState, Error>(
                                failure,
                            ),
                    }
                },
            },
    {
        match root_dir {
            Some(wallet_dir) => {
                if wallet_dir.get_main_key().is_none() && wallet_dir.wallet_file().is_none() {
                    return Err(Error::WalletNotFound);
                }
                LocalWallet::load_from(Some(wallet_dir))
            },
            None => Err(Error::WalletNotFound),
        }
    }

    /// The claims that `transfer` carries to this wallet. Claims that anyone
    /// can read are handed back as they are. Encrypted parts are decrypted with
    /// the main key; those that the key opens and that stand for a claim are
    /// handed back in order, and it is a failure if there is none.
    pub fn unwrap_transfer(&self, transfer: Transfer) -> (r: Result<
        Vec<CashNoteRedemption>,
        Error,
    >)
        ensures
            match transfer {
                Transfer::NetworkRoyalties(claims) => r matches Ok(found) && found@ == claims@,
                Transfer::Encrypted(cyphers) => match r {
                    Ok(found) => found@.len() > 0 && claim_bytes(found@) == readable_claims(
                        decrypted_parts(self.secret_bytes(), cyphers@),
                    ),
                    Err(failure) => failure == Error::FailedToDecypherTransfer
                        && readable_claims(
                        decrypted_parts(self.secret_bytes(), cyphers@),
                    ).len() == 0,
                },
            },
    {
        match transfer {
            Transfer::NetworkRoyalties(claims) => Ok(claims),
            Transfer::Encrypted(cyphers) => {
                let mut plain: Vec<Option<Vec<u8>>> = Vec::new();
                let mut i: usize = 0;
                while i < cyphers.len()
                    invariant
                        i <= cyphers.len(),
                        plain.len() == i,
                        forall|j: int|
                            0 <= j < i ==> (#[trigger] plain_views(plain@)[j]) == bls_decrypted(
                                self.secret_bytes(),
                                cyphers@[j]@,
                            ),
                    decreases cyphers.len() - i,
                {
                    let ghost before = plain_views(plain@);
                    plain.push(self.key.decrypt(&cyphers[i]));
                    assert forall|j: int| 0 <= j < i + 1 implies (#[trigger] plain_views(
                        plain@,
                    )[j]) == bls_decrypted(self.secret_bytes(), cyphers@[j]@) by {
                        if j < i {
                            assert(plain_views(plain@)[j] == before[j]);
                        }
                    }
                    i += 1;
                }
                assert(plain_views(plain@) =~= decrypted_parts(
                    self.secret_bytes(),
                    cyphers@,
                ));
                read_redemptions(&plain)
            },
        }
    }

    /// The 32 bytes of the secret of the wallet's main key.
    pub open spec fn secret_bytes(&self) -> Seq<u8> {
        self@.secret
    }

    /// Signs `msg` with the main key.
    pub fn sign(&self, msg: &[u8]) -> (r: Signature)
        ensures
            r.bytes@ == bls_signature_of(self.secret_bytes(), msg@),
    {
        self.key.sign(msg)
    }

    /// The key that spends the cash note made out to this wallet with
    /// `derivation_index`.
    pub fn derive_key(&self, derivation_index: &DerivationIndex) -> (r: DerivedSecretKey)
        ensures
            r.main_pubkey() == self@.address,
            r.derivation_index() == *derivation_index,
            r.secret_bytes() == bls_child_of(self.secret_bytes(), derivation_index@),
    {
        self.key.derive_key(derivation_index)
    }

    /// The available cash notes that can be spent right away, each with the
    /// key that spends it: those that are on record and made out to this
    /// wallet, in the ascending order of their identities. The others are
    /// left out.
    pub fn available_cash_notes(&self) -> (r: Vec<(CashNote, DerivedSecretKey)>)
        requires
            self.wf(),
        ensures
            paired_notes(r@) == self@.spendable(),
            keys_fit(r@, self@.address, self.secret_bytes()),
    {
        let mut available_cash_notes: Vec<(CashNote, DerivedSecretKey)> = Vec::new();
        let entries = in_ascending_order(self.wallet.available_cash_notes());
        assert(paired_notes(available_cash_notes@) =~= Seq::empty());
        let mut i: usize = 0;
        while i < entries.len()
            invariant
                i <= entries.len(),
                self.wf(),
                entries@ == ascending(self@.ledger.available),
                paired_notes(available_cash_notes@) == self@.spendable_among(
                    entries@.take(i as int),
                ),
                keys_fit(available_cash_notes@, self@.address, self.secret_bytes()),
            decreases entries.len() - i,
        {
            proof {
                let next = entries@.take(i + 1);
                assert(next.drop_last() =~= entries@.take(i as int));
                assert(next.last() == entries@[i as int]);
            }
            if let Some(cash_note) = self.wallet_dir.load_cash_note(&entries[i].0) {
                if let Ok(derived_key) = cash_note.derived_key(&self.key) {
                    let ghost before = paired_notes(available_cash_notes@);
                    available_cash_notes.push((cash_note, derived_key));
                    assert(paired_notes(available_cash_notes@) =~= before.push(cash_note@));
                }
            }
            i += 1;
        }
        assert(entries@.take(entries@.len() as int) =~= entries@);
        available_cash_notes
    }

    /// Puts the payments of `proofs` into the ledger's index, so that they are
    /// at hand when the paid content is uploaded, and saves the ledger.
    pub fn add_content_payments_map(&mut self, proofs: ContentPaymentsIdMap)
        requires
            old(self).wf(),
        ensures
            final(self).wf(),
            final(self)@ == (WalletState {
                ledger: old(self)@.ledger.record_payments(proofs@),
                dir: old(self)@.dir.store_wallet(old(self)@.ledger.record_payments(proofs@)),
                ..old(self)@
            }),
            final(self)@.ledger_saved(),
    {
        self.wallet.add_payments(&proofs);
        self.wallet_dir.store_wallet(&self.wallet);
    }

    /// The identities of the cash notes that paid for the content at `name`,
    /// if the index knows of any.
    pub fn get_payment_unique_pubkeys(&self, name: &ContentAddress) -> (r: Option<
        &Vec<UniquePubkey>,
    >)
        requires
            self.wf(),
        ensures
            match r {
                Some(ids) => value_of(self@.ledger.payments, *name) == Some(ids@),
                None => value_of(self@.ledger.payments, *name) is None,
            },
    {
        self.wallet.payment_ids(name)
    }

    /// The cash notes that paid for the content at `name`, as far as they are
    /// on record.
    pub fn get_payment_cash_notes(&self, name: &ContentAddress) -> (r: Vec<CashNote>)
        requires
            self.wf(),
        ensures
            note_views(r@) == self@.payment_cash_notes(*name),
    {
        let mut cash_notes: Vec<CashNote> = Vec::new();
        assert(note_views(cash_notes@) =~= Seq::empty());
        if let Some(ids) = self.get_payment_unique_pubkeys(name) {
            let mut i: usize = 0;
            while i < ids.len()
                invariant
                    i <= ids.len(),
                    self.wf(),
                    note_views(cash_notes@) == self@.dir.notes_on_record(ids@.take(i as int)),
                decreases ids.len() - i,
            {
                proof {
                    let next = ids@.take(i + 1);
                    assert(next.drop_last() =~= ids@.take(i as int));
                    assert(next.last() == ids@[i as int]);
                }
                if let Some(cash_note) = self.wallet_dir.load_cash_note(&ids[i]) {
                    let ghost before = note_views(cash_notes@);
                    cash_notes.push(cash_note);
                    assert(note_views(cash_notes@) =~= before.push(cash_note@));
                }
                i += 1;
            }
            assert(ids@.take(ids@.len() as int) =~= ids@);
        }
        cash_notes
    }

    /// Makes a transfer to the recipients of `to` and hands back the cash notes
    /// made for them. Each output gets a derivation index of its own, drawn at
    /// random. `create_offline_transfer` builds the transfer: it is given the
    /// cash notes that can be spent right away with their keys, the outputs,
    /// the wallet's own address for the change, and the reason (all zero where
    /// none was given). Its failure is handed on; its outcome is applied to the
    /// wallet.
    pub fn local_send<F>(
        &mut self,
        to: Vec<(Nano, MainPubkey)>,
        reason_hash: Option<crate::cash_note::Hash>,
        create_offline_transfer: F,
    ) -> (r: Result<Vec<CashNote>, Error>) where
        F: FnOnce(
            Vec<(CashNote, DerivedSecretKey)>,
            Vec<(Nano, MainPubkey, DerivationIndex)>,
            MainPubkey,
            crate::cash_note::Hash,
        ) -> Result<TransferOutputs, Error>,

        requires
            old(self).wf(),
            forall|
                inputs: Vec<(CashNote, DerivedSecretKey)>,
                outputs: Vec<(Nano, MainPubkey, DerivationIndex)>,
                reason: crate::cash_note::Hash,
            |
                paired_notes(inputs@) == old(self)@.spendable() && keys_fit(
                    inputs@,
                    old(self)@.address,
                    old(self).secret_bytes(),
                ) && recipients(outputs@) == to@ && reason_for(reason_hash, reason)
                    ==> call_requires(
                    create_offline_transfer,
                    (inputs, outputs, old(self)@.address, reason),
                ),
        ensures
            final(self).wf(),
            r is Ok ==> final(self)@.ledger_saved() && final(self)@.spends_saved(),
            (to@.len() > 0 && r == Err::<Vec<CashNote>, Error>(Error::RandomnessUnavailable)
                && final(self)@ == old(self)@) || exists|
                inputs: Vec<(CashNote, DerivedSecretKey)>,
                outputs: Vec<(Nano, MainPubkey, DerivationIndex)>,
                reason: crate::cash_note::Hash,
                built: Result<TransferOutputs, Error>,
            |
                #![trigger call_ensures(
                    create_offline_transfer,
                    (inputs, outputs, old(self)@.address, reason),
                    built,
                )]
                {
                    &&& paired_notes(inputs@) == old(self)@.spendable()
                    &&& keys_fit(inputs@, old(self)@.address, old(self).secret_bytes())
                    &&& recipients(outputs@) == to@
                    &&& reason_for(reason_hash, reason)
                    &&& call_ensures(
                        create_offline_transfer,
                        (inputs, outputs, old(self)@.address, reason),
                        built,
                    )
                    &&& (final(self)@, created_view(r)) == old(self)@.sent(built_view(built))
                },
    {
        let to_unique_keys = match with_fresh_indices(&to) {
            Some(outputs) => outputs,
            None => {
                return Err(Error::RandomnessUnavailable);
            },
        };
        let available_cash_notes = self.available_cash_notes();
        let reason_hash = match reason_hash {
            Some(given) => given,
            None => Default::default(),
        };
        let ghost inputs = available_cash_notes;
        let ghost outputs = to_unique_keys;
        let built = create_offline_transfer(
            available_cash_notes,
            to_unique_keys,
            self.address(),
            reason_hash,
        );
        let ghost outcome = built;
        assert(call_ensures(
            create_offline_transfer,
            (inputs, outputs, old(self)@.address, reason_hash),
            outcome,
        ));
        self.apply_send(built)
    }

    /// Finishes a send for which the transfer was built with the outcome
    /// `built`: a failure to build is handed on and changes nothing; an outcome
    /// is applied to the wallet, and the cash notes made for the recipients
    /// are handed back.
    pub fn apply_send(&mut self, built: Result<TransferOutputs, Error>) -> (r: Result<
        Vec<CashNote>,
        Error,
    >)
        requires
            old(self).wf(),
        ensures
            final(self).wf(),
            (final(self)@, created_view(r)) == old(self)@.sent(built_view(built)),
            r is Ok ==> final(self)@.ledger_saved() && final(self)@.spends_saved(),
    {
        let transfer = match built {
            Ok(transfer) => transfer,
            Err(failure) => {
                return Err(failure);
            },
        };
        let created_cash_notes = copy_notes(&transfer.created_cash_notes);
        match self.update_local_wallet(transfer) {
            Ok(_) => Ok(created_cash_notes),
            Err(failure) => Err(failure),
        }
    }

    /// Pays for the storage of content: one transfer that pays every payee of
    /// every content address of `all_data_payments`. The cash notes that the
    /// transfer makes are told apart by the content that each pays for, that
    /// index goes into the ledger, and the ledger is saved.
    /// `create_offline_transfer` builds the transfer, as in
    /// [`LocalWallet::local_send`].
    pub fn local_send_storage_payment<F>(
        &mut self,
        all_data_payments: Vec<(ContentAddress, Vec<(MainPubkey, Nano)>)>,
        reason_hash: Option<crate::cash_note::Hash>,
        create_offline_transfer: F,
    ) -> (r: Result<(), Error>) where
        F: FnOnce(
            Vec<(CashNote, DerivedSecretKey)>,
            Vec<(Nano, MainPubkey, DerivationIndex)>,
            MainPubkey,
            crate::cash_note::Hash,
        ) -> Result<TransferOutputs, Error>,

        requires
            old(self).wf(),
            forall|
                inputs: Vec<(CashNote, DerivedSecretKey)>,
                outputs: Vec<(Nano, MainPubkey, DerivationIndex)>,
                reason: crate::cash_note::Hash,
            |
                paired_notes(inputs@) == old(self)@.spendable() && keys_fit(
                    inputs@,
                    old(self)@.address,
                    old(self).secret_bytes(),
                ) && recipients(outputs@) == all_payees(payment_requests(all_data_payments@))
                    && reason_for(reason_hash, reason) ==> call_requires(
                    create_offline_transfer,
                    (inputs, outputs, old(self)@.address, reason),
                ),
        ensures
            final(self).wf(),
            r is Ok ==> final(self)@.ledger_saved() && final(self)@.spends_saved(),
            (all_payees(payment_requests(all_data_payments@)).len() > 0 && r == Err::<(), Error>(
                Error::RandomnessUnavailable,
            ) && final(self)@ == old(self)@) || exists|
                inputs: Vec<(CashNote, DerivedSecretKey)>,
                outputs: Vec<(Nano, MainPubkey, DerivationIndex)>,
                reason: crate::cash_note::Hash,
                built: Result<TransferOutputs, Error>,
            |
                #![trigger call_ensures(
                    create_offline_transfer,
                    (inputs, outputs, old(self)@.address, reason),
                    built,
                )]
                {
                    &&& paired_notes(inputs@) == old(self)@.spendable()
                    &&& keys_fit(inputs@, old(self)@.address, old(self).secret_bytes())
                    &&& recipients(outputs@) == all_payees(payment_requests(all_data_payments@))
                    &&& reason_for(reason_hash, reason)
                    &&& call_ensures(
                        create_offline_transfer,
                        (inputs, outputs, old(self)@.address, reason),
                        built,
                    )
                    &&& (final(self)@, r) == old(self)@.paid(
                        payment_requests(all_data_payments@),
                        built_view(built),
                    )
                },
    {
        let all_payees_only = match with_fresh_indices(&flatten_payees(&all_data_payments)) {
            Some(outputs) => outputs,
            None => {
                return Err(Error::RandomnessUnavailable);
            },
        };
        let reason_hash = match reason_hash {
            Some(given) => given,
            None => Default::default(),
        };
        let available_cash_notes = self.available_cash_notes();
        let ghost inputs = available_cash_notes;
        let ghost outputs = all_payees_only;
        let built = create_offline_transfer(
            available_cash_notes,
            all_payees_only,
            self.address(),
            reason_hash,
        );
        let ghost outcome = built;
        assert(call_ensures(
            create_offline_transfer,
            (inputs, outputs, old(self)@.address, reason_hash),
            outcome,
        ));
        self.apply_storage_payment(&all_data_payments, built)
    }

    /// Finishes a payment for storage for which the transfer was built with
    /// the outcome `built`: a failure to build is handed on and changes
    /// nothing; an outcome is applied to the wallet, the cash notes it made
    /// are told apart by the content that each pays for, that index goes into
    /// the ledger, and the ledger is saved.
    pub fn apply_storage_payment(
        &mut self,
        all_data_payments: &Vec<(ContentAddress, Vec<(MainPubkey, Nano)>)>,
        built: Result<TransferOutputs, Error>,
    ) -> (r: Result<(), Error>)
        requires
            old(self).wf(),
        ensures
            final(self).wf(),
            (final(self)@, r) == old(self)@.paid(
                payment_requests(all_data_payments@),
                built_view(built),
            ),
            r is Ok ==> final(self)@.ledger_saved() && final(self)@.spends_saved(),
    {
        let transfer_outputs = match built {
            Ok(transfer) => transfer,
            Err(failure) => {
                return Err(failure);
            },
        };
        let all_transfers_per_address = attribute_payments(
            all_data_payments,
            &transfer_outputs.created_cash_notes,
        );
        match self.update_local_wallet(transfer_outputs) {
            Ok(_) => {},
            Err(failure) => {
                return Err(failure);
            },
        }
        self.wallet.add_payments(&all_transfers_per_address);
        self.wallet_dir.store_wallet(&self.wallet);
        Ok(())
    }

    /// Hands in one cash note.
    pub fn deposit_one(&mut self, cash_note: &CashNote) -> (r: Result<DepositOutcome, Error>)
        requires
            old(self).wf(),
        ensures
            final(self).wf(),
            (final(self)@, r) == old(self)@.deposit_one(cash_note@),
            r == Ok::<DepositOutcome, Error>(DepositOutcome::Accepted)
                ==> final(self)@.ledger_saved(),
    {
        let id = cash_note.unique_pubkey();
        if self.wallet_dir.has_cash_note(&id) {
            return Ok(DepositOutcome::AlreadyHeld);
        }
        if self.wallet.is_spent(&id) {
            return Ok(DepositOutcome::AlreadySpent);
        }
        if cash_note.derived_key(&self.key).is_err() {
            return Ok(DepositOutcome::NotOwned);
        }
        let token = match cash_note.token() {
            Ok(token) => token,
            Err(failure) => {
                return Err(failure);
            },
        };
        match self.wallet.insert_available(id, token) {
            Ok(_) => {},
            Err(failure) => {
                return Err(failure);
            },
        }
        self.wallet_dir.store_created_cash_note(cash_note);
        self.wallet_dir.store_wallet(&self.wallet);
        Ok(DepositOutcome::Accepted)
    }

    /// Hands in cash notes, first to last. A cash note that is on record, that
    /// was spent, or that is made out to another wallet is passed over; the
    /// others become available and go on record.
    pub fn deposit(&mut self, cash_notes: &Vec<CashNote>) -> (r: Result<(), Error>)
        requires
            old(self).wf(),
        ensures
            final(self).wf(),
            (final(self)@, r) == old(self)@.deposit(note_views(cash_notes@)),
    {
        let ghost notes = note_views(cash_notes@);
        let mut i: usize = 0;
        while i < cash_notes.len()
            invariant
                i <= cash_notes.len(),
                notes == note_views(cash_notes@),
                self.wf(),
                (self@, Ok::<(), Error>(())) == old(self)@.deposit(notes.take(i as int)),
            decreases cash_notes.len() - i,
        {
            proof {
                let next = notes.take(i + 1);
                assert(next.drop_last() =~= notes.take(i as int));
                assert(next.last() == cash_notes@[i as int]@);
            }
            match self.deposit_one(&cash_notes[i]) {
                Ok(_) => {},
                Err(failure) => {
                    proof {
                        lemma_deposit_stops(old(self)@, notes, i + 1);
                    }
                    return Err(failure);
                },
            }
            i += 1;
        }
        assert(notes.take(notes.len() as int) =~= notes);
        Ok(())
    }

    /// Applies the outcome of a transfer to the wallet.
    pub fn update_local_wallet(&mut self, transfer: TransferOutputs) -> (r: Result<(), Error>)
        requires
            old(self).wf(),
        ensures
            final(self).wf(),
            (final(self)@, r) == old(self)@.update(transfer@),
            r is Ok ==> final(self)@.ledger_saved() && final(self)@.spends_saved(),
    {
        proof {
            lemma_update_wf(self@, transfer@);
        }
        let TransferOutputs { tx, created_cash_notes, change_cash_note, all_spend_requests } =
            transfer;
        let spent_unique_pubkeys = input_ids(&tx.inputs);
        self.wallet.mark_spent(&spent_unique_pubkeys);
        if let Some(cash_note) = change_cash_note {
            let change: Vec<CashNote> = vec![cash_note];
            assert(note_views(change@) =~= seq![cash_note@]);
            match self.deposit(&change) {
                Ok(_) => {},
                Err(failure) => {
                    return Err(failure);
                },
            }
        }
        let created = note_ids(&created_cash_notes);
        self.wallet.mark_created_for_others(&created);
        self.wallet_dir.store_created_cash_notes(note_refs(&created_cash_notes));
        self.unconfirmed_txs.add_all(&all_spend_requests);
        self.wallet_dir.store_wallet(&self.wallet);
        self.wallet_dir.store_unconfirmed_txs(&self.unconfirmed_txs);
        Ok(())
    }
}

} // verus!
