//! What holds of the wallet whatever it is given, stated over the
//! mathematical values of `WalletState` and proved from their definitions.

use vstd::prelude::*;
use crate::amount::Nano;
use crate::cash_note::{CashNoteView, Input};
use crate::codec::counted_bytes;
use crate::entries::{
    distinct_keys, has_key, index_of_key, lemma_index_of_key, lemma_put, lemma_put_all,
    lemma_with_items, lemma_with_items_of_set, lemma_without, lemma_without_none,
    lemma_without_push, put, value_of, without,
};
use crate::order::{ascending, id_before, is_ascending, lemma_ascending};
use crate::payments::{attributed, first_unused, Attribution, ContentAddress};
use crate::error::Error;
use crate::keys::{KeyState, MainPubkey, UniquePubkey};
use crate::ledger::{
    ledger_bytes, lemma_accept_wf, lemma_parse_ledger, lemma_spend_wf, lemma_total_put,
    lemma_total_without_one, read_ledger, total, LedgerState,
};
use crate::pending::lemma_parse_requests;
use crate::transfer::TransferOutputsView;
use crate::wallet::{lemma_deposit_one_wf, lemma_update_wf, DepositOutcome, WalletState};

verus! {

/// Whether some cash note of `notes` has the identity `id`.
pub open spec fn has_id(notes: Seq<CashNoteView>, id: UniquePubkey) -> bool {
    exists|i: int| 0 <= i < notes.len() && (#[trigger] notes[i]).id == id
}

/// The sum of the amounts of `notes`, counting only the first cash note of
/// each identity.
pub open spec fn first_seen_total(notes: Seq<CashNoteView>) -> nat
    decreases notes.len(),
{
    if notes.len() == 0 {
        0
    } else if has_id(notes.drop_last(), notes.last().id) {
        first_seen_total(notes.drop_last())
    } else {
        first_seen_total(notes.drop_last()) + (match notes.last().amount() {
            Some(amount) => amount.value as nat,
            None => 0,
        })
    }
}

/// Whether the cash note at place `i` of `notes` is the first with its
/// identity.
pub open spec fn first_of_its_identity(notes: Seq<CashNoteView>, i: int) -> bool {
    forall|j: int| 0 <= j < i ==> (#[trigger] notes[j]).id != notes[i].id
}

/// Whether `note` is new to the wallet `state` and can be taken in: it is made
/// out to the wallet, its amount can be read, and the wallet has neither
/// spent it nor holds it.
pub open spec fn fresh_and_owned(state: WalletState, note: CashNoteView) -> bool {
    &&& note.owned_by(state.address)
    &&& note.amount() is Some
    &&& !state.ledger.spent.contains(note.id)
    &&& !state.dir.has_cash_note(note.id)
    &&& !has_key(state.ledger.available, note.id)
}

/// Handing in cash notes leaves the address and the list of spent cash notes
/// as they were, and makes available or puts on record only what was handed in.
proof fn lemma_deposit_frame(state: WalletState, notes: Seq<CashNoteView>)
    requires
        state.wf(),
    ensures
        state.deposit(notes).0.wf(),
        state.deposit(notes).0.address == state.address,
        state.deposit(notes).0.ledger.spent == state.ledger.spent,
        state.deposit(notes).0.ledger.created_for_others == state.ledger.created_for_others,
        state.deposit(notes).0.ledger.payments == state.ledger.payments,
        state.deposit(notes).0.unconfirmed_txs == state.unconfirmed_txs,
        forall|id: UniquePubkey|
            #![trigger has_key(state.deposit(notes).0.ledger.available, id)]
            has_key(state.deposit(notes).0.ledger.available, id) ==> has_key(
                state.ledger.available,
                id,
            ) || (has_id(notes, id) && !state.ledger.spent.contains(id)),
    decreases notes.len(),
{
    if notes.len() > 0 {
        let front = notes.drop_last();
        let last = notes.last();
        let before = state.deposit(front).0;
        lemma_deposit_frame(state, front);
        lemma_deposit_one_wf(before, last);
        if state.deposit(front).1 is Ok {
            let after = before.deposit_one(last).0;
            if before.deposit_one(last).1 == Ok::<DepositOutcome, Error>(DepositOutcome::Accepted) {
                lemma_put(before.ledger.available, last.id, last.amount().unwrap());
            }
            assert forall|id: UniquePubkey| has_key(after.ledger.available, id) implies has_key(
                state.ledger.available,
                id,
            ) || (has_id(notes, id) && !state.ledger.spent.contains(id)) by {
                if has_key(before.ledger.available, id) {
                    if !has_key(state.ledger.available, id) {
                        let i = choose|i: int|
                            0 <= i < front.len() && (#[trigger] front[i]).id == id;
                        assert(notes[i].id == id);
                    }
                } else {
                    assert(id == last.id);
                    assert(notes[notes.len() - 1].id == id);
                }
            }
        } else {
            assert forall|id: UniquePubkey| has_key(before.ledger.available, id) implies has_key(
                state.ledger.available,
                id,
            ) || (has_id(notes, id) && !state.ledger.spent.contains(id)) by {
                if !has_key(state.ledger.available, id) {
                    let i = choose|i: int| 0 <= i < front.len() && (#[trigger] front[i]).id == id;
                    assert(notes[i].id == id);
                }
            }
        }
    }
}

/// Handing in cash notes that are new to the wallet and made out to it takes
/// in each identity once: whatever the order and however often a cash note
/// comes, the balance rises by the sum of the amounts, each identity counted
/// once, as long as that sum can be counted in 64 bits. Just these cash notes
/// become available and go on record.
pub proof fn law_deposit_adds_each_once(state: WalletState, notes: Seq<CashNoteView>)
    requires
        state.wf(),
        forall|i: int| 0 <= i < notes.len() ==> fresh_and_owned(state, #[trigger] notes[i]),
        state.ledger.balance() + first_seen_total(notes) <= u64::MAX,
    ensures
        state.deposit(notes).1 is Ok,
        state.deposit(notes).0.ledger.balance() == state.ledger.balance() + first_seen_total(
            notes,
        ),
        forall|id: UniquePubkey|
            #![trigger has_key(state.deposit(notes).0.ledger.available, id)]
            has_key(state.deposit(notes).0.ledger.available, id) <==> (has_key(
                state.ledger.available,
                id,
            ) || has_id(notes, id)),
        forall|id: UniquePubkey|
            #![trigger has_key(state.deposit(notes).0.dir.created_cash_notes, id)]
            has_key(state.deposit(notes).0.dir.created_cash_notes, id) <==> (has_key(
                state.dir.created_cash_notes,
                id,
            ) || has_id(notes, id)),
    decreases notes.len(),
{
    if notes.len() > 0 {
        let front = notes.drop_last();
        let last = notes.last();
        assert forall|i: int| 0 <= i < front.len() implies fresh_and_owned(
            state,
            #[trigger] front[i],
        ) by {
            assert(front[i] == notes[i]);
        }
        law_deposit_adds_each_once(state, front);
        lemma_deposit_frame(state, front);
        let before = state.deposit(front).0;
        let after = before.deposit_one(last).0;
        assert(fresh_and_owned(state, notes[notes.len() - 1]));
        assert forall|id: UniquePubkey| has_id(notes, id) <==> (id == last.id || has_id(
            front,
            id,
        )) by {
            if has_id(notes, id) {
                let i = choose|i: int| 0 <= i < notes.len() && (#[trigger] notes[i]).id == id;
                if i < front.len() {
                    assert(front[i].id == id);
                }
            }
            if has_id(front, id) {
                let i = choose|i: int| 0 <= i < front.len() && (#[trigger] front[i]).id == id;
                assert(notes[i].id == id);
            }
            assert(notes[notes.len() - 1].id == last.id);
        }
        if has_id(front, last.id) {
            assert(has_key(before.dir.created_cash_notes, last.id));
            assert(after == before);
        } else {
            let amount = last.amount().unwrap();
            assert(!has_key(before.dir.created_cash_notes, last.id));
            assert(!has_key(before.ledger.available, last.id));
            assert(value_of(before.ledger.available, last.id) is None);
            lemma_total_put(before.ledger.available, last.id, amount);
            lemma_put(before.ledger.available, last.id, amount);
            lemma_put(before.dir.created_cash_notes, last.id, last);
            assert(before.ledger.balance_with(last.id, amount) == before.ledger.balance()
                + amount.value);
        }
    }
}

/// Handing in cash notes that are new to the wallet and made out to it makes
/// each available with the amount of the first note with its identity, and
/// leaves what was available before with its amount.
pub proof fn law_deposit_makes_each_available(state: WalletState, notes: Seq<CashNoteView>)
    requires
        state.wf(),
        forall|i: int| 0 <= i < notes.len() ==> fresh_and_owned(state, #[trigger] notes[i]),
        state.ledger.balance() + first_seen_total(notes) <= u64::MAX,
    ensures
        forall|i: int|
            0 <= i < notes.len() && first_of_its_identity(notes, i) ==> value_of(
                state.deposit(notes).0.ledger.available,
                (#[trigger] notes[i]).id,
            ) == notes[i].amount(),
        forall|id: UniquePubkey|
            #![trigger value_of(state.deposit(notes).0.ledger.available, id)]
            has_key(state.ledger.available, id) ==> value_of(
                state.deposit(notes).0.ledger.available,
                id,
            ) == value_of(state.ledger.available, id),
    decreases notes.len(),
{
    if notes.len() > 0 {
        let front = notes.drop_last();
        let last = notes.last();
        assert forall|i: int| 0 <= i < front.len() implies fresh_and_owned(
            state,
            #[trigger] front[i],
        ) by {
            assert(front[i] == notes[i]);
        }
        law_deposit_adds_each_once(state, front);
        law_deposit_makes_each_available(state, front);
        lemma_deposit_frame(state, front);
        let before = state.deposit(front).0;
        let after = state.deposit(notes).0;
        assert(fresh_and_owned(state, notes[notes.len() - 1]));
        assert(after == before.deposit_one(last).0);
        let taken = !has_id(front, last.id);
        if taken {
            let amount = last.amount().unwrap();
            assert(!has_key(before.dir.created_cash_notes, last.id));
            assert(!has_key(before.ledger.available, last.id));
            assert(value_of(before.ledger.available, last.id) is None);
            lemma_total_put(before.ledger.available, last.id, amount);
            lemma_put(before.ledger.available, last.id, amount);
            assert(before.ledger.balance_with(last.id, amount) == before.ledger.balance()
                + amount.value);
            assert(after.ledger.available == put(before.ledger.available, last.id, amount));
        } else {
            assert(has_key(before.dir.created_cash_notes, last.id));
            assert(after == before);
        }
        assert forall|i: int|
            0 <= i < notes.len() && first_of_its_identity(notes, i) implies value_of(
            after.ledger.available,
            (#[trigger] notes[i]).id,
        ) == notes[i].amount() by {
            if i < front.len() {
                assert(front[i] == notes[i]);
                assert(first_of_its_identity(front, i)) by {
                    assert forall|j: int| 0 <= j < i implies (#[trigger] front[j]).id
                        != front[i].id by {
                        assert(notes[j].id != notes[i].id);
                    }
                }
                assert(value_of(before.ledger.available, front[i].id) == front[i].amount());
                if taken {
                    assert(has_id(front, front[i].id));
                    assert(front[i].id != last.id);
                }
            } else {
                if !taken {
                    let j = choose|j: int| 0 <= j < front.len() && (#[trigger] front[j]).id
                        == last.id;
                    assert(notes[j].id == notes[i].id);
                }
            }
        }
        assert forall|id: UniquePubkey| has_key(state.ledger.available, id) implies value_of(
            after.ledger.available,
            id,
        ) == value_of(state.ledger.available, id) by {
            assert(value_of(before.ledger.available, id) == value_of(state.ledger.available, id));
            if taken {
                assert(last.id != id);
            }
        }
    }
}

/// All the cash notes handed in to a wallet that held nothing: as long as
/// each is made out to the wallet and holds an amount, and their sum can be
/// counted in 64 bits, the balance is the sum of their amounts, each identity
/// counted once however often it came.
pub proof fn law_balance_is_sum_of_deposits(state: WalletState, notes: Seq<CashNoteView>)
    requires
        state.wf(),
        state.ledger == LedgerState::empty(),
        state.dir.created_cash_notes.len() == 0,
        forall|i: int|
            0 <= i < notes.len() ==> (#[trigger] notes[i]).owned_by(state.address)
                && notes[i].amount() is Some,
        first_seen_total(notes) <= u64::MAX,
    ensures
        state.deposit(notes).1 is Ok,
        state.deposit(notes).0.ledger.balance() == first_seen_total(notes),
{
    assert forall|i: int| 0 <= i < notes.len() implies fresh_and_owned(
        state,
        #[trigger] notes[i],
    ) by {
        assert(notes[i].owned_by(state.address));
    }
    law_deposit_adds_each_once(state, notes);
}

/// Handing in a cash note that is made out to another wallet changes nothing.
pub proof fn law_foreign_deposit_changes_nothing(state: WalletState, notes: Seq<CashNoteView>)
    requires
        forall|i: int| 0 <= i < notes.len() ==> !(#[trigger] notes[i]).owned_by(state.address),
    ensures
        state.deposit(notes) == (state, Ok::<(), Error>(())),
    decreases notes.len(),
{
    if notes.len() > 0 {
        let front = notes.drop_last();
        assert forall|i: int| 0 <= i < front.len() implies !(#[trigger] front[i]).owned_by(
            state.address,
        ) by {
            assert(front[i] == notes[i]);
        }
        law_foreign_deposit_changes_nothing(state, front);
        assert(!notes[notes.len() - 1].owned_by(state.address));
    }
}

/// Handing a cash note in a second time changes nothing.
pub proof fn law_deposit_is_idempotent(state: WalletState, note: CashNoteView)
    requires
        state.wf(),
    ensures
        ({
            let once = state.deposit_one(note).0;
            state.deposit_one(note).1 is Ok ==> once.deposit_one(note).0 == once
                && once.deposit_one(note).1 is Ok
        }),
{
    let once = state.deposit_one(note).0;
    if state.deposit_one(note).1 == Ok::<DepositOutcome, Error>(DepositOutcome::Accepted) {
        lemma_put(state.dir.created_cash_notes, note.id, note);
        assert(once.dir.has_cash_note(note.id));
    }
}

/// After the outcome of a transfer was applied, each cash note that the
/// transfer spends is listed as spent and is not available, whether or not
/// the change could be handed in.
pub proof fn law_inputs_are_spent(state: WalletState, transfer: TransferOutputsView)
    requires
        state.wf(),
    ensures
        forall|id: UniquePubkey|
            transfer.spent_ids().contains(id) ==> state.update(transfer).0.ledger.spent.contains(
                id,
            ) && !has_key(state.update(transfer).0.ledger.available, id),
{
    lemma_spend_wf(state.ledger, transfer.spent_ids());
    let spent = WalletState { ledger: state.ledger.spend(transfer.spent_ids()), ..state };
    if let Some(note) = transfer.change_cash_note {
        lemma_deposit_frame(spent, seq![note]);
    }
}

/// Whether one operation of the wallet leads from `before` to `after`:
/// handing in cash notes, applying the outcome of a transfer, a send, a
/// payment for storage, taking in an index of payments, or any of those that
/// leave the ledger alone.
pub open spec fn one_operation(before: WalletState, after: WalletState) -> bool {
    ||| exists|notes: Seq<CashNoteView>| after == #[trigger] before.deposit(notes).0
    ||| exists|transfer: TransferOutputsView| after == #[trigger] before.update(transfer).0
    ||| exists|built: Result<TransferOutputsView, Error>| after == #[trigger] before.sent(built).0
    ||| exists|
        requests: Seq<(ContentAddress, Seq<(MainPubkey, Nano)>)>,
        built: Result<TransferOutputsView, Error>,
    | after == #[trigger] before.paid(requests, built).0
    ||| exists|proofs: Seq<(ContentAddress, Seq<UniquePubkey>)>|
        after.ledger == #[trigger] before.ledger.record_payments(proofs)
    ||| after.ledger == before.ledger
}

/// No operation takes a cash note off the list of spent ones.
proof fn lemma_operation_keeps_spent(before: WalletState, after: WalletState, id: UniquePubkey)
    requires
        before.wf(),
        one_operation(before, after),
        before.ledger.spent.contains(id),
    ensures
        after.ledger.spent.contains(id),
{
    if exists|notes: Seq<CashNoteView>| after == #[trigger] before.deposit(notes).0 {
        let notes = choose|notes: Seq<CashNoteView>| after == #[trigger] before.deposit(notes).0;
        lemma_deposit_frame(before, notes);
    } else if exists|transfer: TransferOutputsView| after == #[trigger] before.update(transfer).0 {
        let transfer = choose|transfer: TransferOutputsView|
            after == #[trigger] before.update(transfer).0;
        lemma_update_keeps_spent(before, transfer, id);
    } else if exists|built: Result<TransferOutputsView, Error>|
        after == #[trigger] before.sent(built).0 {
        let built = choose|built: Result<TransferOutputsView, Error>|
            after == #[trigger] before.sent(built).0;
        if let Ok(transfer) = built {
            lemma_update_keeps_spent(before, transfer, id);
        }
    } else if exists|
        requests: Seq<(ContentAddress, Seq<(MainPubkey, Nano)>)>,
        built: Result<TransferOutputsView, Error>,
    | after == #[trigger] before.paid(requests, built).0 {
        let (requests, built) = choose|
            requests: Seq<(ContentAddress, Seq<(MainPubkey, Nano)>)>,
            built: Result<TransferOutputsView, Error>,
        | after == #[trigger] before.paid(requests, built).0;
        if let Ok(transfer) = built {
            lemma_update_keeps_spent(before, transfer, id);
        }
    }
}

/// What a wallet has spent stays spent for as long as the wallet lives:
/// whatever operations follow one another, a cash note that is listed as
/// spent at the start is listed as spent at the end.
pub proof fn law_spent_only_grows(history: Seq<WalletState>, id: UniquePubkey)
    requires
        history.len() > 0,
        forall|i: int| 0 <= i < history.len() ==> (#[trigger] history[i]).wf(),
        forall|i: int|
            0 <= i < history.len() - 1 ==> one_operation(#[trigger] history[i], history[i + 1]),
        history[0].ledger.spent.contains(id),
    ensures
        history.last().ledger.spent.contains(id),
    decreases history.len(),
{
    if history.len() > 1 {
        let earlier = history.drop_last();
        assert forall|i: int| 0 <= i < earlier.len() implies (#[trigger] earlier[i]).wf() by {
            assert(history[i].wf());
        }
        assert forall|i: int| 0 <= i < earlier.len() - 1 implies one_operation(
            #[trigger] earlier[i],
            earlier[i + 1],
        ) by {
            assert(one_operation(history[i], history[i + 1]));
        }
        law_spent_only_grows(earlier, id);
        let at = history.len() - 2;
        assert(one_operation(history[at], history[at + 1]));
        assert(history[at].wf());
        lemma_operation_keeps_spent(history[at], history[at + 1], id);
    }
}

/// Applying the outcome of a transfer takes no cash note off the list of
/// spent ones.
proof fn lemma_update_keeps_spent(
    state: WalletState,
    transfer: TransferOutputsView,
    id: UniquePubkey,
)
    requires
        state.wf(),
        state.ledger.spent.contains(id),
    ensures
        state.update(transfer).0.ledger.spent.contains(id),
{
    lemma_spend_wf(state.ledger, transfer.spent_ids());
    let spent = WalletState { ledger: state.ledger.spend(transfer.spent_ids()), ..state };
    if let Some(note) = transfer.change_cash_note {
        lemma_deposit_frame(spent, seq![note]);
    }
}

/// Saving the ledger and loading it again gives the ledger back: the bytes
/// in which a ledger is saved are read as that ledger, with the same
/// available cash notes, spent cash notes, cash notes made for others, and
/// index of payments. This holds of every ledger that is in order and whose
/// numbers of items can be written in eight bytes each, as those of every
/// ledger in memory can.
pub proof fn law_saved_ledger_loads_back(ledger: LedgerState)
    requires
        ledger.wf(),
        ledger.fits(),
    ensures
        read_ledger(ledger_bytes(ledger)) == Ok::<LedgerState, Error>(ledger),
{
    lemma_parse_ledger(ledger);
}

/// A wallet that has saved its ledger and its unconfirmed spends loads back
/// as it is: with the same address, the same ledger, the same spends in the
/// same order, over the same directory.
pub proof fn law_saved_wallet_loads_back(state: WalletState, fresh: KeyState)
    requires
        state.wf(),
        state.ledger.fits(),
        state.unconfirmed_txs.len() <= u64::MAX,
        state.dir.main_key == Some(state.key()),
    ensures
        ({
            let saved = state.dir.store_wallet(state.ledger).store_unconfirmed_txs(
                state.unconfirmed_txs,
            );
            WalletState::loaded(saved, fresh) == Ok::<WalletState, Error>(
                WalletState { dir: saved, ..state },
            )
        }),
{
    lemma_parse_ledger(state.ledger);
    lemma_parse_requests(state.unconfirmed_txs);
    lemma_with_items_of_set(state.unconfirmed_txs);
}

/// Whether the file of the saved ledger holds the ledger of the wallet.
pub open spec fn ledger_on_file(state: WalletState) -> bool {
    state.dir.wallet == Some(ledger_bytes(state.ledger))
}

/// Whether the file of the saved spends holds the spends that wait.
pub open spec fn spends_on_file(state: WalletState) -> bool {
    state.dir.unconfirmed_txs == Some(counted_bytes(state.unconfirmed_txs))
}

/// A wallet whose files hold its ledger and the spends that wait loads back
/// from its directory as it is: with the same key, the same available, spent
/// and made-for-others cash notes, the same index of payments, and the same
/// spends in the same order. This holds as long as the numbers of items can
/// be written in eight bytes each, as those of every wallet in memory can.
pub proof fn law_what_is_on_file_loads_back(state: WalletState, fresh: KeyState)
    requires
        state.wf(),
        state.ledger.fits(),
        state.unconfirmed_txs.len() <= u64::MAX,
        state.dir.main_key == Some(state.key()),
        ledger_on_file(state),
        spends_on_file(state),
    ensures
        WalletState::loaded(state.dir, fresh) == Ok::<WalletState, Error>(state),
{
    lemma_parse_ledger(state.ledger);
    lemma_parse_requests(state.unconfirmed_txs);
    lemma_with_items_of_set(state.unconfirmed_txs);
}

/// After the ledger was saved, loading gives a wallet with that ledger, as
/// long as the file of the saved spends, if there is one, can be read.
pub proof fn law_stored_ledger_loads_back(state: WalletState, fresh: KeyState)
    requires
        state.wf(),
        state.ledger.fits(),
        state.dir.saved_unconfirmed_txs() is Ok,
    ensures
        WalletState::loaded(state.dir.store_wallet(state.ledger), fresh) matches Ok(loaded)
            && loaded.ledger == state.ledger,
{
    lemma_parse_ledger(state.ledger);
}

/// A send reaches the files before it returns: once the outcome of a transfer
/// was applied, the file of the saved ledger holds the ledger, and the file
/// of the saved spends holds the spends that wait. The same holds after a
/// send and after a payment for storage that went through.
pub proof fn law_send_reaches_the_files(
    state: WalletState,
    transfer: TransferOutputsView,
    requests: Seq<(ContentAddress, Seq<(MainPubkey, Nano)>)>,
)
    ensures
        state.update(transfer).1 is Ok ==> ledger_on_file(state.update(transfer).0)
            && spends_on_file(state.update(transfer).0),
        state.sent(Ok(transfer)).1 is Ok ==> ledger_on_file(state.sent(Ok(transfer)).0)
            && spends_on_file(state.sent(Ok(transfer)).0),
        state.paid(requests, Ok(transfer)).1 is Ok ==> ledger_on_file(
            state.paid(requests, Ok(transfer)).0,
        ) && spends_on_file(state.paid(requests, Ok(transfer)).0),
{
}

/// A wallet that stands on its directory loads from it, with its own key;
/// and where its ledger and the spends that wait are saved, it loads back as
/// it is: with the same available, spent and made-for-others cash notes, the
/// same index of payments, and the same spends in the same order.
pub proof fn law_rooted_wallet_loads_back(state: WalletState, fresh: KeyState)
    requires
        state.rooted(),
    ensures
        WalletState::loaded(state.dir, fresh) matches Ok(loaded) && loaded.key() == state.key(),
        state.ledger_saved() && state.spends_saved() ==> state.unconfirmed_txs.no_duplicates()
            ==> WalletState::loaded(state.dir, fresh) == Ok::<WalletState, Error>(state),
{
}

/// Applying the outcome of a transfer leaves the key of the wallet and the
/// key on file as they are, whether or not it goes through.
pub proof fn law_update_keeps_the_key(state: WalletState, transfer: TransferOutputsView)
    ensures
        state.update(transfer).0.key() == state.key(),
        state.update(transfer).0.dir.main_key == state.dir.main_key,
{
    let spent = WalletState { ledger: state.ledger.spend(transfer.spent_ids()), ..state };
    if let Some(note) = transfer.change_cash_note {
        law_deposit_reaches_the_file(spent, seq![note]);
    }
}

/// After a send, loading from the directory, with no saving in between, gives
/// the wallet as the send left it: the same key, the same available, spent
/// and made-for-others cash notes, the same index of payments, and the same
/// spends that wait. This holds of a wallet over the directory that its key
/// is on file in, as every loaded wallet is, and as long as the numbers of
/// items can be written in eight bytes each, as `LocalWallet::lemma_fits`
/// shows of every wallet in memory.
pub proof fn law_sent_wallet_loads_back(
    state: WalletState,
    transfer: TransferOutputsView,
    fresh: KeyState,
)
    requires
        state.wf(),
        state.dir.main_key == Some(state.key()),
        state.update(transfer).1 is Ok,
        state.update(transfer).0.ledger.fits(),
        state.update(transfer).0.unconfirmed_txs.len() <= u64::MAX,
    ensures
        WalletState::loaded(state.update(transfer).0.dir, fresh) == Ok::<WalletState, Error>(
            state.update(transfer).0,
        ),
        state.sent(Ok(transfer)).0 == state.update(transfer).0,
{
    lemma_update_wf(state, transfer);
    law_update_keeps_the_key(state, transfer);
    law_what_is_on_file_loads_back(state.update(transfer).0, fresh);
}

/// Handing in cash notes keeps the file of the saved ledger up to date:
/// where it held the ledger before, it holds the ledger after, whether or not
/// the batch went through; and once a cash note was taken in, it holds the
/// ledger in any case.
pub proof fn law_deposit_reaches_the_file(state: WalletState, notes: Seq<CashNoteView>)
    ensures
        ledger_on_file(state) ==> ledger_on_file(state.deposit(notes).0),
        state.deposit(notes).0.ledger != state.ledger ==> ledger_on_file(
            state.deposit(notes).0,
        ),
        state.deposit(notes).0.unconfirmed_txs == state.unconfirmed_txs,
        state.deposit(notes).0.dir.unconfirmed_txs == state.dir.unconfirmed_txs,
        state.deposit(notes).0.dir.main_key == state.dir.main_key,
        state.deposit(notes).0.key() == state.key(),
    decreases notes.len(),
{
    if notes.len() > 0 {
        law_deposit_reaches_the_file(state, notes.drop_last());
    }
}

/// Handing in one batch after another is handing in all the cash notes at
/// once, as long as the earlier batch went through.
pub proof fn law_deposit_in_batches(
    state: WalletState,
    first: Seq<CashNoteView>,
    second: Seq<CashNoteView>,
)
    requires
        state.deposit(first).1 is Ok,
    ensures
        state.deposit(first + second) == state.deposit(first).0.deposit(second),
    decreases second.len(),
{
    if second.len() == 0 {
        assert(first + second =~= first);
    } else {
        law_deposit_in_batches(state, first, second.drop_last());
        assert((first + second).drop_last() =~= first + second.drop_last());
        assert((first + second).last() == second.last());
    }
}

/// Of the cash notes listed in ascending `entries`, those that can be spent
/// stand in the order of their identities, each is listed in `entries`, on
/// record and made out to the wallet, and none of these is left out.
proof fn lemma_spendable_among(state: WalletState, entries: Seq<(UniquePubkey, Nano)>)
    requires
        state.dir.wf(),
        is_ascending(entries),
    ensures
        forall|k: int|
            0 <= k < state.spendable_among(entries).len() ==> {
                let note = #[trigger] state.spendable_among(entries)[k];
                &&& has_key(entries, note.id)
                &&& state.dir.cash_note(note.id) == Some(note)
                &&& note.owned_by(state.address)
            },
        forall|i: int, j: int|
            0 <= i < j < state.spendable_among(entries).len() ==> id_before(
                (#[trigger] state.spendable_among(entries)[i]).id,
                (#[trigger] state.spendable_among(entries)[j]).id,
            ),
        forall|i: int|
            0 <= i < entries.len() && (state.dir.cash_note((#[trigger] entries[i]).0) matches Some(
                note,
            ) && note.owned_by(state.address)) ==> has_id(
                state.spendable_among(entries),
                entries[i].0,
            ),
    decreases entries.len(),
{
    let found = state.spendable_among(entries);
    if entries.len() > 0 {
        let front = entries.drop_last();
        let last = entries.last();
        let before = state.spendable_among(front);
        assert(is_ascending(front)) by {
            assert forall|i: int, j: int| 0 <= i < j < front.len() implies id_before(
                (#[trigger] front[i]).0,
                (#[trigger] front[j]).0,
            ) by {
                assert(id_before(entries[i].0, entries[j].0));
            }
        }
        lemma_spendable_among(state, front);
        assert forall|key: UniquePubkey| has_key(front, key) implies has_key(entries, key)
            && id_before(key, last.0) by {
            let m = index_of_key(front, key);
            assert(entries[m].0 == key);
            assert(id_before(entries[m].0, entries[entries.len() - 1].0));
        }
        assert(entries[entries.len() - 1].0 == last.0);
        let added = match state.dir.cash_note(last.0) {
            Some(note) => note.owned_by(state.address),
            None => false,
        };
        if added {
            let note = state.dir.cash_note(last.0).unwrap();
            let at = index_of_key(state.dir.created_cash_notes, last.0);
            assert(state.dir.created_cash_notes[at].1.id == last.0);
            assert(found == before.push(note));
            assert forall|k: int| 0 <= k < found.len() implies {
                let n = #[trigger] found[k];
                &&& has_key(entries, n.id)
                &&& state.dir.cash_note(n.id) == Some(n)
                &&& n.owned_by(state.address)
            } by {
                if k < before.len() {
                    assert(found[k] == before[k]);
                }
            }
            assert forall|i: int, j: int| 0 <= i < j < found.len() implies id_before(
                (#[trigger] found[i]).id,
                (#[trigger] found[j]).id,
            ) by {
                assert(found[i] == before[i]);
                if j < before.len() {
                    assert(found[j] == before[j]);
                } else {
                    assert(has_key(front, before[i].id));
                }
            }
            assert(found[before.len() as int].id == last.0);
        } else {
            assert(found == before);
        }
        assert forall|i: int|
            0 <= i < entries.len() && (state.dir.cash_note((#[trigger] entries[i]).0) matches Some(
                note,
            ) && note.owned_by(state.address)) implies has_id(found, entries[i].0) by {
            if i < front.len() {
                assert(front[i] == entries[i]);
                assert(has_id(before, front[i].0));
                let k = choose|k: int| 0 <= k < before.len() && (#[trigger] before[k]).id
                    == front[i].0;
                assert(found[k].id == entries[i].0);
            }
        }
    }
}

/// The cash notes that a wallet can spend right away are just the available
/// ones that are on record and made out to the wallet, each once, in the
/// ascending order of their identities.
pub proof fn law_spendable_in_ascending_order(state: WalletState)
    requires
        state.wf(),
    ensures
        forall|k: int|
            0 <= k < state.spendable().len() ==> {
                let note = #[trigger] state.spendable()[k];
                &&& has_key(state.ledger.available, note.id)
                &&& state.dir.cash_note(note.id) == Some(note)
                &&& note.owned_by(state.address)
            },
        forall|i: int, j: int|
            0 <= i < j < state.spendable().len() ==> id_before(
                (#[trigger] state.spendable()[i]).id,
                (#[trigger] state.spendable()[j]).id,
            ),
        forall|id: UniquePubkey|
            has_key(state.ledger.available, id) && (state.dir.cash_note(id) matches Some(note)
                && note.owned_by(state.address)) ==> #[trigger] has_id(state.spendable(), id),
{
    let entries = ascending(state.ledger.available);
    lemma_ascending(state.ledger.available);
    lemma_spendable_among(state, entries);
    assert forall|id: UniquePubkey|
        has_key(state.ledger.available, id) && (state.dir.cash_note(id) matches Some(note)
            && note.owned_by(state.address)) implies #[trigger] has_id(
        state.spendable(),
        id,
    ) by {
        assert(has_key(entries, id));
        let i = index_of_key(entries, id);
        assert(entries[i].0 == id);
    }
}

/// Applying the outcome of a transfer leaves the rest of the available cash
/// notes alone: a cash note that was available and is not among the inputs
/// stays available with its amount, unless the change takes its place; and
/// the only cash note that can be newly available is the change.
pub proof fn law_update_keeps_the_rest_available(
    state: WalletState,
    transfer: TransferOutputsView,
    id: UniquePubkey,
)
    requires
        state.wf(),
        !(transfer.change_cash_note matches Some(change) && change.id == id),
    ensures
        has_key(state.update(transfer).0.ledger.available, id) <==> (has_key(
            state.ledger.available,
            id,
        ) && !transfer.spent_ids().contains(id)),
        !transfer.spent_ids().contains(id) ==> value_of(
            state.update(transfer).0.ledger.available,
            id,
        ) == value_of(state.ledger.available, id),
{
    lemma_spend_wf(state.ledger, transfer.spent_ids());
    lemma_without(state.ledger.available, transfer.spent_ids());
    let spent = WalletState { ledger: state.ledger.spend(transfer.spent_ids()), ..state };
    if let Some(change) = transfer.change_cash_note {
        let one = seq![change];
        assert(one.drop_last() =~= Seq::<CashNoteView>::empty());
        assert(one.last() == change);
        assert(spent.deposit(one.drop_last()) == (spent, Ok::<(), Error>(())));
        if let Some(amount) = change.amount() {
            lemma_put(spent.ledger.available, change.id, amount);
        }
    }
}

/// The sum of the amounts of `inputs`.
pub open spec fn inputs_total(inputs: Seq<Input>) -> nat
    decreases inputs.len(),
{
    if inputs.len() == 0 {
        0
    } else {
        inputs_total(inputs.drop_last()) + inputs.last().amount.value as nat
    }
}

/// The sum of the amounts of `notes`; a cash note whose amount cannot be read
/// counts as nothing.
pub open spec fn notes_total(notes: Seq<CashNoteView>) -> nat
    decreases notes.len(),
{
    if notes.len() == 0 {
        0
    } else {
        notes_total(notes.drop_last()) + (match notes.last().amount() {
            Some(amount) => amount.value as nat,
            None => 0,
        })
    }
}

/// The fee of a transfer: what its inputs hold beyond what goes to the
/// recipients and what comes back as change.
pub open spec fn fee(transfer: TransferOutputsView) -> int {
    inputs_total(transfer.tx.inputs) - notes_total(transfer.created_cash_notes) - (
    match transfer.change_cash_note {
        Some(change) => notes_total(seq![change]),
        None => 0,
    })
}

/// Whether each input of `inputs` is one of the cash notes of `available`,
/// with the amount that the input states, and none comes twice.
pub open spec fn inputs_are_available(available: Seq<(UniquePubkey, Nano)>, inputs: Seq<Input>)
    -> bool {
    &&& inputs.map_values(|input: Input| input.unique_pubkey).no_duplicates()
    &&& forall|i: int|
        0 <= i < inputs.len() ==> value_of(available, (#[trigger] inputs[i]).unique_pubkey)
            == Some(inputs[i].amount)
}

/// Taking the inputs of a transfer out of the available cash notes lowers the
/// balance by the sum of the inputs.
proof fn lemma_total_without_inputs(available: Seq<(UniquePubkey, Nano)>, inputs: Seq<Input>)
    requires
        distinct_keys(available),
        inputs_are_available(available, inputs),
    ensures
        total(without(available, inputs.map_values(|input: Input| input.unique_pubkey)))
            + inputs_total(inputs) == total(available),
    decreases inputs.len(),
{
    let ids = inputs.map_values(|input: Input| input.unique_pubkey);
    if inputs.len() == 0 {
        assert forall|i: int| 0 <= i < available.len() implies !ids.contains(
            (#[trigger] available[i]).0,
        ) by {}
        lemma_without_none(available, ids);
    } else {
        let front = inputs.drop_last();
        let last = inputs.last();
        let front_ids = front.map_values(|input: Input| input.unique_pubkey);
        assert(ids =~= front_ids.push(last.unique_pubkey));
        assert(front_ids.no_duplicates()) by {
            assert forall|i: int, j: int|
                0 <= i < front_ids.len() && 0 <= j < front_ids.len() && i != j implies front_ids[i]
                != front_ids[j] by {
                assert(ids[i] != ids[j]);
            }
        }
        assert forall|i: int| 0 <= i < front.len() implies value_of(
            available,
            (#[trigger] front[i]).unique_pubkey,
        ) == Some(front[i].amount) by {
            assert(front[i] == inputs[i]);
        }
        lemma_total_without_inputs(available, front);
        let left = without(available, front_ids);
        lemma_without(available, front_ids);
        lemma_without_push(available, front_ids, last.unique_pubkey);
        lemma_total_without_one(left, last.unique_pubkey);
        assert(!front_ids.contains(last.unique_pubkey)) by {
            if front_ids.contains(last.unique_pubkey) {
                let i = choose|i: int| 0 <= i < front_ids.len() && front_ids[i]
                    == last.unique_pubkey;
                assert(ids[i] != ids[ids.len() - 1]);
            }
        }
        assert(value_of(available, inputs[inputs.len() - 1].unique_pubkey) == Some(last.amount));
        assert(value_of(left, last.unique_pubkey) == value_of(available, last.unique_pubkey));
    }
}

/// A transfer whose inputs are available cash notes of the wallet, and whose
/// change is a new cash note that the wallet takes in, lowers the balance by
/// what goes to the recipients and by the fee.
pub proof fn law_send_lowers_balance(state: WalletState, transfer: TransferOutputsView)
    requires
        state.wf(),
        inputs_are_available(state.ledger.available, transfer.tx.inputs),
        transfer.change_cash_note is Some,
        !has_key(state.ledger.available, transfer.change_cash_note.unwrap().id),
        (WalletState { ledger: state.ledger.spend(transfer.spent_ids()), ..state }).deposit_one(
            transfer.change_cash_note.unwrap(),
        ).1 == Ok::<DepositOutcome, Error>(DepositOutcome::Accepted),
    ensures
        state.update(transfer).1 is Ok,
        state.update(transfer).0.ledger.balance() == state.ledger.balance() - notes_total(
            transfer.created_cash_notes,
        ) - fee(transfer),
{
    let change = transfer.change_cash_note.unwrap();
    let spent = WalletState { ledger: state.ledger.spend(transfer.spent_ids()), ..state };
    lemma_spend_wf(state.ledger, transfer.spent_ids());
    lemma_total_without_inputs(state.ledger.available, transfer.tx.inputs);
    let one = seq![change];
    assert(one.drop_last() =~= Seq::<CashNoteView>::empty());
    assert(one.last() == change);
    assert(spent.deposit(one.drop_last()) == (spent, Ok::<(), Error>(())));
    assert(spent.deposit(one).0 == spent.deposit_one(change).0);
    let amount = change.amount().unwrap();
    assert(!has_key(spent.ledger.available, change.id));
    lemma_accept_wf(spent.ledger, change.id, amount);
    assert(notes_total(one.drop_last()) == 0);
    assert(notes_total(one) == amount.value);
}

/// Whether no identity stands at two places of `index`: neither under two
/// content addresses nor twice under one.
pub open spec fn attributed_once(index: Seq<(ContentAddress, Seq<UniquePubkey>)>) -> bool {
    forall|a: int, i: int, b: int, j: int|
        0 <= a < index.len() && 0 <= i < index[a].1.len() && 0 <= b < index.len() && 0 <= j
            < index[b].1.len() && (a != b || i != j) ==> #[trigger] index[a].1[i]
            != #[trigger] index[b].1[j]
}

/// Whether an attribution of the cash notes `created` is in order: no content
/// address stands twice in its index, no identity stands at two places, and
/// every identity in the index is that of a cash note of `created` and is
/// used up.
pub open spec fn attribution_in_order(attribution: Attribution, created: Seq<CashNoteView>)
    -> bool {
    &&& distinct_keys(attribution.index)
    &&& attributed_once(attribution.index)
    &&& forall|a: int, i: int|
        0 <= a < attribution.index.len() && 0 <= i < attribution.index[a].1.len()
            ==> attribution.used.contains(#[trigger] attribution.index[a].1[i]) && has_id(
            created,
            attribution.index[a].1[i],
        )
}

/// The cash note that is picked for a payee is one of those at hand and is not
/// used up.
proof fn lemma_first_unused(
    created: Seq<CashNoteView>,
    payee: MainPubkey,
    used: Seq<UniquePubkey>,
    from: int,
)
    ensures
        first_unused(created, payee, used, from) matches Some(id) ==> !used.contains(id) && has_id(
            created,
            id,
        ),
    decreases created.len() - from,
{
    if 0 <= from < created.len() {
        if !(created[from].main_pubkey == payee && !used.contains(created[from].id)) {
            lemma_first_unused(created, payee, used, from + 1);
        }
    }
}

/// Serving one payee keeps an attribution in order.
proof fn lemma_serve(
    attribution: Attribution,
    name: ContentAddress,
    payee: MainPubkey,
    created: Seq<CashNoteView>,
)
    requires
        attribution_in_order(attribution, created),
    ensures
        attribution_in_order(attribution.serve(name, payee, created), created),
{
    lemma_first_unused(created, payee, attribution.used, 0);
    if let Some(id) = first_unused(created, payee, attribution.used, 0) {
        let index = attribution.index;
        let used = attribution.used;
        let after = attribution.serve(name, payee, created);
        let ids = attribution.ids_under(name).push(id);
        lemma_put(index, name, ids);
        assert(after.used[used.len() as int] == id);
        assert forall|x: UniquePubkey| used.contains(x) implies after.used.contains(x) by {
            let k = choose|k: int| 0 <= k < used.len() && used[k] == x;
            assert(after.used[k] == x);
        }
        let at: int = if has_key(index, name) {
            index_of_key(index, name)
        } else {
            index.len() as int
        };
        let old_ids = attribution.ids_under(name);
        assert(after.index.len() > at >= 0);
        assert(after.index[at].1 == old_ids.push(id));
        assert(has_key(index, name) ==> index[at].1 == old_ids);
        assert forall|a: int| 0 <= a < after.index.len() && a != at implies after.index[a]
            == index[a] by {}
        assert forall|a: int, i: int|
            0 <= a < after.index.len() && 0 <= i < after.index[a].1.len() implies (a == at && i
                == old_ids.len() && after.index[a].1[i] == id) || (0 <= a < index.len() && 0 <= i
                < index[a].1.len() && #[trigger] after.index[a].1[i] == index[a].1[i]) by {
            if a == at {
                if i < old_ids.len() {
                    assert(has_key(index, name));
                }
            }
        }
        assert forall|a: int, i: int|
            0 <= a < after.index.len() && 0 <= i < after.index[a].1.len()
                implies after.used.contains(#[trigger] after.index[a].1[i]) && has_id(
            created,
            after.index[a].1[i],
        ) by {
            if !(a == at && i == old_ids.len()) {
                assert(used.contains(index[a].1[i]));
            }
        }
        assert forall|a: int, i: int, b: int, j: int|
            0 <= a < after.index.len() && 0 <= i < after.index[a].1.len() && 0 <= b
                < after.index.len() && 0 <= j < after.index[b].1.len() && (a != b || i != j)
                implies #[trigger] after.index[a].1[i] != #[trigger] after.index[b].1[j] by {
            let first_is_new = a == at && i == old_ids.len();
            let second_is_new = b == at && j == old_ids.len();
            if first_is_new {
                assert(used.contains(index[b].1[j]));
            } else if second_is_new {
                assert(used.contains(index[a].1[i]));
            } else {
                assert(index[a].1[i] != index[b].1[j]);
            }
        }
    }
}

/// Serving the payees of one content address keeps an attribution in order.
proof fn lemma_serve_payees(
    attribution: Attribution,
    name: ContentAddress,
    payees: Seq<(MainPubkey, Nano)>,
    created: Seq<CashNoteView>,
)
    requires
        attribution_in_order(attribution, created),
    ensures
        attribution_in_order(attribution.serve_payees(name, payees, created), created),
    decreases payees.len(),
{
    if payees.len() > 0 {
        lemma_serve_payees(attribution, name, payees.drop_last(), created);
        lemma_serve(
            attribution.serve_payees(name, payees.drop_last(), created),
            name,
            payees.last().0,
            created,
        );
    }
}

/// Serving every content address keeps an attribution in order.
proof fn lemma_serve_all(
    attribution: Attribution,
    requests: Seq<(ContentAddress, Seq<(MainPubkey, Nano)>)>,
    created: Seq<CashNoteView>,
)
    requires
        attribution_in_order(attribution, created),
    ensures
        attribution_in_order(attribution.serve_all(requests, created), created),
    decreases requests.len(),
{
    if requests.len() > 0 {
        lemma_serve_all(attribution, requests.drop_last(), created);
        lemma_serve_payees(
            attribution.serve_all(requests.drop_last(), created),
            requests.last().0,
            requests.last().1,
            created,
        );
    }
}

/// When the cash notes of one transfer are told apart by the content that
/// each pays for, no cash note is attributed twice: not to two content
/// addresses, even where these share a payee and an amount, and not twice to
/// one. And what is attributed is one of the cash notes of the transfer.
pub proof fn law_no_cash_note_pays_twice(
    requests: Seq<(ContentAddress, Seq<(MainPubkey, Nano)>)>,
    created: Seq<CashNoteView>,
)
    ensures
        distinct_keys(attributed(requests, created)),
        attributed_once(attributed(requests, created)),
        forall|a: int, i: int|
            0 <= a < attributed(requests, created).len() && 0 <= i < attributed(
                requests,
                created,
            )[a].1.len() ==> has_id(created, #[trigger] attributed(requests, created)[a].1[i]),
{
    lemma_serve_all(Attribution::start(), requests, created);
}

/// After a payment for storage went through, the index of the ledger holds,
/// for each content address that was paid for, just the cash notes that were
/// attributed to it, and each of them is listed as made for others.
pub proof fn law_payment_index_holds_created_cash_notes(
    state: WalletState,
    requests: Seq<(ContentAddress, Seq<(MainPubkey, Nano)>)>,
    transfer: TransferOutputsView,
)
    requires
        state.wf(),
        state.update(transfer).1 is Ok,
    ensures
        ({
            let after = state.paid(requests, Ok(transfer)).0;
            let index = attributed(requests, transfer.created_cash_notes);
            &&& state.paid(requests, Ok(transfer)).1 is Ok
            &&& after.wf()
            &&& after.dir.wallet == Some(ledger_bytes(after.ledger))
            &&& forall|a: int|
                0 <= a < index.len() ==> value_of(after.ledger.payments, (#[trigger] index[a]).0)
                    == Some(index[a].1)
            &&& forall|a: int, i: int|
                0 <= a < index.len() && 0 <= i < index[a].1.len()
                    ==> after.ledger.created_for_others.contains(#[trigger] index[a].1[i])
        }),
{
    let updated = state.update(transfer).0;
    let index = attributed(requests, transfer.created_cash_notes);
    lemma_update_wf(state, transfer);
    law_no_cash_note_pays_twice(requests, transfer.created_cash_notes);
    lemma_put_all(updated.ledger.payments, index);
    assert forall|a: int| 0 <= a < index.len() implies value_of(
        updated.ledger.record_payments(index).payments,
        (#[trigger] index[a]).0,
    ) == Some(index[a].1) by {
        lemma_index_of_key(index, a);
    }
    lemma_spend_wf(state.ledger, transfer.spent_ids());
    let spent = WalletState { ledger: state.ledger.spend(transfer.spent_ids()), ..state };
    let changed = match transfer.change_cash_note {
        Some(note) => spent.deposit(seq![note]).0,
        None => spent,
    };
    if let Some(note) = transfer.change_cash_note {
        lemma_deposit_frame(spent, seq![note]);
    }
    lemma_with_items(changed.ledger.created_for_others, transfer.created_ids());
    assert forall|a: int, i: int|
        0 <= a < index.len() && 0 <= i < index[a].1.len()
            implies updated.ledger.created_for_others.contains(#[trigger] index[a].1[i]) by {
        let id = index[a].1[i];
        assert(has_id(transfer.created_cash_notes, id));
        let k = choose|k: int|
            0 <= k < transfer.created_cash_notes.len() && (
            #[trigger] transfer.created_cash_notes[k]).id == id;
        assert(transfer.created_ids()[k] == id);
    }
}

} // verus!
