//! The ledger of a wallet: the cash notes it can spend, those it has spent,
//! those it made for others, and what it paid for which content.

use vstd::prelude::*;
use crate::amount::Nano;
use crate::cash_note::copy_items;
use crate::codec::{append_list, counted_bytes, lemma_parse_counted, parse_counted, read_list};
use crate::entries::{
    distinct_keys, has_key, index_of_key, lemma_index_of_key, lemma_put, lemma_with_items,
    lemma_without, lemma_without_none, put, put_all, value_of, with_items, without,
};
use crate::error::Error;
use crate::id_set::{all_distinct, contains_id, insert_ids};
use crate::keys::UniquePubkey;
use crate::payments::{
    lemma_parse_payments, parse_payments, payments_bytes, payments_fit, ContentAddress,
    ContentPaymentsIdMap,
};

verus! {

/// The sum of the amounts of `entries`.
pub open spec fn total(entries: Seq<(UniquePubkey, Nano)>) -> nat
    decreases entries.len(),
{
    if entries.len() == 0 {
        0
    } else {
        total(entries.drop_last()) + entries.last().1.value as nat
    }
}

/// The amount that `entries` holds under `id`, as a number; zero where it
/// holds none.
pub open spec fn amount_under(entries: Seq<(UniquePubkey, Nano)>, id: UniquePubkey) -> nat {
    match value_of(entries, id) {
        Some(amount) => amount.value as nat,
        None => 0,
    }
}

/// One more pair adds its amount to the sum.
pub proof fn lemma_total_push(entries: Seq<(UniquePubkey, Nano)>, entry: (UniquePubkey, Nano))
    ensures
        total(entries.push(entry)) == total(entries) + entry.1.value,
{
    assert(entries.push(entry).drop_last() =~= entries);
}

/// Another amount at one position changes the sum by the difference.
pub proof fn lemma_total_update(
    entries: Seq<(UniquePubkey, Nano)>,
    i: int,
    entry: (UniquePubkey, Nano),
)
    requires
        0 <= i < entries.len(),
    ensures
        total(entries.update(i, entry)) + entries[i].1.value == total(entries) + entry.1.value,
    decreases entries.len(),
{
    let after = entries.update(i, entry);
    if i == entries.len() - 1 {
        assert(after.drop_last() =~= entries.drop_last());
    } else {
        assert(after.drop_last() =~= entries.drop_last().update(i, entry));
        lemma_total_update(entries.drop_last(), i, entry);
    }
}

/// The sum over the first `n` pairs grows with `n` and stays under the whole sum.
pub proof fn lemma_total_take(entries: Seq<(UniquePubkey, Nano)>, n: int)
    requires
        0 <= n <= entries.len(),
    ensures
        total(entries.take(n)) <= total(entries),
        n < entries.len() ==> total(entries.take(n + 1)) == total(entries.take(n))
            + entries[n].1.value,
    decreases entries.len() - n,
{
    if n < entries.len() {
        assert(entries.take(n + 1).drop_last() =~= entries.take(n));
        lemma_total_take(entries, n + 1);
    } else {
        assert(entries.take(n) =~= entries);
    }
}

/// Putting an amount under an identity changes the sum by the difference to
/// what stood there.
pub proof fn lemma_total_put(entries: Seq<(UniquePubkey, Nano)>, id: UniquePubkey, amount: Nano)
    requires
        distinct_keys(entries),
    ensures
        total(put(entries, id, amount)) + amount_under(entries, id) == total(entries)
            + amount.value,
{
    if has_key(entries, id) {
        let at = index_of_key(entries, id);
        lemma_total_update(entries, at, (id, amount));
    } else {
        lemma_total_push(entries, (id, amount));
    }
}

/// Taking pairs out does not raise the sum.
pub proof fn lemma_total_without(entries: Seq<(UniquePubkey, Nano)>, ids: Seq<UniquePubkey>)
    ensures
        total(without(entries, ids)) <= total(entries),
    decreases entries.len(),
{
    if entries.len() > 0 {
        lemma_total_without(entries.drop_last(), ids);
        if !ids.contains(entries.last().0) {
            lemma_total_push(without(entries.drop_last(), ids), entries.last());
        }
    }
}

/// Taking one cash note out lowers the sum by its amount.
pub proof fn lemma_total_without_one(entries: Seq<(UniquePubkey, Nano)>, id: UniquePubkey)
    requires
        distinct_keys(entries),
    ensures
        total(without(entries, seq![id])) + amount_under(entries, id) == total(entries),
    decreases entries.len(),
{
    let one = seq![id];
    assert(one[0] == id);
    if entries.len() > 0 {
        let front = entries.drop_last();
        let last = entries.last();
        assert(front.push(last) =~= entries);
        assert(distinct_keys(front)) by {
            assert forall|i: int, j: int| 0 <= i < j < front.len() implies (#[trigger] front[i]).0
                != (#[trigger] front[j]).0 by {
                assert(entries[i].0 != entries[j].0);
            }
        }
        assert(!has_key(front, last.0)) by {
            if has_key(front, last.0) {
                let i = index_of_key(front, last.0);
                assert(entries[i].0 != entries[entries.len() - 1].0);
            }
        }
        assert(put(front, last.0, last.1) == entries);
        lemma_put(front, last.0, last.1);
        assert(one.contains(last.0) <==> last.0 == id);
        if last.0 == id {
            assert forall|i: int| 0 <= i < front.len() implies !one.contains(
                (#[trigger] front[i]).0,
            ) by {
                assert(has_key(front, front[i].0));
            }
            lemma_without_none(front, one);
        } else {
            lemma_total_without_one(front, id);
            lemma_total_push(without(front, one), last);
        }
    }
}

/// What a ledger holds, as mathematical sequences. Each sequence is in the
/// order in which its items were first put in.
pub struct LedgerState {
    /// The cash notes that can be spent, each with its amount.
    pub available: Seq<(UniquePubkey, Nano)>,
    /// The cash notes that were made for other wallets.
    pub created_for_others: Seq<UniquePubkey>,
    /// The cash notes that were spent.
    pub spent: Seq<UniquePubkey>,
    /// For each content address, the cash notes that paid for it.
    pub payments: Seq<(ContentAddress, Seq<UniquePubkey>)>,
}

impl LedgerState {
    /// The ledger that holds nothing.
    pub open spec fn empty() -> LedgerState {
        LedgerState {
            available: Seq::empty(),
            created_for_others: Seq::empty(),
            spent: Seq::empty(),
            payments: Seq::empty(),
        }
    }

    /// Whether the ledger is in order: nothing is listed twice, no cash note is
    /// both available and spent, and the balance can be counted in 64 bits.
    pub open spec fn wf(self) -> bool {
        &&& distinct_keys(self.available)
        &&& self.created_for_others.no_duplicates()
        &&& self.spent.no_duplicates()
        &&& distinct_keys(self.payments)
        &&& forall|id: UniquePubkey| !(has_key(self.available, id) && self.spent.contains(id))
        &&& total(self.available) <= u64::MAX
    }

    /// Whether the numbers of items in the ledger can be written in eight
    /// bytes each.
    pub open spec fn fits(self) -> bool {
        &&& self.available.len() <= u64::MAX
        &&& self.created_for_others.len() <= u64::MAX
        &&& self.spent.len() <= u64::MAX
        &&& payments_fit(self.payments)
    }

    /// The balance: the sum of the amounts of the available cash notes.
    pub open spec fn balance(self) -> nat {
        total(self.available)
    }

    /// What the balance would be with `amount` under `id`.
    pub open spec fn balance_with(self, id: UniquePubkey, amount: Nano) -> int {
        total(self.available) - amount_under(self.available, id) + amount.value
    }

    /// The ledger with `amount` available under `id`.
    pub open spec fn accept(self, id: UniquePubkey, amount: Nano) -> LedgerState {
        LedgerState { available: put(self.available, id, amount), ..self }
    }

    /// The ledger after `ids` were spent: none of them is available any more,
    /// and each of them is listed as spent.
    pub open spec fn spend(self, ids: Seq<UniquePubkey>) -> LedgerState {
        LedgerState {
            available: without(self.available, ids),
            spent: with_items(self.spent, ids),
            ..self
        }
    }

    /// The ledger after `ids` were listed as made for others.
    pub open spec fn create_for_others(self, ids: Seq<UniquePubkey>) -> LedgerState {
        LedgerState { created_for_others: with_items(self.created_for_others, ids), ..self }
    }

    /// The ledger after the payments of `more` were put into its index; for an
    /// address that the index held already, what `more` holds replaces it.
    pub open spec fn record_payments(self, more: Seq<(ContentAddress, Seq<UniquePubkey>)>)
        -> LedgerState {
        LedgerState { payments: put_all(self.payments, more), ..self }
    }

    /// What becomes of the ledger, and what is reported, when `amount` is to be
    /// made available under `id`: a spent cash note is passed over
    /// (`Ok(false)`); an amount that would take the balance past 64 bits is
    /// refused; otherwise the amount is taken in (`Ok(true)`).
    pub open spec fn insert_available(self, id: UniquePubkey, amount: Nano) -> (
        LedgerState,
        Result<bool, Error>,
    ) {
        if self.spent.contains(id) {
            (self, Ok(false))
        } else if self.balance_with(id, amount) > u64::MAX {
            (self, Err(Error::BalanceOverflow))
        } else {
            (self.accept(id, amount), Ok(true))
        }
    }
}

/// The bytes in which a ledger is saved: the list of the available cash notes
/// with their amounts, the list of the cash notes made for others, the list
/// of the spent cash notes, and the index of payments.
pub open spec fn ledger_bytes(state: LedgerState) -> Seq<u8> {
    counted_bytes(state.available) + counted_bytes(state.created_for_others) + counted_bytes(
        state.spent,
    ) + payments_bytes(state.payments)
}

/// The ledger that `bytes` stand for, in order or not; `None` where they
/// stand for none.
pub open spec fn parse_ledger(bytes: Seq<u8>) -> Option<LedgerState> {
    match parse_counted::<(UniquePubkey, Nano)>(bytes, 0) {
        Some((available, after_available)) => match parse_counted::<UniquePubkey>(
            bytes,
            after_available,
        ) {
            Some((created_for_others, after_created)) => match parse_counted::<UniquePubkey>(
                bytes,
                after_created,
            ) {
                Some((spent, after_spent)) => match parse_payments(bytes, after_spent) {
                    Some((payments, end)) => if end == bytes.len() {
                        Some(LedgerState { available, created_for_others, spent, payments })
                    } else {
                        None
                    },
                    None => None,
                },
                None => None,
            },
            None => None,
        },
        None => None,
    }
}

/// The ledger that is loaded from `bytes`: the one that they stand for, as
/// long as it is in order.
pub open spec fn read_ledger(bytes: Seq<u8>) -> Result<LedgerState, Error> {
    match parse_ledger(bytes) {
        Some(state) => if state.wf() {
            Ok(state)
        } else {
            Err(Error::MalformedWallet)
        },
        None => Err(Error::MalformedWallet),
    }
}

/// A ledger is read back from the bytes in which it is saved.
pub proof fn lemma_parse_ledger(state: LedgerState)
    requires
        state.fits(),
    ensures
        parse_ledger(ledger_bytes(state)) == Some(state),
{
    let available = counted_bytes(state.available);
    let created = counted_bytes(state.created_for_others);
    let spent = counted_bytes(state.spent);
    let payments = payments_bytes(state.payments);
    let bytes = ledger_bytes(state);
    let nothing = Seq::<u8>::empty();
    lemma_parse_counted(nothing, state.available, created + spent + payments);
    assert(bytes =~= nothing + available + (created + spent + payments));
    lemma_parse_counted(available, state.created_for_others, spent + payments);
    assert(bytes =~= available + created + (spent + payments));
    lemma_parse_counted(available + created, state.spent, payments);
    assert(bytes =~= (available + created) + spent + payments);
    lemma_parse_payments(available + created + spent, state.payments, nothing);
    assert(bytes =~= (available + created + spent) + payments + nothing);
}

/// Taking an amount in keeps the ledger in order, as long as the cash note
/// was not spent and the new balance can be counted.
pub proof fn lemma_accept_wf(state: LedgerState, id: UniquePubkey, amount: Nano)
    requires
        state.wf(),
        !state.spent.contains(id),
        state.balance_with(id, amount) <= u64::MAX,
    ensures
        state.accept(id, amount).wf(),
        state.accept(id, amount).balance() == state.balance_with(id, amount),
{
    lemma_put(state.available, id, amount);
    lemma_total_put(state.available, id, amount);
}

/// Spending keeps the ledger in order, leaves none of the spent cash notes
/// available, lists each of them as spent, and forgets no earlier spend.
pub proof fn lemma_spend_wf(state: LedgerState, ids: Seq<UniquePubkey>)
    requires
        state.wf(),
    ensures
        state.spend(ids).wf(),
        state.spend(ids).balance() <= state.balance(),
        forall|id: UniquePubkey|
            #![trigger state.spend(ids).spent.contains(id)]
            state.spend(ids).spent.contains(id) <==> (ids.contains(id) || state.spent.contains(
                id,
            )),
        forall|id: UniquePubkey|
            #![trigger has_key(state.spend(ids).available, id)]
            has_key(state.spend(ids).available, id) <==> (has_key(state.available, id)
                && !ids.contains(id)),
{
    lemma_without(state.available, ids);
    lemma_total_without(state.available, ids);
    lemma_with_items(state.spent, ids);
}

/// The ledger of a wallet, without the key that spends from it.
#[derive(Debug, PartialEq, Eq)]
pub struct KeyLessWallet {
    available_cash_notes: Vec<(UniquePubkey, Nano)>,
    cash_notes_created_for_others: Vec<UniquePubkey>,
    spent_cash_notes: Vec<UniquePubkey>,
    payment_transactions: ContentPaymentsIdMap,
}

impl View for KeyLessWallet {
    type V = LedgerState;

    closed spec fn view(&self) -> LedgerState {
        LedgerState {
            available: self.available_cash_notes@,
            created_for_others: self.cash_notes_created_for_others@,
            spent: self.spent_cash_notes@,
            payments: self.payment_transactions@,
        }
    }
}

impl KeyLessWallet {
    /// Whether the ledger is in order.
    pub open spec fn wf(&self) -> bool {
        self@.wf()
    }

    /// The ledger that holds nothing.
    pub fn new() -> (r: KeyLessWallet)
        ensures
            r@ == LedgerState::empty(),
            r.wf(),
    {
        KeyLessWallet {
            available_cash_notes: Vec::new(),
            cash_notes_created_for_others: Vec::new(),
            spent_cash_notes: Vec::new(),
            payment_transactions: ContentPaymentsIdMap::new(),
        }
    }

    /// The ledger that holds what is given, as long as that is in order:
    /// nothing listed twice, no cash note both available and spent, and a
    /// balance that can be counted in 64 bits. This is how a saved ledger comes
    /// back.
    pub fn from_parts(
        available_cash_notes: Vec<(UniquePubkey, Nano)>,
        cash_notes_created_for_others: Vec<UniquePubkey>,
        spent_cash_notes: Vec<UniquePubkey>,
        payment_transactions: ContentPaymentsIdMap,
    ) -> (r: Result<KeyLessWallet, Error>)
        requires
            payment_transactions.wf(),
        ensures
            ({
                let given = LedgerState {
                    available: available_cash_notes@,
                    created_for_others: cash_notes_created_for_others@,
                    spent: spent_cash_notes@,
                    payments: payment_transactions@,
                };
                match r {
                    Ok(wallet) => given.wf() && wallet@ == given,
                    Err(failure) => !given.wf() && failure == Error::MalformedWallet,
                }
            }),
    {
        if !all_distinct(&cash_notes_created_for_others) || !all_distinct(&spent_cash_notes) {
            return Err(Error::MalformedWallet);
        }
        let mut sum: u64 = 0;
        let mut i: usize = 0;
        while i < available_cash_notes.len()
            invariant
                i <= available_cash_notes.len(),
                sum == total(available_cash_notes@.take(i as int)),
                distinct_keys(available_cash_notes@.take(i as int)),
                forall|j: int|
                    0 <= j < i ==> !spent_cash_notes@.contains(
                        (#[trigger] available_cash_notes@[j]).0,
                    ),
            decreases available_cash_notes.len() - i,
        {
            let ghost seen = available_cash_notes@.take(i as int);
            let ghost next = available_cash_notes@.take(i + 1);
            let id = available_cash_notes[i].0;
            let amount = available_cash_notes[i].1.as_nano();
            proof {
                lemma_total_take(available_cash_notes@, i as int);
                lemma_total_take(available_cash_notes@, i + 1);
                assert(next.drop_last() =~= seen);
            }
            if contains_id(&spent_cash_notes, &id) {
                proof {
                    assert(has_key(available_cash_notes@, id));
                }
                return Err(Error::MalformedWallet);
            }
            if amount > u64::MAX - sum {
                return Err(Error::MalformedWallet);
            }
            let mut j: usize = 0;
            while j < i
                invariant
                    j <= i,
                    i < available_cash_notes.len(),
                    id == available_cash_notes@[i as int].0,
                    forall|a: int| 0 <= a < j ==> (#[trigger] available_cash_notes@[a]).0 != id,
                decreases i - j,
            {
                if available_cash_notes[j].0.same(&id) {
                    proof {
                        assert(available_cash_notes@[j as int].0
                            == available_cash_notes@[i as int].0);
                    }
                    return Err(Error::MalformedWallet);
                }
                j += 1;
            }
            proof {
                assert forall|a: int, b: int| 0 <= a < b < next.len() implies (#[trigger] next[a]).0
                    != (#[trigger] next[b]).0 by {
                    if b < i {
                        assert(seen[a].0 != seen[b].0);
                    } else {
                        assert(available_cash_notes@[a].0 != id);
                    }
                }
            }
            sum = sum + amount;
            i += 1;
        }
        proof {
            assert(available_cash_notes@.take(i as int) =~= available_cash_notes@);
            assert forall|id: UniquePubkey|
                !(has_key(available_cash_notes@, id) && spent_cash_notes@.contains(id)) by {
                if has_key(available_cash_notes@, id) {
                    let at = index_of_key(available_cash_notes@, id);
                    assert(!spent_cash_notes@.contains(available_cash_notes@[at].0));
                }
            }
        }
        Ok(
            KeyLessWallet {
                available_cash_notes,
                cash_notes_created_for_others,
                spent_cash_notes,
                payment_transactions,
            },
        )
    }

    /// The numbers of items of a ledger in memory can be written in eight
    /// bytes each.
    pub proof fn lemma_fits(&self)
        ensures
            self@.fits(),
    {
        assert(self.available_cash_notes.len() == self.available_cash_notes@.len());
        assert(self.cash_notes_created_for_others.len()
            == self.cash_notes_created_for_others@.len());
        assert(self.spent_cash_notes.len() == self.spent_cash_notes@.len());
        self.payment_transactions.lemma_fits();
    }

    /// The bytes in which the ledger is saved.
    pub fn to_bytes(&self) -> (r: Vec<u8>)
        ensures
            r@ == ledger_bytes(self@),
            self@.fits(),
    {
        proof {
            assert(self.available_cash_notes.len() == self.available_cash_notes@.len());
            assert(self.cash_notes_created_for_others.len()
                == self.cash_notes_created_for_others@.len());
            assert(self.spent_cash_notes.len() == self.spent_cash_notes@.len());
            self.payment_transactions.lemma_fits();
        }
        let mut r: Vec<u8> = Vec::new();
        append_list(&mut r, &self.available_cash_notes);
        append_list(&mut r, &self.cash_notes_created_for_others);
        append_list(&mut r, &self.spent_cash_notes);
        self.payment_transactions.append_to(&mut r);
        assert(r@ =~= ledger_bytes(self@));
        r
    }

    /// The ledger that was saved in `bytes`. It is a failure if the bytes
    /// stand for no ledger, or for one that is not in order.
    pub fn from_bytes(bytes: &[u8]) -> (r: Result<KeyLessWallet, Error>)
        ensures
            match r {
                Ok(wallet) => wallet.wf() && read_ledger(bytes@) == Ok::<LedgerState, Error>(
                    wallet@,
                ),
                Err(failure) => failure == Error::MalformedWallet && read_ledger(bytes@) is Err,
            },
    {
        let (available_cash_notes, after_available) = match read_list::<(UniquePubkey, Nano)>(
            bytes,
            0,
        ) {
            Some(found) => found,
            None => {
                return Err(Error::MalformedWallet);
            },
        };
        let (cash_notes_created_for_others, after_created) = match read_list::<UniquePubkey>(
            bytes,
            after_available,
        ) {
            Some(found) => found,
            None => {
                return Err(Error::MalformedWallet);
            },
        };
        let (spent_cash_notes, after_spent) = match read_list::<UniquePubkey>(
            bytes,
            after_created,
        ) {
            Some(found) => found,
            None => {
                return Err(Error::MalformedWallet);
            },
        };
        let (payment_transactions, end) = match ContentPaymentsIdMap::read_from(
            bytes,
            after_spent,
        ) {
            Some(found) => found,
            None => {
                return Err(Error::MalformedWallet);
            },
        };
        if end != bytes.len() {
            return Err(Error::MalformedWallet);
        }
        KeyLessWallet::from_parts(
            available_cash_notes,
            cash_notes_created_for_others,
            spent_cash_notes,
            payment_transactions,
        )
    }

    /// The balance: the sum of the amounts of the available cash notes.
    pub fn balance(&self) -> (r: Nano)
        requires
            self.wf(),
        ensures
            r.value == self@.balance(),
    {
        let mut balance: u64 = 0;
        let mut i: usize = 0;
        while i < self.available_cash_notes.len()
            invariant
                i <= self.available_cash_notes.len(),
                balance == total(self.available_cash_notes@.take(i as int)),
                total(self.available_cash_notes@) <= u64::MAX,
            decreases self.available_cash_notes.len() - i,
        {
            proof {
                lemma_total_take(self.available_cash_notes@, i as int);
                lemma_total_take(self.available_cash_notes@, i + 1);
            }
            balance = balance + self.available_cash_notes[i].1.as_nano();
            i += 1;
        }
        assert(self.available_cash_notes@.take(i as int) =~= self.available_cash_notes@);
        Nano::from(balance)
    }

    /// The available cash notes with their amounts.
    pub fn available_cash_notes(&self) -> (r: &Vec<(UniquePubkey, Nano)>)
        ensures
            r@ == self@.available,
    {
        &self.available_cash_notes
    }

    /// The cash notes that were made for other wallets.
    pub fn cash_notes_created_for_others(&self) -> (r: &Vec<UniquePubkey>)
        ensures
            r@ == self@.created_for_others,
    {
        &self.cash_notes_created_for_others
    }

    /// The cash notes that were spent.
    pub fn spent_cash_notes(&self) -> (r: &Vec<UniquePubkey>)
        ensures
            r@ == self@.spent,
    {
        &self.spent_cash_notes
    }

    /// The index of what was paid for which content.
    pub fn payment_transactions(&self) -> (r: &ContentPaymentsIdMap)
        ensures
            r@ == self@.payments,
    {
        &self.payment_transactions
    }

    /// Whether the cash note `id` was spent.
    pub fn is_spent(&self, id: &UniquePubkey) -> (r: bool)
        ensures
            r == self@.spent.contains(*id),
    {
        contains_id(&self.spent_cash_notes, id)
    }

    /// The position of `id` among the available cash notes.
    fn position(&self, id: &UniquePubkey) -> (r: Option<usize>)
        ensures
            match r {
                Some(i) => i < self@.available.len() && self@.available[i as int].0 == *id,
                None => !has_key(self@.available, *id),
            },
    {
        let mut i: usize = 0;
        while i < self.available_cash_notes.len()
            invariant
                i <= self.available_cash_notes.len(),
                forall|j: int| 0 <= j < i ==> (#[trigger] self.available_cash_notes@[j]).0 != *id,
            decreases self.available_cash_notes.len() - i,
        {
            if self.available_cash_notes[i].0.same(id) {
                return Some(i);
            }
            i += 1;
        }
        None
    }

    /// The amount that is available under `id`, if the cash note is available.
    pub fn available_amount(&self, id: &UniquePubkey) -> (r: Option<Nano>)
        requires
            self.wf(),
        ensures
            r == value_of(self@.available, *id),
    {
        match self.position(id) {
            Some(i) => {
                proof {
                    lemma_index_of_key(self@.available, i as int);
                }
                Some(self.available_cash_notes[i].1)
            },
            None => None,
        }
    }

    /// Makes `amount` available under `id`, in the place of what was available
    /// under it. A spent cash note is not taken in, and neither is an amount
    /// that would take the balance past what 64 bits can count.
    pub fn insert_available(&mut self, id: UniquePubkey, amount: Nano) -> (r: Result<bool, Error>)
        requires
            old(self).wf(),
        ensures
            final(self).wf(),
            (final(self)@, r) == old(self)@.insert_available(id, amount),
    {
        if self.is_spent(&id) {
            return Ok(false);
        }
        let balance = self.balance().as_nano();
        match self.position(&id) {
            Some(i) => {
                proof {
                    lemma_index_of_key(self@.available, i as int);
                    lemma_total_update(self@.available, i as int, (id, amount));
                    lemma_total_update(self@.available, i as int, (id, Nano { value: 0 }));
                }
                let rest: u64 = balance - self.available_cash_notes[i].1.as_nano();
                if amount.as_nano() > u64::MAX - rest {
                    return Err(Error::BalanceOverflow);
                }
                proof {
                    lemma_accept_wf(self@, id, amount);
                }
                self.available_cash_notes.set(i, (id, amount));
            },
            None => {
                if amount.as_nano() > u64::MAX - balance {
                    return Err(Error::BalanceOverflow);
                }
                proof {
                    lemma_accept_wf(self@, id, amount);
                }
                self.available_cash_notes.push((id, amount));
            },
        }
        Ok(true)
    }

    /// Spends the cash notes `ids`: takes each out of the available ones and
    /// lists it as spent. One that was not available is listed all the same.
    pub fn mark_spent(&mut self, ids: &Vec<UniquePubkey>)
        requires
            old(self).wf(),
        ensures
            final(self).wf(),
            final(self)@ == old(self)@.spend(ids@),
    {
        let mut kept: Vec<(UniquePubkey, Nano)> = Vec::new();
        let mut i: usize = 0;
        while i < self.available_cash_notes.len()
            invariant
                i <= self.available_cash_notes.len(),
                kept@ == without(self.available_cash_notes@.take(i as int), ids@),
            decreases self.available_cash_notes.len() - i,
        {
            proof {
                let next = self.available_cash_notes@.take(i + 1);
                assert(next.drop_last() =~= self.available_cash_notes@.take(i as int));
                assert(next.last() == self.available_cash_notes@[i as int]);
            }
            if !contains_id(ids, &self.available_cash_notes[i].0) {
                kept.push(self.available_cash_notes[i]);
            }
            i += 1;
        }
        proof {
            assert(self.available_cash_notes@.take(i as int) =~= self.available_cash_notes@);
            lemma_spend_wf(self@, ids@);
        }
        self.available_cash_notes = kept;
        insert_ids(&mut self.spent_cash_notes, ids);
    }

    /// Lists the cash notes `ids` as made for other wallets.
    pub fn mark_created_for_others(&mut self, ids: &Vec<UniquePubkey>)
        requires
            old(self).wf(),
        ensures
            final(self).wf(),
            final(self)@ == old(self)@.create_for_others(ids@),
    {
        proof {
            lemma_with_items(self@.created_for_others, ids@);
        }
        insert_ids(&mut self.cash_notes_created_for_others, ids);
    }

    /// Puts the payments of `proofs` into the index; for an address that the
    /// index held already, what `proofs` holds replaces it.
    pub fn add_payments(&mut self, proofs: &ContentPaymentsIdMap)
        requires
            old(self).wf(),
        ensures
            final(self).wf(),
            final(self)@ == old(self)@.record_payments(proofs@),
    {
        self.payment_transactions.extend(proofs);
    }

    /// The cash notes that paid for the content at `name`, if the index knows
    /// of any.
    pub fn payment_ids(&self, name: &ContentAddress) -> (r: Option<&Vec<UniquePubkey>>)
        requires
            self.wf(),
        ensures
            match r {
                Some(ids) => value_of(self@.payments, *name) == Some(ids@),
                None => value_of(self@.payments, *name) is None,
            },
    {
        self.payment_transactions.get(name)
    }
}

impl Clone for KeyLessWallet {
    fn clone(&self) -> (r: KeyLessWallet)
        ensures
            r@ == self@,
    {
        KeyLessWallet {
            available_cash_notes: copy_items(&self.available_cash_notes),
            cash_notes_created_for_others: copy_items(&self.cash_notes_created_for_others),
            spent_cash_notes: copy_items(&self.spent_cash_notes),
            payment_transactions: self.payment_transactions.clone(),
        }
    }
}

} // verus!
