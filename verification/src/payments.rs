//! The index from the address of stored content to the cash notes that paid
//! for it.

use vstd::prelude::*;
use crate::amount::Nano;
use crate::cash_note::{copy_items, note_views, CashNote, CashNoteView};
use crate::codec::{
    append_array, append_list, append_u64, array_at, counted_bytes, lemma_array_at,
    lemma_parse_counted, lemma_u64_at, parse_counted, read_array, read_list, read_u64, u64_at,
    u64_bytes,
};
use crate::entries::{distinct_keys, has_key, lemma_index_of_key, lemma_put, put, put_all, value_of};
use crate::id_set::contains_id;
use crate::keys::{same_bytes, MainPubkey, UniquePubkey};

verus! {

/// The address of a piece of content: 32 bytes.
#[derive(Clone, Copy, Debug, PartialEq, Eq, PartialOrd, Ord, Hash)]
pub struct ContentAddress {
    pub bytes: [u8; 32],
}

impl ContentAddress {
    /// The address with the given bytes.
    pub fn new(bytes: [u8; 32]) -> (r: ContentAddress)
        ensures
            r.bytes == bytes,
    {
        ContentAddress { bytes }
    }

    /// Whether `other` is this same address.
    pub fn same(&self, other: &ContentAddress) -> (r: bool)
        ensures
            r == (*self == *other),
    {
        same_bytes(&self.bytes, &other.bytes)
    }
}

/// The pairs of `entries`, each list of identities as a sequence.
pub open spec fn payment_views(entries: Seq<(ContentAddress, Vec<UniquePubkey>)>) -> Seq<
    (ContentAddress, Seq<UniquePubkey>),
> {
    entries.map_values(|entry: (ContentAddress, Vec<UniquePubkey>)| (entry.0, entry.1@))
}

/// For each content address, the identities of the cash notes that paid for
/// it. No address occurs twice; the addresses stand in the order in which
/// they were first put in.
#[derive(Debug, PartialEq, Eq)]
pub struct ContentPaymentsIdMap {
    entries: Vec<(ContentAddress, Vec<UniquePubkey>)>,
}

impl View for ContentPaymentsIdMap {
    type V = Seq<(ContentAddress, Seq<UniquePubkey>)>;

    closed spec fn view(&self) -> Seq<(ContentAddress, Seq<UniquePubkey>)> {
        payment_views(self.entries@)
    }
}

impl ContentPaymentsIdMap {
    /// Whether no address occurs twice.
    pub open spec fn wf(&self) -> bool {
        distinct_keys(self@)
    }

    /// The index that holds nothing.
    pub fn new() -> (r: ContentPaymentsIdMap)
        ensures
            r@ == Seq::<(ContentAddress, Seq<UniquePubkey>)>::empty(),
            r.wf(),
    {
        let r = ContentPaymentsIdMap { entries: Vec::new() };
        assert(r@ =~= Seq::<(ContentAddress, Seq<UniquePubkey>)>::empty());
        r
    }

    /// The number of addresses in the index.
    pub fn len(&self) -> (r: usize)
        ensures
            r == self@.len(),
    {
        self.entries.len()
    }

    /// The addresses with their identities, in the order of the index.
    pub fn entries(&self) -> (r: &Vec<(ContentAddress, Vec<UniquePubkey>)>)
        ensures
            payment_views(r@) == self@,
    {
        &self.entries
    }

    /// The position of `name` in the index.
    fn position(&self, name: &ContentAddress) -> (r: Option<usize>)
        ensures
            match r {
                Some(i) => i < self@.len() && self@[i as int].0 == *name,
                None => !has_key(self@, *name),
            },
    {
        let mut i: usize = 0;
        while i < self.entries.len()
            invariant
                i <= self.entries.len(),
                self@.len() == self.entries.len(),
                forall|j: int| 0 <= j < i ==> (#[trigger] self@[j]).0 != *name,
            decreases self.entries.len() - i,
        {
            if self.entries[i].0.same(name) {
                return Some(i);
            }
            i += 1;
        }
        None
    }

    /// The identities recorded under `name`, where there are any.
    pub fn get(&self, name: &ContentAddress) -> (r: Option<&Vec<UniquePubkey>>)
        requires
            self.wf(),
        ensures
            match r {
                Some(ids) => value_of(self@, *name) == Some(ids@),
                None => value_of(self@, *name) is None,
            },
    {
        match self.position(name) {
            Some(i) => {
                proof {
                    lemma_index_of_key(self@, i as int);
                }
                Some(&self.entries[i].1)
            },
            None => None,
        }
    }

    /// Records `ids` under `name`, in the place of what was recorded there.
    pub fn insert(&mut self, name: ContentAddress, ids: Vec<UniquePubkey>)
        requires
            old(self).wf(),
        ensures
            final(self).wf(),
            final(self)@ == put(old(self)@, name, ids@),
    {
        proof {
            lemma_put(self@, name, ids@);
        }
        match self.position(&name) {
            Some(i) => {
                proof {
                    lemma_index_of_key(self@, i as int);
                }
                self.entries.set(i, (name, ids));
                assert(self@ =~= put(old(self)@, name, ids@));
            },
            None => {
                self.entries.push((name, ids));
                assert(self@ =~= put(old(self)@, name, ids@));
            },
        }
    }

    /// Adds `id` to what is recorded under `name`.
    pub fn push_id(&mut self, name: ContentAddress, id: UniquePubkey)
        requires
            old(self).wf(),
        ensures
            final(self).wf(),
            final(self)@ == put(
                old(self)@,
                name,
                (match value_of(old(self)@, name) {
                    Some(ids) => ids,
                    None => Seq::<UniquePubkey>::empty(),
                }).push(id),
            ),
    {
        let mut ids: Vec<UniquePubkey> = match self.get(&name) {
            Some(known) => copy_items(known),
            None => Vec::new(),
        };
        ids.push(id);
        self.insert(name, ids);
    }

    /// Puts every pair of `other` into this index, first to last; an address
    /// that both hold keeps its place and gets the identities of `other`.
    pub fn extend(&mut self, other: &ContentPaymentsIdMap)
        requires
            old(self).wf(),
        ensures
            final(self).wf(),
            final(self)@ == put_all(old(self)@, other@),
    {
        let mut i: usize = 0;
        while i < other.entries.len()
            invariant
                i <= other.entries.len(),
                other@.len() == other.entries.len(),
                self.wf(),
                self@ == put_all(old(self)@, other@.take(i as int)),
            decreases other.entries.len() - i,
        {
            let ids = copy_items(&other.entries[i].1);
            self.insert(other.entries[i].0, ids);
            proof {
                let next = other@.take(i + 1);
                assert(next.drop_last() =~= other@.take(i as int));
                assert(next.last() == other@[i as int]);
            }
            i += 1;
        }
        assert(other@.take(other@.len() as int) =~= other@);
    }
}

/// What is asked to be paid, as mathematical sequences: for each content
/// address, the payees with the amount due to each.
pub open spec fn payment_requests(
    all_data_payments: Seq<(ContentAddress, Vec<(MainPubkey, Nano)>)>,
) -> Seq<(ContentAddress, Seq<(MainPubkey, Nano)>)> {
    all_data_payments.map_values(
        |entry: (ContentAddress, Vec<(MainPubkey, Nano)>)| (entry.0, entry.1@),
    )
}

/// The identity of the first cash note of `created`, at or after position
/// `from`, that is made out to `payee` and is not among `used`.
pub open spec fn first_unused(
    created: Seq<CashNoteView>,
    payee: MainPubkey,
    used: Seq<UniquePubkey>,
    from: int,
) -> Option<UniquePubkey>
    decreases created.len() - from,
{
    if from < 0 || from >= created.len() {
        None
    } else if created[from].main_pubkey == payee && !used.contains(created[from].id) {
        Some(created[from].id)
    } else {
        first_unused(created, payee, used, from + 1)
    }
}

/// How far the cash notes of a transfer have been told apart: which identity
/// stands under which content address, and which identities are used up.
pub struct Attribution {
    /// For each content address, the identities attributed to it so far.
    pub index: Seq<(ContentAddress, Seq<UniquePubkey>)>,
    /// The identities attributed so far, in the order in which they were.
    pub used: Seq<UniquePubkey>,
}

impl Attribution {
    /// Nothing attributed yet.
    pub open spec fn start() -> Attribution {
        Attribution { index: Seq::empty(), used: Seq::empty() }
    }

    /// The identities that stand under `name`.
    pub open spec fn ids_under(self, name: ContentAddress) -> Seq<UniquePubkey> {
        match value_of(self.index, name) {
            Some(ids) => ids,
            None => Seq::empty(),
        }
    }

    /// The attribution after one payee of the content at `name` was served:
    /// the first cash note of `created` that is made out to the payee and not
    /// used up goes under `name` and is used up. Where there is none, nothing
    /// changes.
    pub open spec fn serve(self, name: ContentAddress, payee: MainPubkey, created: Seq<CashNoteView>)
        -> Attribution {
        match first_unused(created, payee, self.used, 0) {
            Some(id) => Attribution {
                index: put(self.index, name, self.ids_under(name).push(id)),
                used: self.used.push(id),
            },
            None => self,
        }
    }

    /// The attribution after the payees of the content at `name` were served,
    /// first to last.
    pub open spec fn serve_payees(
        self,
        name: ContentAddress,
        payees: Seq<(MainPubkey, Nano)>,
        created: Seq<CashNoteView>,
    ) -> Attribution
        decreases payees.len(),
    {
        if payees.len() == 0 {
            self
        } else {
            self.serve_payees(name, payees.drop_last(), created).serve(
                name,
                payees.last().0,
                created,
            )
        }
    }

    /// The attribution after every content address of `requests` had its
    /// payees served, first to last.
    pub open spec fn serve_all(
        self,
        requests: Seq<(ContentAddress, Seq<(MainPubkey, Nano)>)>,
        created: Seq<CashNoteView>,
    ) -> Attribution
        decreases requests.len(),
    {
        if requests.len() == 0 {
            self
        } else {
            self.serve_all(requests.drop_last(), created).serve_payees(
                requests.last().0,
                requests.last().1,
                created,
            )
        }
    }
}

/// The index that tells the cash notes of one transfer apart by the content
/// that each pays for.
pub open spec fn attributed(
    requests: Seq<(ContentAddress, Seq<(MainPubkey, Nano)>)>,
    created: Seq<CashNoteView>,
) -> Seq<(ContentAddress, Seq<UniquePubkey>)> {
    Attribution::start().serve_all(requests, created).index
}

/// The identity of the first cash note of `created` that is made out to
/// `payee` and is not among `used`.
fn find_unused(created: &Vec<CashNote>, payee: &MainPubkey, used: &Vec<UniquePubkey>) -> (r: Option<
    UniquePubkey,
>)
    ensures
        r == first_unused(note_views(created@), *payee, used@, 0),
{
    let mut i: usize = 0;
    while i < created.len()
        invariant
            i <= created.len(),
            first_unused(note_views(created@), *payee, used@, 0) == first_unused(
                note_views(created@),
                *payee,
                used@,
                i as int,
            ),
        decreases created.len() - i,
    {
        if created[i].main_pubkey().same(payee) && !contains_id(used, &created[i].id) {
            return Some(created[i].id);
        }
        i += 1;
    }
    None
}

/// Tells the cash notes that one transfer made apart by the content that each
/// pays for. For each content address of `all_data_payments` and each of its
/// payees, in order, the first cash note of `created_cash_notes` that is made
/// out to the payee and was not taken before goes under the address. So no
/// cash note stands under two addresses, even where two addresses share a
/// payee.
pub fn attribute_payments(
    all_data_payments: &Vec<(ContentAddress, Vec<(MainPubkey, Nano)>)>,
    created_cash_notes: &Vec<CashNote>,
) -> (r: ContentPaymentsIdMap)
    ensures
        r.wf(),
        r@ == attributed(payment_requests(all_data_payments@), note_views(created_cash_notes@)),
{
    let ghost requests = payment_requests(all_data_payments@);
    let ghost created = note_views(created_cash_notes@);
    let mut all_transfers_per_address = ContentPaymentsIdMap::new();
    let mut used_cash_notes: Vec<UniquePubkey> = Vec::new();
    let mut i: usize = 0;
    while i < all_data_payments.len()
        invariant
            i <= all_data_payments.len(),
            requests == payment_requests(all_data_payments@),
            created == note_views(created_cash_notes@),
            all_transfers_per_address.wf(),
            (Attribution { index: all_transfers_per_address@, used: used_cash_notes@ })
                == Attribution::start().serve_all(requests.take(i as int), created),
        decreases all_data_payments.len() - i,
    {
        let content_addr = all_data_payments[i].0;
        let payees = &all_data_payments[i].1;
        let ghost before = Attribution {
            index: all_transfers_per_address@,
            used: used_cash_notes@,
        };
        let mut j: usize = 0;
        while j < payees.len()
            invariant
                j <= payees.len(),
                created == note_views(created_cash_notes@),
                all_transfers_per_address.wf(),
                (Attribution { index: all_transfers_per_address@, used: used_cash_notes@ })
                    == before.serve_payees(content_addr, payees@.take(j as int), created),
            decreases payees.len() - j,
        {
            proof {
                let next = payees@.take(j + 1);
                assert(next.drop_last() =~= payees@.take(j as int));
                assert(next.last() == payees@[j as int]);
            }
            if let Some(id) = find_unused(created_cash_notes, &payees[j].0, &used_cash_notes) {
                used_cash_notes.push(id);
                all_transfers_per_address.push_id(content_addr, id);
            }
            j += 1;
        }
        proof {
            assert(payees@.take(payees@.len() as int) =~= payees@);
            let next = requests.take(i + 1);
            assert(next.drop_last() =~= requests.take(i as int));
            assert(next.last() == (content_addr, payees@));
        }
        i += 1;
    }
    assert(requests.take(requests.len() as int) =~= requests);
    all_transfers_per_address
}

/// The bytes that stand for the payments for one content: the 32 bytes of its
/// address, then the list of the identities that paid for it.
pub open spec fn payment_bytes(entry: (ContentAddress, Seq<UniquePubkey>)) -> Seq<u8> {
    entry.0.bytes@ + counted_bytes(entry.1)
}

/// The bytes of the payments of `entries`, one after the other.
pub open spec fn payment_list_bytes(entries: Seq<(ContentAddress, Seq<UniquePubkey>)>) -> Seq<u8>
    decreases entries.len(),
{
    if entries.len() == 0 {
        Seq::empty()
    } else {
        payment_list_bytes(entries.drop_last()) + payment_bytes(entries.last())
    }
}

/// The bytes that stand for an index of payments: the number of content
/// addresses, then the payments for each.
pub open spec fn payments_bytes(entries: Seq<(ContentAddress, Seq<UniquePubkey>)>) -> Seq<u8> {
    u64_bytes(entries.len() as u64) + payment_list_bytes(entries)
}

/// Whether the numbers of `entries` can be written in eight bytes each.
pub open spec fn payments_fit(entries: Seq<(ContentAddress, Seq<UniquePubkey>)>) -> bool {
    &&& entries.len() <= u64::MAX
    &&& forall|i: int| 0 <= i < entries.len() ==> (#[trigger] entries[i]).1.len() <= u64::MAX
}

/// The payments for one content that stand in `bytes` at `at`, and where they
/// end; `None` where `bytes` end before they do.
pub open spec fn parse_payment(bytes: Seq<u8>, at: int) -> Option<
    ((ContentAddress, Seq<UniquePubkey>), int),
> {
    if 0 <= at && at + 32 <= bytes.len() {
        match parse_counted::<UniquePubkey>(bytes, at + 32) {
            Some((ids, end)) => Some(
                ((ContentAddress { bytes: array_at::<32>(bytes, at) }, ids), end),
            ),
            None => None,
        }
    } else {
        None
    }
}

/// The payments for `n` contents that stand in `bytes` from `at` on, and where
/// they end; `None` where `bytes` end before they do.
pub open spec fn parse_payment_list(bytes: Seq<u8>, at: int, n: nat) -> Option<
    (Seq<(ContentAddress, Seq<UniquePubkey>)>, int),
>
    decreases n,
{
    if n == 0 {
        Some((Seq::empty(), at))
    } else {
        match parse_payment_list(bytes, at, (n - 1) as nat) {
            Some((front, end)) => match parse_payment(bytes, end) {
                Some((entry, after)) => Some((front.push(entry), after)),
                None => None,
            },
            None => None,
        }
    }
}

/// The index of payments that stands in `bytes` at `at`, and where it ends;
/// `None` where `bytes` end before it does.
pub open spec fn parse_payments(bytes: Seq<u8>, at: int) -> Option<
    (Seq<(ContentAddress, Seq<UniquePubkey>)>, int),
> {
    if 0 <= at && at + 8 <= bytes.len() {
        parse_payment_list(bytes, at + 8, u64_at(bytes, at) as nat)
    } else {
        None
    }
}

/// The payments for one content are read back from where their bytes stand.
pub proof fn lemma_parse_payment(
    before: Seq<u8>,
    entry: (ContentAddress, Seq<UniquePubkey>),
    after: Seq<u8>,
)
    requires
        entry.1.len() <= u64::MAX,
    ensures
        parse_payment(before + payment_bytes(entry) + after, before.len() as int) == Some(
            (entry, (before.len() + payment_bytes(entry).len()) as int),
        ),
{
    let bytes = before + payment_bytes(entry) + after;
    let ids = counted_bytes(entry.1);
    lemma_array_at(before, entry.0.bytes, ids + after);
    assert(bytes =~= before + entry.0.bytes@ + (ids + after));
    lemma_parse_counted(before + entry.0.bytes@, entry.1, after);
    assert(bytes =~= (before + entry.0.bytes@) + ids + after);
}

/// The payments of a list are read back from where their bytes stand.
pub proof fn lemma_parse_payment_list(
    before: Seq<u8>,
    entries: Seq<(ContentAddress, Seq<UniquePubkey>)>,
    after: Seq<u8>,
)
    requires
        payments_fit(entries),
    ensures
        parse_payment_list(
            before + payment_list_bytes(entries) + after,
            before.len() as int,
            entries.len(),
        ) == Some((entries, (before.len() + payment_list_bytes(entries).len()) as int)),
    decreases entries.len(),
{
    let bytes = before + payment_list_bytes(entries) + after;
    if entries.len() > 0 {
        let front = entries.drop_last();
        let last = entries.last();
        assert(payments_fit(front)) by {
            assert forall|i: int| 0 <= i < front.len() implies (#[trigger] front[i]).1.len()
                <= u64::MAX by {
                assert(entries[i].1.len() <= u64::MAX);
            }
        }
        assert(entries[entries.len() - 1].1.len() <= u64::MAX);
        assert(bytes =~= before + payment_list_bytes(front) + (payment_bytes(last) + after));
        lemma_parse_payment_list(before, front, payment_bytes(last) + after);
        assert(bytes =~= (before + payment_list_bytes(front)) + payment_bytes(last) + after);
        lemma_parse_payment(before + payment_list_bytes(front), last, after);
        assert(front.push(last) =~= entries);
    }
}

/// An index of payments is read back from the bytes that stand for it,
/// whatever stands before and after them.
pub proof fn lemma_parse_payments(
    before: Seq<u8>,
    entries: Seq<(ContentAddress, Seq<UniquePubkey>)>,
    after: Seq<u8>,
)
    requires
        payments_fit(entries),
    ensures
        parse_payments(before + payments_bytes(entries) + after, before.len() as int) == Some(
            (entries, (before.len() + payments_bytes(entries).len()) as int),
        ),
{
    let bytes = before + payments_bytes(entries) + after;
    let count = u64_bytes(entries.len() as u64);
    lemma_u64_at(before, entries.len() as u64, payment_list_bytes(entries) + after);
    assert(bytes =~= before + count + (payment_list_bytes(entries) + after));
    assert(bytes =~= (before + count) + payment_list_bytes(entries) + after);
    lemma_parse_payment_list(before + count, entries, after);
}

/// What is read as the payments for `n` contents begins with what is read as
/// the payments for fewer; and where reading fewer fails, reading `n` fails.
pub proof fn lemma_parse_payment_list_prefix(bytes: Seq<u8>, at: int, fewer: nat, n: nat)
    requires
        fewer <= n,
    ensures
        match parse_payment_list(bytes, at, n) {
            Some((entries, _)) => parse_payment_list(bytes, at, fewer) matches Some((front, _))
                && front == entries.take(fewer as int),
            None => true,
        },
        parse_payment_list(bytes, at, fewer) is None ==> parse_payment_list(bytes, at, n) is None,
    decreases n,
{
    if fewer < n {
        lemma_parse_payment_list_prefix(bytes, at, fewer, (n - 1) as nat);
        if let Some((entries, _)) = parse_payment_list(bytes, at, n) {
            let shorter = parse_payment_list(bytes, at, (n - 1) as nat).unwrap().0;
            lemma_parse_payment_list_len(bytes, at, (n - 1) as nat);
            assert(shorter.take(fewer as int) =~= entries.take(fewer as int));
        }
    } else {
        if let Some((entries, _)) = parse_payment_list(bytes, at, n) {
            lemma_parse_payment_list_len(bytes, at, n);
            assert(entries.take(n as int) =~= entries);
        }
    }
}

/// What is read as the payments for `n` contents has `n` entries.
pub proof fn lemma_parse_payment_list_len(bytes: Seq<u8>, at: int, n: nat)
    ensures
        parse_payment_list(bytes, at, n) matches Some((entries, _)) ==> entries.len() == n,
    decreases n,
{
    if n > 0 {
        lemma_parse_payment_list_len(bytes, at, (n - 1) as nat);
    }
}

impl ContentPaymentsIdMap {
    /// The numbers of an index in memory can be written in eight bytes each.
    pub proof fn lemma_fits(&self)
        ensures
            payments_fit(self@),
    {
        assert(self.entries.len() == self.entries@.len());
        assert forall|i: int| 0 <= i < self@.len() implies (#[trigger] self@[i]).1.len()
            <= u64::MAX by {
            assert(self.entries@[i].1.len() == self.entries@[i].1@.len());
        }
    }

    /// Writes the bytes that stand for the index behind `out`.
    pub fn append_to(&self, out: &mut Vec<u8>)
        ensures
            final(out)@ == old(out)@ + payments_bytes(self@),
    {
        append_u64(out, self.entries.len() as u64);
        let ghost start = out@;
        let mut i: usize = 0;
        while i < self.entries.len()
            invariant
                i <= self.entries.len(),
                self@.len() == self.entries.len(),
                out@ == start + payment_list_bytes(self@.take(i as int)),
            decreases self.entries.len() - i,
        {
            append_array(out, &self.entries[i].0.bytes);
            append_list(out, &self.entries[i].1);
            proof {
                let next = self@.take(i + 1);
                assert(next.drop_last() =~= self@.take(i as int));
                assert(next.last() == (self.entries@[i as int].0, self.entries@[i as int].1@));
                assert(out@ =~= start + payment_list_bytes(next));
            }
            i += 1;
        }
        assert(self@.take(self@.len() as int) =~= self@);
        assert(out@ =~= old(out)@ + payments_bytes(self@));
    }

    /// The index that stands in `bytes` at `at`, and where it ends. There is
    /// none where `bytes` end before the index does, and none where a content
    /// address stands twice.
    pub fn read_from(bytes: &[u8], at: usize) -> (r: Option<(ContentPaymentsIdMap, usize)>)
        requires
            at <= bytes@.len(),
        ensures
            match r {
                Some((index, end)) => parse_payments(bytes@, at as int) == Some(
                    (index@, end as int),
                ) && index.wf() && at + 8 <= end <= bytes@.len(),
                None => parse_payments(bytes@, at as int) matches Some((entries, _))
                    ==> !distinct_keys(entries),
            },
    {
        let len = bytes.len();
        if len - at < 8 {
            return None;
        }
        let n = read_u64(bytes, at);
        let mut index = ContentPaymentsIdMap::new();
        let mut end: usize = at + 8;
        let mut i: u64 = 0;
        while i < n
            invariant
                i <= n,
                at + 8 <= end <= len,
                len == bytes@.len(),
                n == u64_at(bytes@, at as int),
                index.wf(),
                index@.len() == i,
                parse_payment_list(bytes@, at + 8, i as nat) == Some((index@, end as int)),
            decreases n - i,
        {
            let ghost read = index@;
            let ghost next = (i + 1) as nat;
            proof {
                assert((next - 1) as nat == i as nat);
                lemma_parse_payment_list_prefix(bytes@, at + 8, next, n as nat);
            }
            if len - end < 32 {
                return None;
            }
            let name = ContentAddress { bytes: read_array::<32>(bytes, end) };
            let (ids, after) = match read_list::<UniquePubkey>(bytes, end + 32) {
                Some(found) => found,
                None => {
                    return None;
                },
            };
            assert(parse_payment_list(bytes@, at + 8, next) == Some(
                (read.push((name, ids@)), after as int),
            ));
            match index.position(&name) {
                Some(twin) => {
                    proof {
                        if let Some((entries, _)) = parse_payments(bytes@, at as int) {
                            lemma_parse_payment_list_len(bytes@, at + 8, n as nat);
                            let shorter = entries.take(next as int);
                            assert(shorter == read.push((name, ids@)));
                            assert(shorter[i as int] == entries[i as int]);
                            assert(shorter[twin as int] == entries[twin as int]);
                            assert(entries[twin as int].0 == entries[i as int].0);
                        }
                    }
                    return None;
                },
                None => {
                    proof {
                        lemma_put(read, name, ids@);
                    }
                    index.entries.push((name, ids));
                    assert(index@ =~= read.push((name, ids@)));
                },
            }
            end = after;
            i += 1;
        }
        Some((index, end))
    }
}

impl Clone for ContentPaymentsIdMap {
    fn clone(&self) -> (r: ContentPaymentsIdMap)
        ensures
            r@ == self@,
    {
        let mut entries: Vec<(ContentAddress, Vec<UniquePubkey>)> = Vec::new();
        let mut i: usize = 0;
        while i < self.entries.len()
            invariant
                i <= self.entries.len(),
                entries.len() == i,
                forall|j: int|
                    0 <= j < i ==> (#[trigger] entries@[j]).0 == self.entries@[j].0
                        && entries@[j].1@ == self.entries@[j].1@,
            decreases self.entries.len() - i,
        {
            entries.push((self.entries[i].0, copy_items(&self.entries[i].1)));
            i += 1;
        }
        assert(payment_views(entries@) =~= payment_views(self.entries@));
        ContentPaymentsIdMap { entries }
    }
}

} // verus!
