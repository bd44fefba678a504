//! The spends that wait for the network to confirm them.

use vstd::prelude::*;
use crate::codec::{append_list, counted_bytes, lemma_parse_counted, parse_counted, read_list};
use crate::entries::{lemma_with_item, with_item, with_items};
use crate::error::Error;
use crate::transfer::SpendRequest;

verus! {

/// The spends that `bytes` stand for, in their order; `None` where they stand
/// for no list of spends.
pub open spec fn parse_requests(bytes: Seq<u8>) -> Option<Seq<SpendRequest>> {
    match parse_counted::<SpendRequest>(bytes, 0) {
        Some((requests, end)) => if end == bytes.len() {
            Some(requests)
        } else {
            None
        },
        None => None,
    }
}

/// Spends are read back, in their order, from the bytes in which they are
/// saved.
pub proof fn lemma_parse_requests(requests: Seq<SpendRequest>)
    requires
        requests.len() <= u64::MAX,
    ensures
        parse_requests(counted_bytes(requests)) == Some(requests),
{
    let nothing = Seq::<u8>::empty();
    lemma_parse_counted(nothing, requests, nothing);
    assert(counted_bytes(requests) =~= nothing + counted_bytes(requests) + nothing);
}

/// The spends that the network has not confirmed yet: each once, in the order
/// in which they were first added. The order matters when they are handed to
/// the network again, since a later spend may rest on an earlier one.
#[derive(Debug, PartialEq, Eq)]
pub struct PendingSpends {
    requests: Vec<SpendRequest>,
}

impl View for PendingSpends {
    type V = Seq<SpendRequest>;

    closed spec fn view(&self) -> Seq<SpendRequest> {
        self.requests@
    }
}

impl PendingSpends {
    /// Whether no spend waits twice.
    pub open spec fn wf(&self) -> bool {
        self@.no_duplicates()
    }

    /// No spends.
    pub fn new() -> (r: PendingSpends)
        ensures
            r@ == Seq::<SpendRequest>::empty(),
            r.wf(),
    {
        PendingSpends { requests: Vec::new() }
    }

    /// Whether no spend waits.
    pub fn is_empty(&self) -> (r: bool)
        ensures
            r == (self@.len() == 0),
    {
        self.requests.len() == 0
    }

    /// The number of spends that wait.
    pub fn len(&self) -> (r: usize)
        ensures
            r == self@.len(),
    {
        self.requests.len()
    }

    /// Whether `request` is among the spends that wait.
    pub fn contains(&self, request: &SpendRequest) -> (r: bool)
        ensures
            r == self@.contains(*request),
    {
        let mut i: usize = 0;
        while i < self.requests.len()
            invariant
                i <= self.requests.len(),
                forall|j: int| 0 <= j < i ==> self.requests@[j] != *request,
            decreases self.requests.len() - i,
        {
            if self.requests[i].same(request) {
                return true;
            }
            i += 1;
        }
        false
    }

    /// Adds `request` behind the spends that wait, unless it waits already.
    pub fn add(&mut self, request: SpendRequest)
        requires
            old(self).wf(),
        ensures
            final(self).wf(),
            final(self)@ == with_item(old(self)@, request),
    {
        proof {
            lemma_with_item(self@, request);
        }
        if !self.contains(&request) {
            self.requests.push(request);
        }
    }

    /// Adds each spend of `requests`, first to last, unless it waits already.
    pub fn add_all(&mut self, requests: &Vec<SpendRequest>)
        requires
            old(self).wf(),
        ensures
            final(self).wf(),
            final(self)@ == with_items(old(self)@, requests@),
    {
        let mut i: usize = 0;
        while i < requests.len()
            invariant
                i <= requests.len(),
                self.wf(),
                self@ == with_items(old(self)@, requests@.take(i as int)),
            decreases requests.len() - i,
        {
            self.add(requests[i]);
            proof {
                let next = requests@.take(i + 1);
                assert(next.drop_last() =~= requests@.take(i as int));
                assert(next.last() == requests@[i as int]);
            }
            i += 1;
        }
        assert(requests@.take(requests@.len() as int) =~= requests@);
    }

    /// Forgets every spend.
    pub fn clear(&mut self)
        ensures
            final(self).wf(),
            final(self)@ == Seq::<SpendRequest>::empty(),
    {
        self.requests = Vec::new();
    }

    /// The number of spends that wait in memory can be written in eight bytes.
    pub proof fn lemma_fits(&self)
        ensures
            self@.len() <= u64::MAX,
    {
        assert(self.requests.len() == self.requests@.len());
    }

    /// The bytes in which the spends are saved: their number, then each spend
    /// in 216 bytes, in the order in which they were added.
    pub fn to_bytes(&self) -> (r: Vec<u8>)
        ensures
            r@ == counted_bytes(self@),
            self@.len() <= u64::MAX,
    {
        assert(self.requests.len() == self.requests@.len());
        let mut r: Vec<u8> = Vec::new();
        append_list(&mut r, &self.requests);
        assert(r@ =~= counted_bytes(self@));
        r
    }

    /// The spends that were saved in `bytes`, each once, in their order. It is
    /// a failure if the bytes stand for no list of spends.
    pub fn from_bytes(bytes: &[u8]) -> (r: Result<PendingSpends, Error>)
        ensures
            match r {
                Ok(pending) => pending.wf() && (parse_requests(bytes@) matches Some(requests)
                    && pending@ == with_items(Seq::empty(), requests)),
                Err(failure) => failure == Error::MalformedUnconfirmedTxs && parse_requests(
                    bytes@,
                ) is None,
            },
    {
        match read_list::<SpendRequest>(bytes, 0) {
            Some((requests, end)) => {
                if end != bytes.len() {
                    return Err(Error::MalformedUnconfirmedTxs);
                }
                let mut pending = PendingSpends::new();
                pending.add_all(&requests);
                Ok(pending)
            },
            None => Err(Error::MalformedUnconfirmedTxs),
        }
    }

    /// The spends that wait, in the order in which they were added.
    pub fn snapshot(&self) -> (r: &Vec<SpendRequest>)
        ensures
            r@ == self@,
    {
        &self.requests
    }
}

} // verus!
