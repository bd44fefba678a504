//! The bytes in which the wallet's files are written: numbers as eight bytes,
//! lowest first; keys and digests as they are; a list as the number of its
//! items, then the items.

use vstd::prelude::*;
use vstd::bytes::{
    lemma_auto_spec_u64_to_from_le_bytes, spec_u64_from_le_bytes, spec_u64_to_le_bytes,
    u64_from_le_bytes, u64_to_le_bytes,
};
use vstd::slice::slice_subrange;
use crate::amount::Nano;
use crate::keys::UniquePubkey;

verus! {

/// The array that holds `bytes`.
pub open spec fn array_of<const N: usize>(bytes: Seq<u8>) -> [u8; N] {
    choose|array: [u8; N]| array@ == bytes
}

/// The array that holds the bytes of an array is that array.
pub proof fn lemma_array_of<const N: usize>(array: [u8; N])
    ensures
        array_of::<N>(array@) == array,
{
    let found = array_of::<N>(array@);
    assert(found@ == array@);
    assert(found =~= array);
}

/// The eight bytes of `x`, lowest first.
pub open spec fn u64_bytes(x: u64) -> Seq<u8> {
    spec_u64_to_le_bytes(x)
}

/// The number that the eight bytes of `bytes` from `at` on stand for.
pub open spec fn u64_at(bytes: Seq<u8>, at: int) -> u64 {
    spec_u64_from_le_bytes(bytes.subrange(at, at + 8))
}

/// A number is written in eight bytes and read back from them.
pub proof fn lemma_u64_at(before: Seq<u8>, x: u64, after: Seq<u8>)
    ensures
        u64_bytes(x).len() == 8,
        u64_at(before + u64_bytes(x) + after, before.len() as int) == x,
{
    lemma_auto_spec_u64_to_from_le_bytes();
    let bytes = before + u64_bytes(x) + after;
    let at = before.len() as int;
    assert(bytes.subrange(at, at + 8) =~= u64_bytes(x));
}

/// The `N` bytes of `bytes` from `at` on.
pub fn read_array<const N: usize>(bytes: &[u8], at: usize) -> (r: [u8; N])
    requires
        at + N <= bytes@.len(),
    ensures
        r@ == bytes@.subrange(at as int, at + N),
        r == array_of::<N>(bytes@.subrange(at as int, at + N)),
{
    let len = bytes.len();
    let mut r = [0u8; N];
    let mut i: usize = 0;
    while i < N
        invariant
            i <= N,
            at + N <= len,
            len == bytes@.len(),
            forall|k: int| 0 <= k < i ==> r@[k] == bytes@[at + k],
        decreases N - i,
    {
        r[i] = bytes[at + i];
        i += 1;
    }
    assert(r@ =~= bytes@.subrange(at as int, at + N));
    proof {
        lemma_array_of(r);
    }
    r
}

/// Writes the bytes of `array` behind `out`.
pub fn append_array<const N: usize>(out: &mut Vec<u8>, array: &[u8; N])
    ensures
        final(out)@ == old(out)@ + array@,
{
    let mut i: usize = 0;
    while i < N
        invariant
            i <= N,
            out@ == old(out)@ + array@.take(i as int),
        decreases N - i,
    {
        out.push(array[i]);
        assert(out@ =~= old(out)@ + array@.take(i + 1));
        i += 1;
    }
    assert(array@.take(N as int) =~= array@);
}

/// The number that the eight bytes of `bytes` from `at` on stand for.
pub fn read_u64(bytes: &[u8], at: usize) -> (r: u64)
    requires
        at + 8 <= bytes@.len(),
    ensures
        r == u64_at(bytes@, at as int),
{
    let len = bytes.len();
    assert(at + 8 <= len);
    u64_from_le_bytes(slice_subrange(bytes, at, at + 8))
}

/// Writes the eight bytes of `x` behind `out`.
pub fn append_u64(out: &mut Vec<u8>, x: u64)
    ensures
        final(out)@ == old(out)@ + u64_bytes(x),
{
    let bytes = u64_to_le_bytes(x);
    let mut i: usize = 0;
    while i < 8
        invariant
            i <= 8,
            bytes@.len() == 8,
            out@ == old(out)@ + bytes@.take(i as int),
        decreases 8 - i,
    {
        out.push(bytes[i]);
        assert(out@ =~= old(out)@ + bytes@.take(i + 1));
        i += 1;
    }
    assert(bytes@.take(8) =~= bytes@);
}

/// The `N` bytes of `bytes` from `at` on, as an array.
pub open spec fn array_at<const N: usize>(bytes: Seq<u8>, at: int) -> [u8; N] {
    array_of::<N>(bytes.subrange(at, at + N))
}

/// An array is read back from where its bytes stand.
pub proof fn lemma_array_at<const N: usize>(before: Seq<u8>, array: [u8; N], after: Seq<u8>)
    ensures
        array@.len() == N,
        array_at::<N>(before + array@ + after, before.len() as int) == array,
{
    let bytes = before + array@ + after;
    let at = before.len() as int;
    assert(bytes.subrange(at, at + N) =~= array@);
    lemma_array_of(array);
}

/// A value that is written in a fixed number of bytes.
pub trait Record: Sized {
    /// The number of bytes that every value takes.
    spec fn size() -> nat;

    /// The bytes that stand for the value.
    spec fn bytes(self) -> Seq<u8>;

    /// The value that the bytes of `bytes` from `at` on stand for.
    spec fn at(bytes: Seq<u8>, at: int) -> Self;

    /// A value takes `size()` bytes, and is read back from where they stand.
    proof fn lemma_record(before: Seq<u8>, item: Self, after: Seq<u8>)
        ensures
            item.bytes().len() == Self::size(),
            Self::at(before + item.bytes() + after, before.len() as int) == item,
    ;

    /// The number of bytes that every value takes.
    fn width() -> (r: usize)
        ensures
            r == Self::size(),
    ;

    /// Writes the bytes of the value behind `out`.
    fn append(&self, out: &mut Vec<u8>)
        ensures
            final(out)@ == old(out)@ + self.bytes(),
    ;

    /// The value that the bytes of `bytes` from `at` on stand for.
    fn read(bytes: &[u8], at: usize) -> (r: Self)
        requires
            at + Self::size() <= bytes@.len(),
        ensures
            r == Self::at(bytes@, at as int),
    ;
}

impl Record for UniquePubkey {
    open spec fn size() -> nat {
        48
    }

    open spec fn bytes(self) -> Seq<u8> {
        self.bytes@
    }

    open spec fn at(bytes: Seq<u8>, at: int) -> UniquePubkey {
        UniquePubkey { bytes: array_at::<48>(bytes, at) }
    }

    proof fn lemma_record(before: Seq<u8>, item: UniquePubkey, after: Seq<u8>) {
        lemma_array_at(before, item.bytes, after);
    }

    fn width() -> (r: usize) {
        48
    }

    fn append(&self, out: &mut Vec<u8>) {
        append_array(out, &self.bytes);
    }

    fn read(bytes: &[u8], at: usize) -> (r: UniquePubkey) {
        UniquePubkey { bytes: read_array::<48>(bytes, at) }
    }
}

impl Record for (UniquePubkey, Nano) {
    open spec fn size() -> nat {
        56
    }

    open spec fn bytes(self) -> Seq<u8> {
        self.0.bytes@ + u64_bytes(self.1.value)
    }

    open spec fn at(bytes: Seq<u8>, at: int) -> (UniquePubkey, Nano) {
        (UniquePubkey { bytes: array_at::<48>(bytes, at) }, Nano { value: u64_at(bytes, at + 48) })
    }

    proof fn lemma_record(before: Seq<u8>, item: (UniquePubkey, Nano), after: Seq<u8>) {
        let amount = u64_bytes(item.1.value);
        lemma_array_at(before, item.0.bytes, amount + after);
        lemma_u64_at(before + item.0.bytes@, item.1.value, after);
        assert(before + item.bytes() + after =~= before + item.0.bytes@ + (amount + after));
        assert(before + item.bytes() + after =~= (before + item.0.bytes@) + amount + after);
    }

    fn width() -> (r: usize) {
        56
    }

    fn append(&self, out: &mut Vec<u8>) {
        append_array(out, &self.0.bytes);
        append_u64(out, self.1.as_nano());
        assert(out@ =~= old(out)@ + self.bytes());
    }

    fn read(bytes: &[u8], at: usize) -> (r: (UniquePubkey, Nano)) {
        let len = bytes.len();
        (UniquePubkey { bytes: read_array::<48>(bytes, at) }, Nano::from(read_u64(bytes, at + 48)))
    }
}

/// The bytes of the values of `items`, one after the other.
pub open spec fn list_bytes<T: Record>(items: Seq<T>) -> Seq<u8>
    decreases items.len(),
{
    if items.len() == 0 {
        Seq::empty()
    } else {
        list_bytes(items.drop_last()) + items.last().bytes()
    }
}

/// The bytes that stand for a list: the number of its items, then the items.
pub open spec fn counted_bytes<T: Record>(items: Seq<T>) -> Seq<u8> {
    u64_bytes(items.len() as u64) + list_bytes(items)
}

/// The `n` values that stand in `bytes` from `at` on, and where they end;
/// `None` where `bytes` end before they do.
pub open spec fn parse_list<T: Record>(bytes: Seq<u8>, at: int, n: nat) -> Option<(Seq<T>, int)>
    decreases n,
{
    if n == 0 {
        Some((Seq::empty(), at))
    } else {
        match parse_list::<T>(bytes, at, (n - 1) as nat) {
            Some((front, end)) => if end + T::size() <= bytes.len() {
                Some((front.push(T::at(bytes, end)), end + T::size()))
            } else {
                None
            },
            None => None,
        }
    }
}

/// The list that stands in `bytes` at `at`, and where it ends; `None` where
/// `bytes` end before the list does.
pub open spec fn parse_counted<T: Record>(bytes: Seq<u8>, at: int) -> Option<(Seq<T>, int)> {
    if 0 <= at && at + 8 <= bytes.len() {
        parse_list::<T>(bytes, at + 8, u64_at(bytes, at) as nat)
    } else {
        None
    }
}

/// Where reading fails, reading more fails too.
pub proof fn lemma_parse_list_fails<T: Record>(bytes: Seq<u8>, at: int, n: nat, more: nat)
    requires
        parse_list::<T>(bytes, at, n) is None,
        n <= more,
    ensures
        parse_list::<T>(bytes, at, more) is None,
    decreases more,
{
    if n < more {
        lemma_parse_list_fails::<T>(bytes, at, n, (more - 1) as nat);
    }
}

/// The values of a list are read back from where their bytes stand.
pub proof fn lemma_parse_list<T: Record>(before: Seq<u8>, items: Seq<T>, after: Seq<u8>)
    ensures
        parse_list::<T>(before + list_bytes(items) + after, before.len() as int, items.len())
            == Some((items, (before.len() + list_bytes(items).len()) as int)),
    decreases items.len(),
{
    let bytes = before + list_bytes(items) + after;
    if items.len() > 0 {
        let front = items.drop_last();
        let last = items.last();
        assert(bytes =~= before + list_bytes(front) + (last.bytes() + after));
        lemma_parse_list(before, front, last.bytes() + after);
        assert(bytes =~= (before + list_bytes(front)) + last.bytes() + after);
        T::lemma_record(before + list_bytes(front), last, after);
        assert(front.push(last) =~= items);
    }
}

/// A list is read back from the bytes that stand for it, whatever stands
/// before and after them.
pub proof fn lemma_parse_counted<T: Record>(before: Seq<u8>, items: Seq<T>, after: Seq<u8>)
    requires
        items.len() <= u64::MAX,
    ensures
        parse_counted::<T>(before + counted_bytes(items) + after, before.len() as int) == Some(
            (items, (before.len() + counted_bytes(items).len()) as int),
        ),
{
    let bytes = before + counted_bytes(items) + after;
    let count = u64_bytes(items.len() as u64);
    lemma_u64_at(before, items.len() as u64, list_bytes(items) + after);
    assert(bytes =~= before + count + (list_bytes(items) + after));
    assert(bytes =~= (before + count) + list_bytes(items) + after);
    lemma_parse_list(before + count, items, after);
}

/// Writes the bytes that stand for the list `items` behind `out`.
pub fn append_list<T: Record>(out: &mut Vec<u8>, items: &Vec<T>)
    ensures
        final(out)@ == old(out)@ + counted_bytes(items@),
{
    append_u64(out, items.len() as u64);
    let ghost start = out@;
    let mut i: usize = 0;
    while i < items.len()
        invariant
            i <= items.len(),
            out@ == start + list_bytes(items@.take(i as int)),
        decreases items.len() - i,
    {
        items[i].append(out);
        proof {
            let next = items@.take(i + 1);
            assert(next.drop_last() =~= items@.take(i as int));
            assert(next.last() == items@[i as int]);
            assert(out@ =~= start + list_bytes(next));
        }
        i += 1;
    }
    assert(items@.take(items@.len() as int) =~= items@);
    assert(out@ =~= old(out)@ + counted_bytes(items@));
}

/// The list that stands in `bytes` at `at`, and where it ends.
pub fn read_list<T: Record>(bytes: &[u8], at: usize) -> (r: Option<(Vec<T>, usize)>)
    requires
        at <= bytes@.len(),
    ensures
        match r {
            Some((items, end)) => parse_counted::<T>(bytes@, at as int) == Some(
                (items@, end as int),
            ) && at + 8 <= end <= bytes@.len(),
            None => parse_counted::<T>(bytes@, at as int) is None,
        },
{
    let len = bytes.len();
    if len - at < 8 {
        return None;
    }
    let n = read_u64(bytes, at);
    let mut items: Vec<T> = Vec::new();
    let mut end: usize = at + 8;
    let mut i: u64 = 0;
    while i < n
        invariant
            i <= n,
            at + 8 <= end <= len,
            len == bytes@.len(),
            n == u64_at(bytes@, at as int),
            parse_list::<T>(bytes@, at + 8, i as nat) == Some((items@, end as int)),
        decreases n - i,
    {
        if len - end < T::width() {
            proof {
                let next = (i + 1) as nat;
                assert((next - 1) as nat == i as nat);
                assert(parse_list::<T>(bytes@, at + 8, (next - 1) as nat) == Some(
                    (items@, end as int),
                ));
                assert(parse_list::<T>(bytes@, at + 8, next) is None);
                lemma_parse_list_fails::<T>(bytes@, at + 8, next, n as nat);
            }
            return None;
        }
        items.push(T::read(bytes, end));
        end = end + T::width();
        i += 1;
    }
    Some((items, end))
}

} // verus!
