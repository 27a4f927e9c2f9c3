//! What holds of every replay, stated over the models that the reader's and
//! the session's contracts use.

use vstd::prelude::*;

use crate::config::Fraction;
use crate::reader::{
    cursor_after, lemma_record_end_bounds, lemma_record_end_shape, reaches_end, record_at, record_end, records,
    records_from, reads,
};
use crate::session::{
    lemma_percentage_burst_exists, lemma_reads_split,
    percentage_burst_len,
};

verus! {

/// `m` empty records.
pub open spec fn empty_records(m: nat) -> Seq<Seq<u8>> {
    Seq::new(m, |i: int| Seq::<u8>::empty())
}

/// Reads from `pos` give the records of the file from `pos` on, then empty
/// records once end-of-file is passed.
proof fn lemma_reads_are_records(s: Seq<u8>, pos: int, delim: u8, n: nat)
    requires
        0 <= pos <= s.len(),
    ensures
        n <= records_from(s, pos, delim).len() ==> reads(s, pos, delim, n) == records_from(
            s,
            pos,
            delim,
        ).take(n as int) && !reaches_end(s, pos, delim, n),
        n > records_from(s, pos, delim).len() ==> reads(s, pos, delim, n) == records_from(
            s,
            pos,
            delim,
        ) + empty_records((n - records_from(s, pos, delim).len()) as nat) && reaches_end(
            s,
            pos,
            delim,
            n,
        ),
    decreases n,
{
    let r = records_from(s, pos, delim);
    if n == 0 {
        assert(reads(s, pos, delim, 0) =~= r.take(0));
    } else {
        let e = record_end(s, pos, delim);
        lemma_record_end_bounds(s, pos, delim);
        lemma_reads_are_records(s, e, delim, (n - 1) as nat);
        let rest = records_from(s, e, delim);
        if pos == s.len() {
            assert(r =~= Seq::<Seq<u8>>::empty());
            assert(record_at(s, pos, delim) =~= Seq::<u8>::empty());
            assert(reads(s, pos, delim, n) =~= r + empty_records(n));
        } else {
            assert(r == seq![record_at(s, pos, delim)] + rest);
            if n <= r.len() {
                assert(reads(s, pos, delim, n) =~= r.take(n as int));
            } else {
                assert(reads(s, pos, delim, n) =~= r + empty_records((n - r.len()) as nat));
            }
        }
    }
}

/// The records from `pos` on cut `s[pos..]` after each delimiter.
proof fn lemma_records_from_partition(s: Seq<u8>, pos: int, delim: u8)
    requires
        0 <= pos <= s.len(),
    ensures
        records_from(s, pos, delim).flatten() == s.subrange(pos, s.len() as int),
        forall|i: int| 0 <= i < records_from(s, pos, delim).len() ==> is_record(
            #[trigger] records_from(s, pos, delim)[i],
            delim,
            i == records_from(s, pos, delim).len() - 1,
        ),
    decreases s.len() - pos,
{
    let r = records_from(s, pos, delim);
    if pos < s.len() {
        let e = record_end(s, pos, delim);
        lemma_record_end_bounds(s, pos, delim);
        lemma_record_end_shape(s, pos, delim);
        lemma_records_from_partition(s, e, delim);
        let rest = records_from(s, e, delim);
        let rec = record_at(s, pos, delim);
        assert(r.first() == rec);
        assert(r.drop_first() =~= rest);
        assert(s.subrange(pos, s.len() as int) =~= rec + s.subrange(e, s.len() as int));
        if rest.len() > 0 {
            assert(e < s.len());
        }
        assert(is_record(rec, delim, rest.len() == 0));
        assert forall|i: int| 0 <= i < r.len() implies is_record(#[trigger] r[i], delim, i == r.len() - 1) by {
            if i > 0 {
                assert(r[i] == rest[i - 1]);
            }
        }
    } else {
        assert(r =~= Seq::<Seq<u8>>::empty());
        assert(s.subrange(pos, s.len() as int) =~= Seq::<u8>::empty());
    }
}

/// A record of the file: not empty, no delimiter but possibly its last
/// byte, and ending with the delimiter unless it is the file's last.
pub open spec fn is_record(r: Seq<u8>, delim: u8, last: bool) -> bool {
    &&& r.len() > 0
    &&& forall|j: int| 0 <= j < r.len() - 1 ==> r[j] != delim
    &&& !last ==> r[r.len() - 1] == delim
}

/// The records of a file are its bytes cut after each delimiter: joined
/// they give back the file, and each is a nonempty run ending at its first
/// delimiter (the last may lack one).
pub proof fn lemma_records_partition_file(s: Seq<u8>, delim: u8)
    ensures
        records(s, delim).flatten() == s,
        forall|i: int| 0 <= i < records(s, delim).len() ==> is_record(
            #[trigger] records(s, delim)[i],
            delim,
            i == records(s, delim).len() - 1,
        ),
{
    lemma_records_from_partition(s, 0, delim);
    assert(s.subrange(0, s.len() as int) =~= s);
}

/// A count burst of `n` reads, on a file of at least `n` records, forwards
/// exactly the file's first `n` records in order and meets no end-of-file.
pub proof fn lemma_count_burst_first_records(s: Seq<u8>, delim: u8, n: nat)
    requires
        n <= records(s, delim).len(),
    ensures
        reads(s, 0, delim, n).len() == n,
        reads(s, 0, delim, n) == records(s, delim).take(n as int),
        !reaches_end(s, 0, delim, n),
{
    lemma_reads_are_records(s, 0, delim, n);
}

/// A count burst of `n` reads, on a file of fewer than `n` records, still
/// forwards `n` payloads: all the file's records, then empty ones; and it
/// meets end-of-file.
pub proof fn lemma_count_burst_past_end(s: Seq<u8>, delim: u8, n: nat)
    requires
        n > records(s, delim).len(),
    ensures
        reads(s, 0, delim, n).len() == n,
        reads(s, 0, delim, n) == records(s, delim) + empty_records(
            (n - records(s, delim).len()) as nat,
        ),
        reaches_end(s, 0, delim, n),
{
    lemma_reads_are_records(s, 0, delim, n);
}

/// A percentage burst reads at least the share `f` of the file, and, when
/// that share is more than zero bytes, the records before its last one read
/// less than the share: it stops as soon as the share is met.
pub proof fn lemma_percentage_burst_tight(s: Seq<u8>, delim: u8, f: Fraction)
    requires
        f.wf(),
    ensures
        percentage_burst_len(s, delim, f) >= 1,
        f.reached(s.len() as int, cursor_after(s, 0, delim, percentage_burst_len(s, delim, f))),
        s.len() * f.num > 0 ==> !f.reached(
            s.len() as int,
            cursor_after(s, 0, delim, (percentage_burst_len(s, delim, f) - 1) as nat),
        ),
{
    lemma_percentage_burst_exists(s, delim, f);
    let k = percentage_burst_len(s, delim, f);
    if k >= 2 {
        assert(!f.reached(s.len() as int, cursor_after(s, 0, delim, (k - 1) as nat)));
    } else {
        assert(cursor_after(s, 0, delim, 0) == 0);
    }
}

/// The timer fires after a burst of `k` reads continue where the burst
/// stopped: a burst and `m` fires forward the first `k + m` reads of the
/// file, which are its first `k + m` records while the file has that many.
pub proof fn lemma_steady_follows_burst(s: Seq<u8>, delim: u8, k: nat, m: nat)
    ensures
        reads(s, 0, delim, k) + reads(s, cursor_after(s, 0, delim, k), delim, m) == reads(
            s,
            0,
            delim,
            k + m,
        ),
        k + m <= records(s, delim).len() ==> reads(s, 0, delim, k + m) == records(s, delim).take(
            (k + m) as int,
        ),
{
    lemma_reads_split(s, 0, delim, k, m);
    lemma_reads_are_records(s, 0, delim, k + m);
}

} // verus!
