//! Forward-only framing of a byte buffer into delimiter-terminated records.

use vstd::prelude::*;

verus! {

/// Index just past the record that starts at `pos`: one past the first
/// `delim` at or after `pos`, or the end of `s` when no delimiter follows.
pub open spec fn record_end(s: Seq<u8>, pos: int, delim: u8) -> int
    decreases s.len() - pos,
{
    if pos >= s.len() {
        s.len() as int
    } else if s[pos] == delim {
        pos + 1
    } else {
        record_end(s, pos + 1, delim)
    }
}

/// The record read at `pos`, its trailing delimiter included; empty at end-of-file.
pub open spec fn record_at(s: Seq<u8>, pos: int, delim: u8) -> Seq<u8> {
    s.subrange(pos, record_end(s, pos, delim))
}

/// Cursor position after `k` reads starting at `pos`.
pub open spec fn cursor_after(s: Seq<u8>, pos: int, delim: u8, k: nat) -> int
    decreases k,
{
    if k == 0 {
        pos
    } else {
        cursor_after(s, record_end(s, pos, delim), delim, (k - 1) as nat)
    }
}

/// The records produced by `k` reads starting at `pos`, in order.
pub open spec fn reads(s: Seq<u8>, pos: int, delim: u8, k: nat) -> Seq<Seq<u8>>
    decreases k,
{
    if k == 0 {
        Seq::empty()
    } else {
        seq![record_at(s, pos, delim)] + reads(s, record_end(s, pos, delim), delim, (k - 1) as nat)
    }
}

/// Whether one of `k` reads starting at `pos` finds the end of `s`
/// (reads zero bytes).
pub open spec fn reaches_end(s: Seq<u8>, pos: int, delim: u8, k: nat) -> bool
    decreases k,
{
    k > 0 && (pos >= s.len() || reaches_end(s, record_end(s, pos, delim), delim, (k - 1) as nat))
}

/// The records of `s` from `pos` to its end: `s[pos..]` cut after each delimiter.
pub open spec fn records_from(s: Seq<u8>, pos: int, delim: u8) -> Seq<Seq<u8>>
    decreases s.len() - pos,
    via records_from_decreases
{
    if 0 <= pos < s.len() {
        seq![record_at(s, pos, delim)] + records_from(s, record_end(s, pos, delim), delim)
    } else {
        Seq::empty()
    }
}

#[via_fn]
proof fn records_from_decreases(s: Seq<u8>, pos: int, delim: u8) {
    if 0 <= pos < s.len() {
        lemma_record_end_bounds(s, pos, delim);
    }
}

/// All records of a file.
pub open spec fn records(s: Seq<u8>, delim: u8) -> Seq<Seq<u8>> {
    records_from(s, 0, delim)
}

/// A record ends within the data, and a read before the end makes progress.
pub proof fn lemma_record_end_bounds(s: Seq<u8>, pos: int, delim: u8)
    requires
        0 <= pos <= s.len(),
    ensures
        pos <= record_end(s, pos, delim) <= s.len(),
        pos < s.len() ==> pos < record_end(s, pos, delim),
    decreases s.len() - pos,
{
    if pos < s.len() && s[pos] != delim {
        lemma_record_end_bounds(s, pos + 1, delim);
    }
}

/// A record before the end holds no delimiter but possibly its last byte,
/// and ends with the delimiter unless it runs to the end of the data.
pub proof fn lemma_record_end_shape(s: Seq<u8>, pos: int, delim: u8)
    requires
        0 <= pos < s.len(),
    ensures
        forall|i: int| pos <= i < record_end(s, pos, delim) - 1 ==> s[i] != delim,
        record_end(s, pos, delim) == s.len() || s[record_end(s, pos, delim) - 1] == delim,
    decreases s.len() - pos,
{
    lemma_record_end_bounds(s, pos, delim);
    if s[pos] != delim {
        if pos + 1 < s.len() {
            lemma_record_end_shape(s, pos + 1, delim);
        } else {
            assert(record_end(s, pos + 1, delim) == s.len());
        }
    }
}

/// Any number of reads keeps the cursor within the data.
pub proof fn lemma_cursor_after_bounds(s: Seq<u8>, pos: int, delim: u8, k: nat)
    requires
        0 <= pos <= s.len(),
    ensures
        pos <= cursor_after(s, pos, delim, k) <= s.len(),
    decreases k,
{
    if k > 0 {
        lemma_record_end_bounds(s, pos, delim);
        lemma_cursor_after_bounds(s, record_end(s, pos, delim), delim, (k - 1) as nat);
    }
}

/// A cursor over the bytes of one file, private to one reader.
pub struct RecordReader {
    data: Vec<u8>,
    pos: usize,
    delimiter: u8,
}

impl RecordReader {
    /// The bytes of the file.
    pub closed spec fn contents(&self) -> Seq<u8> {
        self.data@
    }

    /// Bytes consumed so far.
    pub closed spec fn cursor(&self) -> int {
        self.pos as int
    }

    pub closed spec fn delimiter(&self) -> u8 {
        self.delimiter
    }

    pub open spec fn wf(&self) -> bool {
        0 <= self.cursor() <= self.contents().len()
    }

    /// A reader at the start of `data`.
    pub fn new(data: Vec<u8>, delimiter: u8) -> (r: RecordReader)
        ensures
            r.wf(),
            r.contents() == data@,
            r.cursor() == 0,
            r.delimiter() == delimiter,
    {
        RecordReader { data, pos: 0, delimiter }
    }

    /// Size of the file in bytes.
    pub fn size(&self) -> (r: usize)
        ensures
            r == self.contents().len(),
    {
        self.data.len()
    }

    /// Cumulative bytes read.
    pub fn bytes_read(&self) -> (r: usize)
        ensures
            r == self.cursor(),
    {
        self.pos
    }

    /// Reads up to and including the next delimiter, or to end-of-file.
    /// An empty result signals end-of-file.
    pub fn read_next(&mut self) -> (r: Vec<u8>)
        requires
            old(self).wf(),
        ensures
            final(self).wf(),
            final(self).contents() == old(self).contents(),
            final(self).delimiter() == old(self).delimiter(),
            final(self).cursor() == record_end(old(self).contents(), old(self).cursor(), old(self).delimiter()),
            r@ == record_at(old(self).contents(), old(self).cursor(), old(self).delimiter()),
    {
        let start = self.pos;
        let mut j: usize = start;
        let mut found = false;
        let mut rec: Vec<u8> = Vec::new();
        while !found && j < self.data.len()
            invariant
                start <= j <= self.data.len(),
                rec@ == self.data@.subrange(start as int, j as int),
                found ==> record_end(self.data@, start as int, self.delimiter) == j,
                !found ==> record_end(self.data@, start as int, self.delimiter) == record_end(self.data@, j as int, self.delimiter),
            decreases self.data.len() - j,
        {
            let b = self.data[j];
            rec.push(b);
            j = j + 1;
            if b == self.delimiter {
                found = true;
            }
            assert(rec@ =~= self.data@.subrange(start as int, j as int));
        }
        self.pos = j;
        rec
    }
}

} // verus!
