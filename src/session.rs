//! The per-connection replay state machine: an upfront burst on open, then
//! one record per timer fire until end-of-file.

use vstd::prelude::*;

use crate::config::{Fraction, SessionConfig, UpfrontPlayback};
use crate::reader::{
    cursor_after, lemma_cursor_after_bounds, lemma_record_end_bounds, reaches_end, record_at,
    record_end, reads, RecordReader,
};

verus! {

/// Where a session stands.
#[derive(Clone, Copy, Debug, PartialEq, Eq, Structural)]
pub enum Phase {
    /// Opened by the transport, burst not yet sent.
    Burst,
    /// Timer-driven: one record per fire.
    Steady,
    /// End-of-file seen by a timer fire; no timer is armed any more.
    Idle,
}

/// What the transport must do after a session event: send each payload in
/// order, then arm a timer of `timer_ms` milliseconds if one is given.
pub struct Action {
    pub sends: Vec<Vec<u8>>,
    pub timer_ms: Option<u64>,
}

/// The byte sequences held in a list of payloads.
pub open spec fn payloads(v: Seq<Vec<u8>>) -> Seq<Seq<u8>> {
    v.map_values(|p: Vec<u8>| p@)
}

/// Whether `k` reads from the start of `s` form a percentage burst: the
/// first read is unconditional, and reading stops at the first record after
/// which the bytes read reach the share `f` of the file.
pub open spec fn is_percentage_burst_len(s: Seq<u8>, delim: u8, f: Fraction, k: nat) -> bool {
    &&& k >= 1
    &&& f.reached(s.len() as int, cursor_after(s, 0, delim, k))
    &&& forall|j: nat| 1 <= j < k ==> !#[trigger] f.reached(s.len() as int, cursor_after(s, 0, delim, j))
}

/// Number of records that a percentage burst reads.
pub open spec fn percentage_burst_len(s: Seq<u8>, delim: u8, f: Fraction) -> nat {
    choose|k: nat| is_percentage_burst_len(s, delim, f, k)
}

/// Number of reads of the upfront burst under `upfront` on file `s`.
pub open spec fn burst_len(s: Seq<u8>, delim: u8, upfront: UpfrontPlayback) -> nat {
    match upfront {
        UpfrontPlayback::Count(n) => n as nat,
        UpfrontPlayback::Percentage(f) => percentage_burst_len(s, delim, f),
    }
}

/// A percentage burst has one length.
pub proof fn lemma_percentage_burst_len_unique(s: Seq<u8>, delim: u8, f: Fraction, a: nat, b: nat)
    requires
        is_percentage_burst_len(s, delim, f, a),
        is_percentage_burst_len(s, delim, f, b),
    ensures
        a == b,
{
    if a < b {
        assert(f.reached(s.len() as int, cursor_after(s, 0, delim, a)));
    } else if b < a {
        assert(f.reached(s.len() as int, cursor_after(s, 0, delim, b)));
    }
}

/// `k` reads from a position at or past `pos` reach at least `pos + k` bytes or the end.
proof fn lemma_cursor_progress(s: Seq<u8>, pos: int, delim: u8, k: nat)
    requires
        0 <= pos <= s.len(),
    ensures
        cursor_after(s, pos, delim, k) >= pos + k || cursor_after(s, pos, delim, k) == s.len(),
    decreases k,
{
    if k > 0 {
        lemma_record_end_bounds(s, pos, delim);
        lemma_cursor_progress(s, record_end(s, pos, delim), delim, (k - 1) as nat);
        lemma_cursor_after_bounds(s, record_end(s, pos, delim), delim, (k - 1) as nat);
    }
}

/// Among the lengths up to `k`, at which the share is reached, the smallest is a burst length.
proof fn lemma_min_burst_len(s: Seq<u8>, delim: u8, f: Fraction, k: nat)
    requires
        k >= 1,
        f.reached(s.len() as int, cursor_after(s, 0, delim, k)),
    ensures
        exists|m: nat| is_percentage_burst_len(s, delim, f, m),
    decreases k,
{
    if forall|j: nat| 1 <= j < k ==> !#[trigger] f.reached(s.len() as int, cursor_after(s, 0, delim, j)) {
        assert(is_percentage_burst_len(s, delim, f, k));
    } else {
        let j = choose|j: nat| 1 <= j < k && #[trigger] f.reached(s.len() as int, cursor_after(s, 0, delim, j));
        lemma_min_burst_len(s, delim, f, j);
    }
}

/// Every valid share is reached by some percentage burst.
pub proof fn lemma_percentage_burst_exists(s: Seq<u8>, delim: u8, f: Fraction)
    requires
        f.wf(),
    ensures
        is_percentage_burst_len(s, delim, f, percentage_burst_len(s, delim, f)),
{
    let k = (s.len() + 1) as nat;
    lemma_cursor_progress(s, 0, delim, k);
    lemma_cursor_after_bounds(s, 0, delim, k);
    let n = s.len() as int;
    assert(n * f.den >= n * f.num) by (nonlinear_arith)
        requires
            n >= 0,
            f.num <= f.den,
    ;
    lemma_min_burst_len(s, delim, f, k);
}

/// Reads compose: `a` reads then `b` more are `a + b` reads.
pub proof fn lemma_reads_split(s: Seq<u8>, pos: int, delim: u8, a: nat, b: nat)
    ensures
        reads(s, pos, delim, a) + reads(s, cursor_after(s, pos, delim, a), delim, b) == reads(
            s,
            pos,
            delim,
            a + b,
        ),
        cursor_after(s, cursor_after(s, pos, delim, a), delim, b) == cursor_after(s, pos, delim, a + b),
        reaches_end(s, pos, delim, a) || reaches_end(s, cursor_after(s, pos, delim, a), delim, b)
            <==> reaches_end(s, pos, delim, a + b),
    decreases a,
{
    if a > 0 {
        let e = record_end(s, pos, delim);
        lemma_reads_split(s, e, delim, (a - 1) as nat, b);
        assert(((a + b) - 1) as nat == ((a - 1) as nat + b) as nat);
        assert(reads(s, pos, delim, a) + reads(s, cursor_after(s, pos, delim, a), delim, b) =~= reads(
            s,
            pos,
            delim,
            a + b,
        ));
    } else {
        assert(reads(s, pos, delim, 0) + reads(s, pos, delim, b) =~= reads(s, pos, delim, b));
    }
}

/// A single read yields the record at the cursor.
pub proof fn lemma_single_read(s: Seq<u8>, pos: int, delim: u8)
    ensures
        reads(s, pos, delim, 1) == seq![record_at(s, pos, delim)],
        cursor_after(s, pos, delim, 1) == record_end(s, pos, delim),
        reaches_end(s, pos, delim, 1) == (pos >= s.len()),
{
    let e = record_end(s, pos, delim);
    assert(reads(s, e, delim, 0) =~= Seq::<Seq<u8>>::empty());
    assert(reads(s, pos, delim, 1) =~= seq![record_at(s, pos, delim)]);
    assert(!reaches_end(s, e, delim, 0));
    assert(cursor_after(s, e, delim, 0) == e);
}

/// One connection's replay: a private reader over its own copy of the file.
pub struct Session {
    reader: RecordReader,
    interval_secs: u64,
    upfront: UpfrontPlayback,
    active: bool,
    phase: Phase,
}

impl Session {
    /// The bytes of the file being replayed.
    pub closed spec fn contents(&self) -> Seq<u8> {
        self.reader.contents()
    }

    /// Bytes read so far.
    pub closed spec fn cursor(&self) -> int {
        self.reader.cursor()
    }

    pub closed spec fn delimiter(&self) -> u8 {
        self.reader.delimiter()
    }

    pub closed spec fn interval_secs(&self) -> u64 {
        self.interval_secs
    }

    pub closed spec fn upfront(&self) -> UpfrontPlayback {
        self.upfront
    }

    /// False once a read has found end-of-file.
    pub closed spec fn active(&self) -> bool {
        self.active
    }

    pub closed spec fn phase(&self) -> Phase {
        self.phase
    }

    pub closed spec fn wf(&self) -> bool {
        &&& self.reader.wf()
        &&& self.interval_secs * 1000 <= u64::MAX
        &&& match self.upfront {
            UpfrontPlayback::Count(_) => true,
            UpfrontPlayback::Percentage(f) => f.wf(),
        }
        &&& self.phase == Phase::Burst ==> self.reader.cursor() == 0 && self.active
        &&& self.phase == Phase::Idle ==> !self.active
    }

    /// A session over its own copy `contents` of the file, at its start.
    pub fn new(config: &SessionConfig, contents: Vec<u8>) -> (r: Session)
        requires
            config.wf(),
        ensures
            r.wf(),
            r.contents() == contents@,
            r.cursor() == 0,
            r.delimiter() == config.delimiter,
            r.interval_secs() == config.interval_secs,
            r.upfront() == config.upfront,
            r.active(),
            r.phase() == Phase::Burst,
    {
        Session {
            reader: RecordReader::new(contents, config.delimiter),
            interval_secs: config.interval_secs,
            upfront: config.upfront,
            active: true,
            phase: Phase::Burst,
        }
    }

    /// True once a read has found end-of-file.
    pub fn is_done(&self) -> (r: bool)
        ensures
            r == !self.active(),
    {
        !self.active
    }

    /// The current phase.
    pub fn get_phase(&self) -> (r: Phase)
        ensures
            r == self.phase(),
    {
        self.phase
    }

    /// The timer interval in milliseconds.
    pub fn get_timeout(&self) -> (r: u64)
        requires
            self.wf(),
        ensures
            r == self.interval_secs() * 1000,
    {
        self.interval_secs * 1000
    }

    /// Performs `count` reads and returns each record read, empty ones past
    /// end-of-file included; a read of zero bytes clears `active`.
    fn replay_lines(&mut self, count: usize) -> (sends: Vec<Vec<u8>>)
        requires
            old(self).wf(),
            old(self).phase() != Phase::Burst,
        ensures
            final(self).wf(),
            final(self).contents() == old(self).contents(),
            final(self).delimiter() == old(self).delimiter(),
            final(self).interval_secs() == old(self).interval_secs(),
            final(self).upfront() == old(self).upfront(),
            final(self).phase() == old(self).phase(),
            payloads(sends@) == reads(old(self).contents(), old(self).cursor(), old(self).delimiter(), count as nat),
            final(self).cursor() == cursor_after(old(self).contents(), old(self).cursor(), old(self).delimiter(), count as nat),
            final(self).active() == (old(self).active() && !reaches_end(old(self).contents(), old(self).cursor(), old(self).delimiter(), count as nat)),
    {
        let ghost s = self.contents();
        let ghost d = self.delimiter();
        let ghost start = self.cursor();
        let ghost active0 = self.active;
        let mut sends: Vec<Vec<u8>> = Vec::new();
        let mut i: usize = 0;
        while i < count
            invariant
                self.wf(),
                0 <= i <= count,
                self.contents() == s,
                self.delimiter() == d,
                self.interval_secs() == old(self).interval_secs(),
                self.upfront() == old(self).upfront(),
                self.phase() == old(self).phase(),
                self.phase() != Phase::Burst,
                payloads(sends@) == reads(s, start, d, i as nat),
                self.cursor() == cursor_after(s, start, d, i as nat),
                self.active == (active0 && !reaches_end(s, start, d, i as nat)),
            decreases count - i,
        {
            let ghost pos = self.cursor();
            let ghost prev = sends@;
            let rec = self.reader.read_next();
            proof {
                lemma_record_end_bounds(s, pos, d);
                lemma_reads_split(s, start, d, i as nat, 1);
                assert(reads(s, record_end(s, pos, d), d, 0) =~= Seq::<Seq<u8>>::empty());
                assert(reads(s, pos, d, 1) =~= seq![record_at(s, pos, d)]);
                assert(!reaches_end(s, record_end(s, pos, d), d, 0));
                assert(cursor_after(s, record_end(s, pos, d), d, 0) == record_end(s, pos, d));
                assert(reaches_end(s, pos, d, 1) == (pos >= s.len()));
            }
            if rec.len() == 0 {
                self.active = false;
            }
            sends.push(rec);
            i = i + 1;
            assert(payloads(sends@) =~= payloads(prev) + seq![rec@]);
        }
        sends
    }

    /// Reads records until the bytes read reach the share `f` of the file.
    /// The first read is unconditional; a record is never cut, so the last
    /// one may overshoot the share.
    fn replay_perc(&mut self, f: Fraction) -> (sends: Vec<Vec<u8>>)
        requires
            old(self).wf(),
            old(self).phase() != Phase::Burst,
            old(self).cursor() == 0,
            f.wf(),
        ensures
            final(self).wf(),
            final(self).contents() == old(self).contents(),
            final(self).delimiter() == old(self).delimiter(),
            final(self).interval_secs() == old(self).interval_secs(),
            final(self).upfront() == old(self).upfront(),
            final(self).phase() == old(self).phase(),
            payloads(sends@) == reads(old(self).contents(), 0, old(self).delimiter(), percentage_burst_len(old(self).contents(), old(self).delimiter(), f)),
            final(self).cursor() == cursor_after(old(self).contents(), 0, old(self).delimiter(), percentage_burst_len(old(self).contents(), old(self).delimiter(), f)),
            final(self).active() == (old(self).active() && !reaches_end(old(self).contents(), 0, old(self).delimiter(), percentage_burst_len(old(self).contents(), old(self).delimiter(), f))),
    {
        let ghost s = self.contents();
        let ghost d = self.delimiter();
        let ghost active0 = self.active;
        let size = self.reader.size();
        let mut sends = self.replay_lines(1);
        let ghost mut k: nat = 1;
        while !f.is_reached(size, self.reader.bytes_read())
            invariant
                self.wf(),
                size == s.len(),
                f.wf(),
                k >= 1,
                self.contents() == s,
                self.delimiter() == d,
                self.interval_secs() == old(self).interval_secs(),
                self.upfront() == old(self).upfront(),
                self.phase() == old(self).phase(),
                self.phase() != Phase::Burst,
                payloads(sends@) == reads(s, 0, d, k),
                self.cursor() == cursor_after(s, 0, d, k),
                self.active == (active0 && !reaches_end(s, 0, d, k)),
                forall|j: nat| 1 <= j < k ==> !#[trigger] f.reached(s.len() as int, cursor_after(s, 0, d, j)),
            decreases s.len() - self.cursor(),
        {
            let ghost pos = self.cursor();
            let ghost prev = sends@;
            proof {
                let n = s.len() as int;
                assert(n * f.den >= n * f.num) by (nonlinear_arith)
                    requires
                        n >= 0,
                        f.num <= f.den,
                ;
                lemma_record_end_bounds(s, pos, d);
                lemma_reads_split(s, 0, d, k, 1);
            }
            let mut one = self.replay_lines(1);
            sends.append(&mut one);
            proof {
                lemma_single_read(s, pos, d);
                assert(payloads(sends@) =~= payloads(prev) + reads(s, pos, d, 1));
                k = k + 1;
            }
        }
        proof {
            lemma_percentage_burst_exists(s, d, f);
            lemma_percentage_burst_len_unique(s, d, f, k, percentage_burst_len(s, d, f));
        }
        sends
    }

    /// Sends the upfront burst that the policy asks for.
    fn replay_upfront(&mut self) -> (sends: Vec<Vec<u8>>)
        requires
            old(self).wf(),
            old(self).phase() != Phase::Burst,
            old(self).cursor() == 0,
        ensures
            final(self).wf(),
            final(self).contents() == old(self).contents(),
            final(self).delimiter() == old(self).delimiter(),
            final(self).interval_secs() == old(self).interval_secs(),
            final(self).upfront() == old(self).upfront(),
            final(self).phase() == old(self).phase(),
            payloads(sends@) == reads(old(self).contents(), 0, old(self).delimiter(), burst_len(old(self).contents(), old(self).delimiter(), old(self).upfront())),
            final(self).cursor() == cursor_after(old(self).contents(), 0, old(self).delimiter(), burst_len(old(self).contents(), old(self).delimiter(), old(self).upfront())),
            final(self).active() == (old(self).active() && !reaches_end(old(self).contents(), 0, old(self).delimiter(), burst_len(old(self).contents(), old(self).delimiter(), old(self).upfront()))),
    {
        match self.upfront {
            UpfrontPlayback::Percentage(f) => self.replay_perc(f),
            UpfrontPlayback::Count(n) => self.replay_lines(n),
        }
    }

    /// The connection is open: sends the upfront burst from the start of the
    /// file and arms the timer once, even when the burst met end-of-file.
    pub fn on_open(&mut self) -> (a: Action)
        requires
            old(self).wf(),
            old(self).phase() == Phase::Burst,
        ensures
            final(self).wf(),
            final(self).contents() == old(self).contents(),
            final(self).delimiter() == old(self).delimiter(),
            final(self).interval_secs() == old(self).interval_secs(),
            final(self).upfront() == old(self).upfront(),
            final(self).phase() == Phase::Steady,
            payloads(a.sends@) == reads(old(self).contents(), 0, old(self).delimiter(), burst_len(old(self).contents(), old(self).delimiter(), old(self).upfront())),
            final(self).cursor() == cursor_after(old(self).contents(), 0, old(self).delimiter(), burst_len(old(self).contents(), old(self).delimiter(), old(self).upfront())),
            final(self).active() == !reaches_end(old(self).contents(), 0, old(self).delimiter(), burst_len(old(self).contents(), old(self).delimiter(), old(self).upfront())),
            a.timer_ms == Some((old(self).interval_secs() * 1000) as u64),
    {
        self.phase = Phase::Steady;
        let sends = self.replay_upfront();
        Action { sends, timer_ms: Some(self.get_timeout()) }
    }

    /// The timer fired: sends the next record (empty at end-of-file). The
    /// timer is armed again while no read has met end-of-file; otherwise the
    /// session goes idle.
    pub fn on_timeout(&mut self) -> (a: Action)
        requires
            old(self).wf(),
            old(self).phase() == Phase::Steady,
        ensures
            final(self).wf(),
            final(self).contents() == old(self).contents(),
            final(self).delimiter() == old(self).delimiter(),
            final(self).interval_secs() == old(self).interval_secs(),
            final(self).upfront() == old(self).upfront(),
            payloads(a.sends@) == seq![record_at(old(self).contents(), old(self).cursor(), old(self).delimiter())],
            final(self).cursor() == record_end(old(self).contents(), old(self).cursor(), old(self).delimiter()),
            final(self).active() == (old(self).active() && old(self).cursor() < old(self).contents().len()),
            final(self).active() ==> final(self).phase() == Phase::Steady && a.timer_ms == Some((old(self).interval_secs() * 1000) as u64),
            !final(self).active() ==> final(self).phase() == Phase::Idle && a.timer_ms is None,
    {
        let ghost s = self.contents();
        let ghost d = self.delimiter();
        let ghost pos = self.cursor();
        let sends = self.replay_lines(1);
        proof {
            lemma_single_read(s, pos, d);
        }
        if !self.is_done() {
            Action { sends, timer_ms: Some(self.get_timeout()) }
        } else {
            self.phase = Phase::Idle;
            Action { sends, timer_ms: None }
        }
    }
}

} // verus!
