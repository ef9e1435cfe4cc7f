//! The receiver's timing logic: clock alignment, jitter estimate, loss
//! accounting, adaptive buffer sizes and the timestamp-ordered reorder buffer.
//!
//! All times are whole nanoseconds.

use vstd::prelude::*;

verus! {

/// Smallest reorder delay.
pub const MIN_REORDER_DELAY_NS: u64 = 5_000_000;

/// Largest reorder delay.
pub const MAX_REORDER_DELAY_NS: u64 = 40_000_000;

/// `x` held within `lo..=hi`.
pub open spec fn spec_clamp(x: int, lo: int, hi: int) -> int {
    if x < lo {
        lo
    } else if x > hi {
        hi
    } else {
        x
    }
}

/// Two and a half times the jitter, held within 5 ms and 40 ms.
pub open spec fn spec_reorder_delay(jitter_ns: u64) -> int {
    spec_clamp(jitter_ns * 5 / 2, MIN_REORDER_DELAY_NS as int, MAX_REORDER_DELAY_NS as int)
}

/// The target buffer: 15 ms plus up to 25 ms of extra (two and a half times
/// the jitter), held within 10 ms and 40 ms.
pub open spec fn spec_target_ns(jitter_ns: u64) -> int {
    spec_clamp(15_000_000 + spec_clamp(jitter_ns * 5 / 2, 0, 25_000_000), 10_000_000, 40_000_000)
}

/// The buffer ceiling: twice the target, held within 30 ms and 100 ms.
pub open spec fn spec_max_ns(jitter_ns: u64) -> int {
    spec_clamp(2 * spec_target_ns(jitter_ns), 30_000_000, 100_000_000)
}

/// How long a frame waits for stragglers before it may be released.
pub fn compute_reorder_delay(jitter_ns: u64) -> (delay: u64)
    ensures
        delay == spec_reorder_delay(jitter_ns),
        MIN_REORDER_DELAY_NS <= delay <= MAX_REORDER_DELAY_NS,
{
    if jitter_ns >= 16_000_000 {
        MAX_REORDER_DELAY_NS
    } else {
        let scaled: u64 = jitter_ns * 5 / 2;
        if scaled < MIN_REORDER_DELAY_NS {
            MIN_REORDER_DELAY_NS
        } else {
            scaled
        }
    }
}

/// The target and the ceiling of buffered audio for the given jitter.
pub fn adjust_targets(jitter_ns: u64) -> (targets: (u64, u64))
    ensures
        targets.0 == spec_target_ns(jitter_ns),
        targets.1 == spec_max_ns(jitter_ns),
        15_000_000 <= targets.0 <= 40_000_000,
        targets.1 == 2 * targets.0,
{
    let extra: u64 = if jitter_ns >= 10_000_000 {
        25_000_000
    } else {
        jitter_ns * 5 / 2
    };
    let target: u64 = 15_000_000 + extra;
    (target, 2 * target)
}

/// Whether a frame stamped `ts_ns` is too far behind the newest timestamp
/// seen to be worth reordering: more than twice the reorder delay.
pub open spec fn spec_is_late(ts_ns: u64, newest_ts: u64, reorder_delay: u64) -> bool {
    newest_ts != 0 && ts_ns + 2 * reorder_delay < newest_ts
}

/// Decides whether a frame is dropped as late.
pub fn is_late(ts_ns: u64, newest_ts: u64, reorder_delay: u64) -> (late: bool)
    ensures
        late == spec_is_late(ts_ns, newest_ts, reorder_delay),
{
    newest_ts != 0 && (ts_ns as u128) + 2 * (reorder_delay as u128) < (newest_ts as u128)
}

/// `a + b`, stopping at the largest `u64`.
pub open spec fn spec_sat_add(a: u64, b: u64) -> u64 {
    if a + b > u64::MAX {
        u64::MAX
    } else {
        (a + b) as u64
    }
}

/// `a - b`, stopping at zero.
pub open spec fn spec_sat_sub(a: u64, b: u64) -> u64 {
    if a < b {
        0
    } else {
        (a - b) as u64
    }
}

/// Sequence bookkeeping: what comes next, how many frames were skipped and
/// how many arrived.
#[derive(Clone, Copy, Debug, PartialEq, Eq, Structural)]
pub struct LossTracker {
    pub expected_seq: u64,
    pub lost: u64,
    pub received: u64,
}

/// The tracker after a frame with sequence `seq` arrived. A sequence at or
/// past the expected one adds its gap to the loss and moves the expectation
/// behind it; an older one only counts as received.
pub open spec fn spec_note_sequence(t: LossTracker, seq: u32) -> LossTracker {
    let expected = if t.expected_seq == 0 {
        seq as u64
    } else {
        t.expected_seq
    };
    if seq >= expected {
        LossTracker {
            expected_seq: (seq + 1) as u64,
            lost: spec_sat_add(t.lost, (seq - expected) as u64),
            received: spec_sat_add(t.received, 1),
        }
    } else {
        LossTracker { expected_seq: expected, lost: t.lost, received: spec_sat_add(t.received, 1) }
    }
}

impl LossTracker {
    /// A tracker that has seen nothing.
    pub fn new() -> (t: LossTracker)
        ensures
            t == (LossTracker { expected_seq: 0, lost: 0, received: 0 }),
    {
        LossTracker { expected_seq: 0, lost: 0, received: 0 }
    }

    /// Whether the expectation is one a 32-bit sequence can have led to.
    pub open spec fn wf(&self) -> bool {
        self.expected_seq <= 0x1_0000_0000
    }

    /// Accounts for the arrival of the frame with sequence `seq`.
    pub fn note_sequence(&mut self, seq: u32)
        requires
            old(self).wf(),
        ensures
            *final(self) == spec_note_sequence(*old(self), seq),
            final(self).wf(),
    {
        let seq64: u64 = seq as u64;
        if self.expected_seq == 0 {
            self.expected_seq = seq64;
        }
        if seq64 >= self.expected_seq {
            let gap: u64 = seq64 - self.expected_seq;
            self.lost = self.lost.saturating_add(gap);
            self.expected_seq = seq64 + 1;
        }
        self.received = self.received.saturating_add(1);
    }
}

/// A late sequence, one below the expectation, leaves the loss count and the
/// expectation as they are.
pub proof fn lemma_late_sequence_not_counted(t: LossTracker, seq: u32)
    requires
        t.expected_seq != 0,
        seq < t.expected_seq,
    ensures
        spec_note_sequence(t, seq).lost == t.lost,
        spec_note_sequence(t, seq).expected_seq == t.expected_seq,
{
}

/// The sender's clock as seen from here.
///
/// `lag_ns` is how far the offset has been pulled below zero to keep
/// apparent delays from going negative.
#[derive(Clone, Copy, Debug)]
pub struct StreamClock {
    pub base: Option<(u64, u64)>,
    pub lag_ns: u64,
    pub jitter_ewma_ns: u64,
    pub prev_transit: Option<i128>,
}

/// What one frame's arrival makes of the clock, and the delay it showed.
pub struct Observation {
    pub clock: StreamClock,
    pub delay_ns: u64,
}

/// `x` held within the range of `u64`.
pub open spec fn spec_to_u64(x: int) -> u64 {
    spec_clamp(x, 0, u64::MAX as int) as u64
}

/// The smoothed jitter after a transit difference of `d`: the first sample
/// is taken as it is, later ones move the estimate a sixteenth of the way.
pub open spec fn spec_ewma(jitter_ns: u64, d: u64) -> u64 {
    if jitter_ns == 0 {
        d
    } else if d >= jitter_ns {
        (jitter_ns + (d - jitter_ns) / 16) as u64
    } else {
        (jitter_ns - (jitter_ns - d) / 16) as u64
    }
}

/// The clock after a frame stamped `server_ts` arrived at local time
/// `now_ns`.
///
/// The first frame sets the baseline. With `arrival` and `sent` the times
/// since the baseline here and at the sender, the delay is
/// `arrival - sent + lag`; a negative delay moves the lag an eighth of the
/// way and counts as zero. The transit `arrival - sent + lag` is compared
/// with the previous frame's to update the jitter.
pub open spec fn spec_observe(c: StreamClock, server_ts: u64, now_ns: u64) -> Observation {
    let base = match c.base {
        Some(b) => b,
        None => (server_ts, now_ns),
    };
    let arrival: int = if now_ns >= base.1 {
        now_ns - base.1
    } else {
        0
    };
    let sent: int = server_ts - base.0;
    let delay: int = arrival - sent + c.lag_ns;
    let lag: int = if delay < 0 {
        c.lag_ns + (-delay) / 8
    } else {
        c.lag_ns as int
    };
    let transit: int = arrival - sent + lag;
    let jitter = match c.prev_transit {
        Some(prev) => spec_ewma(
            c.jitter_ewma_ns,
            spec_to_u64(
                if transit >= prev {
                    transit - prev
                } else {
                    prev - transit
                },
            ),
        ),
        None => c.jitter_ewma_ns,
    };
    Observation {
        clock: StreamClock {
            base: Some(base),
            lag_ns: spec_to_u64(lag),
            jitter_ewma_ns: jitter,
            prev_transit: Some(transit as i128),
        },
        delay_ns: spec_to_u64(delay),
    }
}

impl StreamClock {
    /// A clock that has seen no frame.
    pub fn new() -> (c: StreamClock)
        ensures
            c == (StreamClock { base: None, lag_ns: 0, jitter_ewma_ns: 0, prev_transit: None }),
            c.wf(),
    {
        StreamClock { base: None, lag_ns: 0, jitter_ewma_ns: 0, prev_transit: None }
    }

    /// Whether the remembered transit is one that 64-bit times can give.
    pub open spec fn wf(&self) -> bool {
        match self.prev_transit {
            Some(p) => -0x4_0000_0000_0000_0000 <= p <= 0x4_0000_0000_0000_0000,
            None => true,
        }
    }

    /// Takes in the arrival of a frame stamped `server_ts` at local time
    /// `now_ns` and returns the delay it showed.
    pub fn observe(&mut self, server_ts: u64, now_ns: u64) -> (delay_ns: u64)
        requires
            old(self).wf(),
        ensures
            *final(self) == spec_observe(*old(self), server_ts, now_ns).clock,
            delay_ns == spec_observe(*old(self), server_ts, now_ns).delay_ns,
            final(self).wf(),
    {
        let base: (u64, u64) = match self.base {
            Some(b) => b,
            None => (server_ts, now_ns),
        };
        let arrival: i128 = if now_ns >= base.1 {
            (now_ns - base.1) as i128
        } else {
            0
        };
        let sent: i128 = server_ts as i128 - base.0 as i128;
        let delay: i128 = arrival - sent + self.lag_ns as i128;
        let lag: i128 = if delay < 0 {
            let short: u128 = (-delay) as u128;
            self.lag_ns as i128 + (short / 8) as i128
        } else {
            self.lag_ns as i128
        };
        let transit: i128 = arrival - sent + lag;
        let jitter: u64 = match self.prev_transit {
            Some(prev) => {
                let d: i128 = if transit >= prev {
                    transit - prev
                } else {
                    prev - transit
                };
                ewma(self.jitter_ewma_ns, to_u64(d))
            },
            None => self.jitter_ewma_ns,
        };
        self.base = Some(base);
        self.lag_ns = to_u64(lag);
        self.jitter_ewma_ns = jitter;
        self.prev_transit = Some(transit);
        to_u64(delay)
    }
}

/// Holds `x` within the range of `u64`.
pub fn to_u64(x: i128) -> (r: u64)
    ensures
        r == spec_to_u64(x as int),
{
    if x < 0 {
        0
    } else if x > u64::MAX as i128 {
        u64::MAX
    } else {
        x as u64
    }
}

/// Moves the jitter estimate towards the transit difference `d`.
pub fn ewma(jitter_ns: u64, d: u64) -> (r: u64)
    ensures
        r == spec_ewma(jitter_ns, d),
{
    if jitter_ns == 0 {
        d
    } else if d >= jitter_ns {
        jitter_ns + (d - jitter_ns) / 16
    } else {
        jitter_ns - (jitter_ns - d) / 16
    }
}

/// A decoded frame waiting for its turn.
pub struct BufFrame<T> {
    pub ts_ns: u64,
    pub dur_ns: u64,
    pub data: T,
}

/// The play time of `sample_count` mono samples at `sample_rate`, zero for a
/// rate of zero.
pub open spec fn spec_duration_ns(sample_count: u32, sample_rate: u32) -> u64 {
    if sample_rate == 0 {
        0
    } else {
        (sample_count as int * 1_000_000_000 / sample_rate as int) as u64
    }
}

/// Computes the play time of a frame.
pub fn frame_duration_ns(sample_count: u32, sample_rate: u32) -> (dur: u64)
    ensures
        dur == spec_duration_ns(sample_count, sample_rate),
{
    if sample_rate == 0 {
        0
    } else {
        let total: u64 = sample_count as u64 * 1_000_000_000;
        proof {
            assert(total / sample_rate as u64 <= total) by (nonlinear_arith)
                requires
                    sample_rate >= 1,
            ;
        }
        total / sample_rate as u64
    }
}

/// Whether the timestamps of `frames` never go down.
pub open spec fn spec_sorted<T>(frames: Seq<BufFrame<T>>) -> bool {
    forall|i: int, j: int| 0 <= i <= j < frames.len() ==> frames[i].ts_ns <= frames[j].ts_ns
}

/// Where a frame stamped `ts_ns` goes: behind every frame stamped no later.
pub open spec fn spec_insert_pos<T>(frames: Seq<BufFrame<T>>, ts_ns: u64) -> int
    decreases frames.len(),
{
    if frames.len() == 0 {
        0
    } else if frames.last().ts_ns <= ts_ns {
        frames.len() as int
    } else {
        spec_insert_pos(frames.drop_last(), ts_ns)
    }
}

/// Whether the oldest frame may leave: either it has waited out the reorder
/// delay, enough audio is buffered and more than two frames are held, or the
/// buffer is over its ceiling.
pub open spec fn spec_can_release(
    head_ts: u64,
    held: nat,
    total_ns: u64,
    reorder_delay: u64,
    newest_ts: u64,
    target_ns: u64,
    max_ns: u64,
) -> bool {
    (head_ts + reorder_delay <= newest_ts && total_ns >= target_ns && held > 2) || total_ns
        > max_ns
}

/// How many frames leave from the front of `frames`.
pub open spec fn spec_release_count<T>(
    frames: Seq<BufFrame<T>>,
    total_ns: u64,
    reorder_delay: u64,
    newest_ts: u64,
    target_ns: u64,
    max_ns: u64,
) -> nat
    decreases frames.len(),
{
    if frames.len() == 0 {
        0
    } else if spec_can_release(
        frames[0].ts_ns,
        frames.len(),
        total_ns,
        reorder_delay,
        newest_ts,
        target_ns,
        max_ns,
    ) {
        1 + spec_release_count(
            frames.drop_first(),
            spec_sat_sub(total_ns, frames[0].dur_ns),
            reorder_delay,
            newest_ts,
            target_ns,
            max_ns,
        )
    } else {
        0
    }
}

/// The buffered total after the first `k` frames have left.
pub open spec fn spec_total_after<T>(frames: Seq<BufFrame<T>>, total_ns: u64, k: nat) -> u64
    decreases k,
{
    if k == 0 || frames.len() == 0 {
        total_ns
    } else {
        spec_total_after(
            frames.drop_first(),
            spec_sat_sub(total_ns, frames[0].dur_ns),
            (k - 1) as nat,
        )
    }
}

/// Frames ordered by timestamp, oldest first, with the play time they add
/// up to.
pub struct ReorderBuffer<T> {
    frames: Vec<BufFrame<T>>,
    buffered_total_ns: u64,
}

impl<T> ReorderBuffer<T> {
    /// The frames held, oldest first.
    pub closed spec fn frames(&self) -> Seq<BufFrame<T>> {
        self.frames@
    }

    /// The play time accounted for.
    pub closed spec fn total_ns(&self) -> u64 {
        self.buffered_total_ns
    }

    /// Whether the frames are in timestamp order.
    pub open spec fn wf(&self) -> bool {
        spec_sorted(self.frames())
    }

    /// An empty buffer.
    pub fn new() -> (b: ReorderBuffer<T>)
        ensures
            b.frames() == Seq::<BufFrame<T>>::empty(),
            b.total_ns() == 0,
            b.wf(),
    {
        ReorderBuffer { frames: Vec::new(), buffered_total_ns: 0 }
    }

    /// The number of frames held.
    pub fn len(&self) -> (n: usize)
        ensures
            n == self.frames().len(),
    {
        self.frames.len()
    }

    /// The play time accounted for.
    pub fn buffered_ns(&self) -> (total: u64)
        ensures
            total == self.total_ns(),
    {
        self.buffered_total_ns
    }

    /// Puts `frame` in timestamp order, behind frames stamped the same, and
    /// adds its play time to the total.
    pub fn push(&mut self, frame: BufFrame<T>)
        requires
            old(self).wf(),
        ensures
            final(self).wf(),
            final(self).frames() == old(self).frames().insert(
                spec_insert_pos(old(self).frames(), frame.ts_ns),
                frame,
            ),
            final(self).total_ns() == spec_sat_add(old(self).total_ns(), frame.dur_ns),
    {
        let ts: u64 = frame.ts_ns;
        let mut pos: usize = self.frames.len();
        assert(self.frames@.subrange(0, pos as int) =~= self.frames@);
        while pos > 0 && self.frames[pos - 1].ts_ns > ts
            invariant
                pos <= self.frames@.len(),
                self.frames@ == old(self).frames@,
                self.buffered_total_ns == old(self).buffered_total_ns,
                spec_sorted(self.frames@),
                spec_insert_pos(self.frames@, ts) == spec_insert_pos(
                    self.frames@.subrange(0, pos as int),
                    ts,
                ),
            decreases pos,
        {
            let ghost head = self.frames@.subrange(0, pos as int);
            assert(head.drop_last() =~= self.frames@.subrange(0, pos - 1));
            pos -= 1;
        }
        proof {
            let head = self.frames@.subrange(0, pos as int);
            assert(spec_insert_pos(head, ts) == pos);
            assert forall|i: int| 0 <= i < pos implies self.frames@[i].ts_ns <= ts by {
                if pos > 0 {
                    assert(self.frames@[i].ts_ns <= self.frames@[pos - 1].ts_ns);
                }
            }
            assert forall|i: int| pos <= i < self.frames@.len() implies self.frames@[i].ts_ns
                > ts by {
                lemma_insert_pos_tail(self.frames@, ts, i);
            }
        }
        self.buffered_total_ns = self.buffered_total_ns.saturating_add(frame.dur_ns);
        self.frames.insert(pos, frame);
        assert(self.frames@ == old(self).frames@.insert(pos as int, frame));
    }

    /// Takes out, oldest first, every frame that may leave.
    pub fn release(&mut self, reorder_delay: u64, newest_ts: u64, target_ns: u64, max_ns: u64) -> (out:
        Vec<BufFrame<T>>)
        requires
            old(self).wf(),
        ensures
            final(self).wf(),
            out@.len() == spec_release_count(
                old(self).frames(),
                old(self).total_ns(),
                reorder_delay,
                newest_ts,
                target_ns,
                max_ns,
            ),
            out@ + final(self).frames() == old(self).frames(),
            final(self).total_ns() == spec_total_after(
                old(self).frames(),
                old(self).total_ns(),
                out@.len(),
            ),
            spec_sorted(out@),
    {
        let mut out: Vec<BufFrame<T>> = Vec::new();
        assert(out@ + self.frames@ =~= old(self).frames@);
        while self.frames.len() > 0 && can_release(
            self.frames[0].ts_ns,
            self.frames.len(),
            self.buffered_total_ns,
            reorder_delay,
            newest_ts,
            target_ns,
            max_ns,
        )
            invariant
                spec_sorted(self.frames@),
                out@ + self.frames@ == old(self).frames@,
                spec_release_count(
                    old(self).frames@,
                    old(self).buffered_total_ns,
                    reorder_delay,
                    newest_ts,
                    target_ns,
                    max_ns,
                ) == out@.len() + spec_release_count(
                    self.frames@,
                    self.buffered_total_ns,
                    reorder_delay,
                    newest_ts,
                    target_ns,
                    max_ns,
                ),
                spec_total_after(old(self).frames@, old(self).buffered_total_ns, out@.len())
                    == self.buffered_total_ns,
            decreases self.frames@.len(),
        {
            let ghost before = self.frames@;
            let ghost out_before = out@;
            let ghost total_before = self.buffered_total_ns;
            let frame = self.frames.remove(0);
            assert(self.frames@ =~= before.drop_first());
            self.buffered_total_ns = self.buffered_total_ns.saturating_sub(frame.dur_ns);
            out.push(frame);
            proof {
                assert(out@ + self.frames@ =~= out_before + before);
                lemma_total_after_step(
                    old(self).frames@,
                    old(self).buffered_total_ns,
                    out_before.len(),
                );
                assert(old(self).frames@.subrange(
                    out_before.len() as int,
                    old(self).frames@.len() as int,
                ) =~= before);
            }
        }
        proof {
            assert forall|i: int, j: int| 0 <= i <= j < out@.len() implies out@[i].ts_ns
                <= out@[j].ts_ns by {
                assert(out@[i] == old(self).frames@[i]);
                assert(out@[j] == old(self).frames@[j]);
            }
        }
        out
    }

    /// Takes out every frame, oldest first, as when the stream ends.
    pub fn drain(&mut self) -> (out: Vec<BufFrame<T>>)
        requires
            old(self).wf(),
        ensures
            out@ == old(self).frames(),
            final(self).frames() == Seq::<BufFrame<T>>::empty(),
            final(self).total_ns() == old(self).total_ns(),
            final(self).wf(),
    {
        let mut out: Vec<BufFrame<T>> = Vec::new();
        out.append(&mut self.frames);
        assert(out@ =~= old(self).frames@);
        out
    }
}

/// Evaluates [`spec_can_release`].
pub fn can_release(
    head_ts: u64,
    held: usize,
    total_ns: u64,
    reorder_delay: u64,
    newest_ts: u64,
    target_ns: u64,
    max_ns: u64,
) -> (may: bool)
    ensures
        may == spec_can_release(
            head_ts,
            held as nat,
            total_ns,
            reorder_delay,
            newest_ts,
            target_ns,
            max_ns,
        ),
{
    ((head_ts as u128) + (reorder_delay as u128) <= (newest_ts as u128) && total_ns >= target_ns
        && held > 2) || total_ns > max_ns
}

/// In a sorted sequence every frame at or past the insert position is
/// stamped later than `ts_ns`.
pub proof fn lemma_insert_pos_tail<T>(frames: Seq<BufFrame<T>>, ts_ns: u64, i: int)
    requires
        spec_sorted(frames),
        0 <= i,
        spec_insert_pos(frames, ts_ns) <= i < frames.len(),
    ensures
        frames[i].ts_ns > ts_ns,
    decreases frames.len(),
{
    if frames.last().ts_ns <= ts_ns {
    } else if i == frames.len() - 1 {
    } else {
        let head = frames.drop_last();
        assert forall|a: int, b: int| 0 <= a <= b < head.len() implies head[a].ts_ns
            <= head[b].ts_ns by {
            assert(head[a] == frames[a]);
            assert(head[b] == frames[b]);
        }
        lemma_insert_pos_tail(head, ts_ns, i);
        assert(head[i] == frames[i]);
    }
}

/// One more frame leaving lowers the total by that frame's play time.
pub proof fn lemma_total_after_step<T>(frames: Seq<BufFrame<T>>, total_ns: u64, k: nat)
    requires
        k < frames.len(),
    ensures
        spec_total_after(frames, total_ns, k + 1) == spec_sat_sub(
            spec_total_after(frames, total_ns, k),
            frames[k as int].dur_ns,
        ),
    decreases k,
{
    if k == 0 {
        assert(spec_total_after(frames.drop_first(), spec_sat_sub(total_ns, frames[0].dur_ns), 0)
            == spec_sat_sub(total_ns, frames[0].dur_ns));
    } else {
        lemma_total_after_step(
            frames.drop_first(),
            spec_sat_sub(total_ns, frames[0].dur_ns),
            (k - 1) as nat,
        );
        assert(frames.drop_first()[k - 1] == frames[k as int]);
    }
}

/// What leaves the buffer is in timestamp order, and nothing that stays is
/// stamped earlier than anything that left.
pub proof fn lemma_release_in_order<T>(
    before: Seq<BufFrame<T>>,
    out: Seq<BufFrame<T>>,
    rest: Seq<BufFrame<T>>,
)
    requires
        spec_sorted(before),
        out + rest == before,
    ensures
        spec_sorted(out),
        spec_sorted(rest),
        forall|i: int, j: int|
            0 <= i < out.len() && 0 <= j < rest.len() ==> out[i].ts_ns <= rest[j].ts_ns,
{
    assert forall|i: int, j: int| 0 <= i <= j < out.len() implies out[i].ts_ns <= out[j].ts_ns by {
        assert(out[i] == before[i]);
        assert(out[j] == before[j]);
    }
    assert forall|i: int, j: int| 0 <= i <= j < rest.len() implies rest[i].ts_ns
        <= rest[j].ts_ns by {
        assert(rest[i] == before[out.len() + i]);
        assert(rest[j] == before[out.len() + j]);
    }
    assert forall|i: int, j: int| 0 <= i < out.len() && 0 <= j < rest.len() implies out[i].ts_ns
        <= rest[j].ts_ns by {
        assert(out[i] == before[i]);
        assert(rest[j] == before[out.len() + j]);
    }
}

} // verus!
