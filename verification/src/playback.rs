//! The playback side's sample queue: a short prebuffer before the first
//! sound, then one block of output per hardware callback, with silence and
//! an underrun count where decoded audio is missing.

use vstd::prelude::*;

verus! {

/// The share of a second that is buffered before playback starts: a
/// fiftieth, 20 ms.
pub const PREBUFFER_DIVISOR: u32 = 50;

/// `sample`, `times` times over.
pub open spec fn spec_repeat<T>(sample: T, times: nat) -> Seq<T> {
    Seq::new(times, |i: int| sample)
}

/// Each of `samples` repeated for every one of `channels` output channels.
pub open spec fn spec_spread<T>(samples: Seq<T>, channels: nat) -> Seq<T>
    decreases samples.len(),
{
    if samples.len() == 0 {
        Seq::empty()
    } else {
        spec_spread(samples.drop_last(), channels) + spec_repeat(samples.last(), channels)
    }
}

/// The channels that a device buffer is laid out in: as many as it says,
/// and one where it says none.
pub open spec fn spec_channels(out_channels: usize) -> nat {
    if out_channels == 0 {
        1
    } else {
        out_channels as nat
    }
}

/// The frames of one callback: what is queued, as far as needed, then
/// silence for the rest.
pub open spec fn spec_frames<T>(queued: Seq<T>, needed: nat, silence: T) -> Seq<T> {
    if queued.len() >= needed {
        queued.subrange(0, needed as int)
    } else {
        queued + spec_repeat(silence, (needed - queued.len()) as nat)
    }
}

/// The queue of decoded mono samples between receiver and output device.
pub struct Playback<T> {
    leftover: Vec<T>,
    started: bool,
    underruns: u64,
    prebuffer_frames: usize,
}

impl<T: Copy> Playback<T> {
    /// The samples queued.
    pub closed spec fn queued(&self) -> Seq<T> {
        self.leftover@
    }

    /// Whether the prebuffer has filled once.
    pub closed spec fn started(&self) -> bool {
        self.started
    }

    /// The number of frames that had to be filled with silence.
    pub closed spec fn underruns(&self) -> u64 {
        self.underruns
    }

    /// The number of samples to queue before playback starts.
    pub closed spec fn prebuffer(&self) -> nat {
        self.prebuffer_frames as nat
    }

    /// An empty queue for a stream of `sample_rate` samples per second,
    /// with a prebuffer of 20 ms.
    pub fn new(sample_rate: u32) -> (p: Playback<T>)
        ensures
            p.queued() == Seq::<T>::empty(),
            !p.started(),
            p.underruns() == 0,
            p.prebuffer() == sample_rate / PREBUFFER_DIVISOR,
    {
        Playback {
            leftover: Vec::new(),
            started: false,
            underruns: 0,
            prebuffer_frames: (sample_rate / PREBUFFER_DIVISOR) as usize,
        }
    }

    /// Whether the prebuffer has filled once.
    pub fn has_started(&self) -> (started: bool)
        ensures
            started == self.started(),
    {
        self.started
    }

    /// The number of samples queued.
    pub fn len(&self) -> (n: usize)
        ensures
            n == self.queued().len(),
    {
        self.leftover.len()
    }

    /// The number of frames that had to be filled with silence so far.
    pub fn underrun_count(&self) -> (n: u64)
        ensures
            n == self.underruns(),
    {
        self.underruns
    }

    /// Whether more decoded audio should be taken in before the next
    /// callback is served: up to the prebuffer before playback has
    /// started, up to `needed_frames` afterwards.
    pub fn wants_more(&self, needed_frames: usize) -> (more: bool)
        ensures
            more == if self.started() {
                self.queued().len() < needed_frames
            } else {
                self.queued().len() < self.prebuffer()
            },
    {
        if self.started {
            self.leftover.len() < needed_frames
        } else {
            self.leftover.len() < self.prebuffer_frames
        }
    }

    /// Queues decoded samples.
    pub fn feed(&mut self, samples: Vec<T>)
        ensures
            final(self).queued() == old(self).queued() + samples@,
            final(self).started() == old(self).started(),
            final(self).underruns() == old(self).underruns(),
            final(self).prebuffer() == old(self).prebuffer(),
    {
        let mut samples = samples;
        self.leftover.append(&mut samples);
    }

    /// Produces the output of one callback for a device buffer of `out_len`
    /// samples in `out_channels` interleaved channels; no channels count as
    /// one.
    ///
    /// Until the prebuffer has filled, the output is `out_len` samples of
    /// silence and the queue is left alone. From then on the output holds
    /// as many frames as `out_len` has room for, each the next queued sample on
    /// every channel, or silence where the queue has run out; each silent
    /// frame counts as an underrun, and what was played leaves the queue.
    pub fn render(&mut self, out_len: usize, out_channels: usize, silence: T) -> (out: Vec<T>)
        ensures
            final(self).prebuffer() == old(self).prebuffer(),
            final(self).started() == (old(self).started() || old(self).queued().len() >= old(
                self,
            ).prebuffer()),
            !final(self).started() ==> {
                &&& out@ == spec_repeat(silence, out_len as nat)
                &&& final(self).queued() == old(self).queued()
                &&& final(self).underruns() == old(self).underruns()
            },
            final(self).started() ==> {
                let needed = (out_len as nat) / spec_channels(out_channels);
                let have = old(self).queued().len();
                &&& out@ == spec_spread(
                    spec_frames(old(self).queued(), needed, silence),
                    spec_channels(out_channels),
                )
                &&& final(self).queued() == if have >= needed {
                    old(self).queued().subrange(needed as int, have as int)
                } else {
                    Seq::<T>::empty()
                }
                &&& final(self).underruns() == if have >= needed {
                    old(self).underruns()
                } else if old(self).underruns() + (needed - have) > u64::MAX {
                    u64::MAX
                } else {
                    (old(self).underruns() + (needed - have)) as u64
                }
            },
    {
        if !self.started {
            if self.leftover.len() >= self.prebuffer_frames {
                self.started = true;
            } else {
                return repeat(silence, out_len);
            }
        }
        let channels: usize = if out_channels == 0 {
            1
        } else {
            out_channels
        };
        let needed: usize = out_len / channels;
        let have: usize = self.leftover.len();
        let mut out: Vec<T> = Vec::new();
        let mut frame: usize = 0;
        let ghost frames = spec_frames(self.leftover@, needed as nat, silence);
        assert(frames.subrange(0, 0) =~= Seq::<T>::empty());
        while frame < needed
            invariant
                frame <= needed,
                channels == spec_channels(out_channels),
                have == self.leftover@.len(),
                self.leftover@ == old(self).leftover@,
                frames == spec_frames(self.leftover@, needed as nat, silence),
                frames.len() == needed,
                out@ == spec_spread(frames.subrange(0, frame as int), channels as nat),
            decreases needed - frame,
        {
            let sample: T = if frame < have {
                self.leftover[frame]
            } else {
                silence
            };
            assert(sample == frames[frame as int]);
            let mut block = repeat(sample, channels);
            out.append(&mut block);
            proof {
                let next = frames.subrange(0, frame + 1);
                assert(next.drop_last() =~= frames.subrange(0, frame as int));
                assert(next.last() == sample);
            }
            frame += 1;
        }
        assert(frames.subrange(0, needed as int) =~= frames);
        if needed <= have {
            let rest = self.leftover.split_off(needed);
            self.leftover = rest;
        } else {
            let missing: usize = needed - have;
            self.underruns = self.underruns.saturating_add(missing as u64);
            self.leftover.clear();
        }
        out
    }
}

/// Makes `times` copies of `sample`.
pub fn repeat<T: Copy>(sample: T, times: usize) -> (out: Vec<T>)
    ensures
        out@ == spec_repeat(sample, times as nat),
{
    let mut out: Vec<T> = Vec::new();
    let mut i: usize = 0;
    while i < times
        invariant
            i <= times,
            out@.len() == i,
            forall|j: int| 0 <= j < i ==> out@[j] == sample,
        decreases times - i,
    {
        out.push(sample);
        i += 1;
    }
    assert(out@ =~= spec_repeat(sample, times as nat));
    out
}

} // verus!
