//! The receiving side's per-datagram pipeline: validate, open, track timing
//! and loss, drop what is late, then buffer and release in timestamp order.
//!
//! Decoding samples lies between acceptance and buffering and is the
//! caller's: [`StreamReceiver::accept`] hands out the plaintext payload,
//! [`StreamReceiver::enqueue`] takes the decoded frame.

use crate::audio::{mono_frames, spec_mono_frames, AudioParams};
use crate::crypto::{open_payload, spec_nonce, xchacha_open, TAG_LEN};
use crate::frame::{
    decode_header, lemma_from_be_2, lemma_header_round_trip, spec_decode_header,
    spec_encode_header, spec_from_be, FrameHeader, HEADER_LEN, MAX_PAYLOAD,
};
use crate::jitter::{
    adjust_targets, compute_reorder_delay, frame_duration_ns, is_late, spec_duration_ns,
    spec_insert_pos, spec_is_late, spec_max_ns, spec_note_sequence, spec_observe,
    spec_release_count, spec_reorder_delay, spec_sat_add, spec_target_ns, spec_total_after,
    BufFrame, LossTracker, ReorderBuffer, StreamClock,
};
use crate::server::{
    spec_body, spec_frame_header, spec_plain_frame, spec_sealed_frame_opens, spec_sealed_header,
};
use vstd::prelude::*;
use vstd::slice::slice_subrange;
use vstd::slice::slice_to_vec;

verus! {

/// Encryption status: the server announced encryption and a frame failed
/// to authenticate.
pub const ENC_AUTH_FAILED: i32 = -1;

/// Encryption status: no encryption, or no key to decrypt with.
pub const ENC_DISABLED: i32 = 0;

/// Encryption status: frames decrypt.
pub const ENC_ACTIVE: i32 = 1;

/// Buffer target before the first frame has set it.
pub const INITIAL_TARGET_NS: u64 = 20_000_000;

/// Buffer ceiling before the first frame has set it.
pub const INITIAL_MAX_NS: u64 = 80_000_000;

/// Why a datagram was turned away.
#[derive(Clone, Copy, Debug, PartialEq, Eq, Structural)]
pub enum Rejection {
    /// Shorter than a header.
    TooShort,
    /// Does not start with the magic.
    BadMagic,
    /// Declares more payload than it carries.
    Truncated,
    /// Encrypted session without salt or key.
    NoKey,
    /// Did not authenticate.
    AuthFailed,
    /// Too far behind the newest frame.
    Late,
    /// Carries a format code the protocol does not know.
    UnknownFormat,
}

/// A datagram that passed: its header, its plaintext payload and the number
/// of mono frames the payload decodes to.
pub struct Accepted {
    pub header: FrameHeader,
    pub payload: Vec<u8>,
    pub mono_frames: usize,
}

/// What the session knows about decryption.
#[derive(Clone, Copy, Debug)]
pub struct Cipher {
    pub enabled: bool,
    pub salt: Option<[u8; 8]>,
    pub key: Option<[u8; 32]>,
    pub status: i32,
    pub decrypt_fail: u64,
}

/// Timing, loss and drop bookkeeping.
#[derive(Clone, Copy, Debug)]
pub struct Tracking {
    pub clock: StreamClock,
    pub loss: LossTracker,
    pub target_buffer_ns: u64,
    pub max_buffer_ns: u64,
    pub newest_ts: u64,
    pub late_drop: u64,
    pub latency_acc_ns: u64,
    pub latency_samples: u64,
}

/// The header and the payload bytes of a datagram, or why it has none: too
/// short for a header, no magic, or fewer bytes than the header declares.
pub open spec fn spec_split_datagram(datagram: Seq<u8>) -> Result<(FrameHeader, Seq<u8>), Rejection> {
    if datagram.len() < HEADER_LEN {
        Err(Rejection::TooShort)
    } else {
        match spec_decode_header(datagram) {
            None => Err(Rejection::BadMagic),
            Some(h) => if HEADER_LEN + h.payload_len > datagram.len() {
                Err(Rejection::Truncated)
            } else {
                Ok((h, datagram.subrange(HEADER_LEN as int, HEADER_LEN + h.payload_len)))
            },
        }
    }
}

/// The cipher state after an attempt to open a frame: success makes the
/// status active, failure counts and makes it failed.
pub open spec fn spec_note_open(c: Cipher, opened: bool) -> Cipher {
    if opened {
        Cipher { status: ENC_ACTIVE, ..c }
    } else {
        Cipher { status: ENC_AUTH_FAILED, decrypt_fail: spec_sat_add(c.decrypt_fail, 1), ..c }
    }
}

/// What opening the payload of a frame gives: the payload itself in a
/// plaintext session, the decryption in an encrypted one, with the header
/// bytes as associated data.
pub open spec fn spec_unseal(c: Cipher, datagram: Seq<u8>, h: FrameHeader, body: Seq<u8>) -> (
    Cipher,
    Result<Seq<u8>, Rejection>,
) {
    if !c.enabled {
        (c, Ok(body))
    } else if c.salt is None || c.key is None {
        (Cipher { status: ENC_DISABLED, ..c }, Err(Rejection::NoKey))
    } else {
        match xchacha_open(
            c.key->0@,
            spec_nonce(c.salt->0@, h.sequence, h.timestamp_ns),
            datagram.subrange(0, HEADER_LEN as int),
            body,
        ) {
            Some(pt) => (spec_note_open(c, true), Ok(pt)),
            None => (spec_note_open(c, false), Err(Rejection::AuthFailed)),
        }
    }
}

/// The bookkeeping after a frame with header `h` and a plaintext of
/// `payload_len` bytes arrived at `now_ns`, and the frame's fate.
///
/// In order: the clock takes in the arrival and the delay joins the latency
/// sum; the sequence is accounted for; target and ceiling follow the jitter;
/// a late frame is counted and dropped; otherwise the newest timestamp moves
/// up and the payload's frame count is returned, unless its format is
/// unknown.
pub open spec fn spec_track(t: Tracking, h: FrameHeader, payload_len: nat, now_ns: u64) -> (
    Tracking,
    Result<nat, Rejection>,
) {
    let seen = spec_observe(t.clock, h.timestamp_ns, now_ns);
    let jitter = seen.clock.jitter_ewma_ns;
    let timed = Tracking {
        clock: seen.clock,
        loss: spec_note_sequence(t.loss, h.sequence),
        target_buffer_ns: spec_target_ns(jitter) as u64,
        max_buffer_ns: spec_max_ns(jitter) as u64,
        latency_acc_ns: spec_sat_add(t.latency_acc_ns, seen.delay_ns),
        latency_samples: spec_sat_add(t.latency_samples, 1),
        ..t
    };
    if spec_is_late(h.timestamp_ns, t.newest_ts, spec_reorder_delay(jitter) as u64) {
        (Tracking { late_drop: spec_sat_add(t.late_drop, 1), ..timed }, Err(Rejection::Late))
    } else {
        let kept = Tracking {
            newest_ts: if h.timestamp_ns > t.newest_ts {
                h.timestamp_ns
            } else {
                t.newest_ts
            },
            ..timed
        };
        match spec_mono_frames(h.format_code, h.channels, payload_len) {
            Some(n) => (kept, Ok(n)),
            None => (kept, Err(Rejection::UnknownFormat)),
        }
    }
}

impl Cipher {
    /// The cipher state of a plaintext session.
    pub fn plaintext() -> (c: Cipher)
        ensures
            c == (Cipher {
                enabled: false,
                salt: None,
                key: None,
                status: ENC_DISABLED,
                decrypt_fail: 0,
            }),
    {
        Cipher { enabled: false, salt: None, key: None, status: ENC_DISABLED, decrypt_fail: 0 }
    }

    /// Records the outcome of an attempt to open a frame and hands the
    /// plaintext on.
    pub fn note_open(&mut self, opened: Result<Vec<u8>, chacha20poly1305::aead::Error>) -> (payload:
        Result<Vec<u8>, Rejection>)
        ensures
            *final(self) == spec_note_open(*old(self), opened is Ok),
            match opened {
                Ok(pt) => payload == Ok::<Vec<u8>, Rejection>(pt),
                Err(_) => payload == Err::<Vec<u8>, Rejection>(Rejection::AuthFailed),
            },
    {
        match opened {
            Ok(pt) => {
                self.status = ENC_ACTIVE;
                Ok(pt)
            },
            Err(_) => {
                self.decrypt_fail = self.decrypt_fail.saturating_add(1);
                self.status = ENC_AUTH_FAILED;
                Err(Rejection::AuthFailed)
            },
        }
    }

    /// Opens the payload `body` of the frame with header `h`.
    pub fn unseal(&mut self, datagram: &[u8], h: &FrameHeader, body: &[u8]) -> (payload: Result<
        Vec<u8>,
        Rejection,
    >)
        requires
            datagram@.len() >= HEADER_LEN,
        ensures
            *final(self) == spec_unseal(*old(self), datagram@, *h, body@).0,
            match payload {
                Ok(pt) => spec_unseal(*old(self), datagram@, *h, body@).1 == Ok::<
                    Seq<u8>,
                    Rejection,
                >(pt@),
                Err(e) => spec_unseal(*old(self), datagram@, *h, body@).1 == Err::<
                    Seq<u8>,
                    Rejection,
                >(e),
            },
    {
        if !self.enabled {
            return Ok(slice_to_vec(body));
        }
        match (&self.salt, &self.key) {
            (Some(salt), Some(key)) => {
                let aad = slice_subrange(datagram, 0, HEADER_LEN);
                let opened = open_payload(key, salt, h.sequence, h.timestamp_ns, aad, body);
                self.note_open(opened)
            },
            _ => {
                self.status = ENC_DISABLED;
                Err(Rejection::NoKey)
            },
        }
    }
}

impl Tracking {
    /// Bookkeeping that has seen nothing.
    pub fn new() -> (t: Tracking)
        ensures
            t.wf(),
            t.clock == (StreamClock { base: None, lag_ns: 0, jitter_ewma_ns: 0, prev_transit: None }),
            t.loss == (LossTracker { expected_seq: 0, lost: 0, received: 0 }),
            t.target_buffer_ns == INITIAL_TARGET_NS,
            t.max_buffer_ns == INITIAL_MAX_NS,
            t.newest_ts == 0,
            t.late_drop == 0,
            t.latency_acc_ns == 0,
            t.latency_samples == 0,
    {
        Tracking {
            clock: StreamClock::new(),
            loss: LossTracker::new(),
            target_buffer_ns: INITIAL_TARGET_NS,
            max_buffer_ns: INITIAL_MAX_NS,
            newest_ts: 0,
            late_drop: 0,
            latency_acc_ns: 0,
            latency_samples: 0,
        }
    }

    /// Whether clock and loss tracker are in order.
    pub open spec fn wf(&self) -> bool {
        self.clock.wf() && self.loss.wf()
    }

    /// Takes in the arrival of a frame; see [`spec_track`].
    pub fn track(&mut self, h: &FrameHeader, payload_len: usize, now_ns: u64) -> (fate: Result<
        usize,
        Rejection,
    >)
        requires
            old(self).wf(),
        ensures
            final(self).wf(),
            *final(self) == spec_track(*old(self), *h, payload_len as nat, now_ns).0,
            match fate {
                Ok(n) => spec_track(*old(self), *h, payload_len as nat, now_ns).1 == Ok::<
                    nat,
                    Rejection,
                >(n as nat),
                Err(e) => spec_track(*old(self), *h, payload_len as nat, now_ns).1 == Err::<
                    nat,
                    Rejection,
                >(e),
            },
    {
        let delay_ns: u64 = self.clock.observe(h.timestamp_ns, now_ns);
        self.latency_acc_ns = self.latency_acc_ns.saturating_add(delay_ns);
        self.latency_samples = self.latency_samples.saturating_add(1);
        self.loss.note_sequence(h.sequence);
        let jitter: u64 = self.clock.jitter_ewma_ns;
        let targets = adjust_targets(jitter);
        self.target_buffer_ns = targets.0;
        self.max_buffer_ns = targets.1;
        let reorder_delay: u64 = compute_reorder_delay(jitter);
        if is_late(h.timestamp_ns, self.newest_ts, reorder_delay) {
            self.late_drop = self.late_drop.saturating_add(1);
            return Err(Rejection::Late);
        }
        if h.timestamp_ns > self.newest_ts {
            self.newest_ts = h.timestamp_ns;
        }
        match mono_frames(h.format_code, h.channels, payload_len) {
            Some(n) => Ok(n),
            None => Err(Rejection::UnknownFormat),
        }
    }

    /// The mean of the delays seen since the last reset, or `None` when
    /// there were none.
    pub fn average_latency_ns(&self) -> (avg: Option<u64>)
        ensures
            avg == if self.latency_samples == 0 {
                None
            } else {
                Some(self.latency_acc_ns / self.latency_samples)
            },
    {
        if self.latency_samples == 0 {
            None
        } else {
            Some(self.latency_acc_ns / self.latency_samples)
        }
    }

    /// Starts a new latency window.
    pub fn reset_latency(&mut self)
        ensures
            *final(self) == (Tracking { latency_acc_ns: 0, latency_samples: 0, ..*old(self) }),
    {
        self.latency_acc_ns = 0;
        self.latency_samples = 0;
    }
}

/// Splits a datagram into header and payload bytes.
pub fn split_datagram(datagram: &[u8]) -> (parts: Result<(FrameHeader, &[u8]), Rejection>)
    ensures
        match parts {
            Ok((h, body)) => spec_split_datagram(datagram@) == Ok::<
                (FrameHeader, Seq<u8>),
                Rejection,
            >((h, body@)),
            Err(e) => spec_split_datagram(datagram@) == Err::<(FrameHeader, Seq<u8>), Rejection>(
                e,
            ),
        },
{
    if datagram.len() < HEADER_LEN {
        return Err(Rejection::TooShort);
    }
    match decode_header(datagram) {
        None => Err(Rejection::BadMagic),
        Some(h) => {
            let len: usize = h.payload_len as usize;
            if len > datagram.len() - HEADER_LEN {
                Err(Rejection::Truncated)
            } else {
                Ok((h, slice_subrange(datagram, HEADER_LEN, HEADER_LEN + len)))
            }
        },
    }
}

/// The receiving side of a session: cipher, bookkeeping and reorder buffer.
pub struct StreamReceiver<T> {
    pub cipher: Cipher,
    pub tracking: Tracking,
    pub buffer: ReorderBuffer<T>,
}

/// What a datagram comes to: the states after it and its fate.
pub open spec fn spec_accept(c: Cipher, t: Tracking, datagram: Seq<u8>, now_ns: u64) -> (
    Cipher,
    Tracking,
    Result<(FrameHeader, Seq<u8>, nat), Rejection>,
) {
    match spec_split_datagram(datagram) {
        Err(e) => (c, t, Err(e)),
        Ok((h, body)) => match spec_unseal(c, datagram, h, body).1 {
            Err(e) => (spec_unseal(c, datagram, h, body).0, t, Err(e)),
            Ok(pt) => match spec_track(t, h, pt.len(), now_ns).1 {
                Err(e) => (
                    spec_unseal(c, datagram, h, body).0,
                    spec_track(t, h, pt.len(), now_ns).0,
                    Err(e),
                ),
                Ok(n) => (
                    spec_unseal(c, datagram, h, body).0,
                    spec_track(t, h, pt.len(), now_ns).0,
                    Ok((h, pt, n)),
                ),
            },
        },
    }
}

impl<T> StreamReceiver<T> {
    /// A receiver with the given cipher state that has seen nothing.
    pub fn new(cipher: Cipher) -> (r: StreamReceiver<T>)
        ensures
            r.wf(),
            r.cipher == cipher,
            r.tracking.newest_ts == 0,
            r.tracking.late_drop == 0,
            r.tracking.loss == (LossTracker { expected_seq: 0, lost: 0, received: 0 }),
            r.buffer.frames() == Seq::<BufFrame<T>>::empty(),
            r.buffer.total_ns() == 0,
    {
        StreamReceiver { cipher, tracking: Tracking::new(), buffer: ReorderBuffer::new() }
    }

    /// Whether bookkeeping and buffer are in order.
    pub open spec fn wf(&self) -> bool {
        self.tracking.wf() && self.buffer.wf()
    }

    /// Takes in a datagram that arrived at local time `now_ns`; see
    /// [`spec_accept`]. The buffer is not touched.
    pub fn accept(&mut self, datagram: &[u8], now_ns: u64) -> (fate: Result<Accepted, Rejection>)
        requires
            old(self).wf(),
        ensures
            final(self).wf(),
            final(self).buffer == old(self).buffer,
            final(self).cipher == spec_accept(
                old(self).cipher,
                old(self).tracking,
                datagram@,
                now_ns,
            ).0,
            final(self).tracking == spec_accept(
                old(self).cipher,
                old(self).tracking,
                datagram@,
                now_ns,
            ).1,
            match fate {
                Ok(a) => spec_accept(old(self).cipher, old(self).tracking, datagram@, now_ns).2
                    == Ok::<(FrameHeader, Seq<u8>, nat), Rejection>(
                    (a.header, a.payload@, a.mono_frames as nat),
                ),
                Err(e) => spec_accept(old(self).cipher, old(self).tracking, datagram@, now_ns).2
                    == Err::<(FrameHeader, Seq<u8>, nat), Rejection>(e),
            },
    {
        let (header, body) = match split_datagram(datagram) {
            Ok(parts) => parts,
            Err(e) => {
                return Err(e);
            },
        };
        let payload = match self.cipher.unseal(datagram, &header, body) {
            Ok(pt) => pt,
            Err(e) => {
                return Err(e);
            },
        };
        match self.tracking.track(&header, payload.len(), now_ns) {
            Ok(n) => Ok(Accepted { header, payload, mono_frames: n }),
            Err(e) => Err(e),
        }
    }

    /// Buffers a decoded frame of `mono_frames` samples and takes out,
    /// oldest first, every frame that may now leave.
    pub fn enqueue(&mut self, ts_ns: u64, mono_frames: u32, sample_rate: u32, data: T) -> (out: Vec<
        BufFrame<T>,
    >)
        requires
            old(self).wf(),
        ensures
            final(self).wf(),
            final(self).cipher == old(self).cipher,
            final(self).tracking == old(self).tracking,
            ({
                let frame = BufFrame {
                    ts_ns,
                    dur_ns: spec_duration_ns(mono_frames, sample_rate),
                    data,
                };
                let held = old(self).buffer.frames().insert(
                    spec_insert_pos(old(self).buffer.frames(), ts_ns),
                    frame,
                );
                let total = spec_sat_add(old(self).buffer.total_ns(), frame.dur_ns);
                &&& out@ + final(self).buffer.frames() == held
                &&& out@.len() == spec_release_count(
                    held,
                    total,
                    spec_reorder_delay(old(self).tracking.clock.jitter_ewma_ns) as u64,
                    old(self).tracking.newest_ts,
                    old(self).tracking.target_buffer_ns,
                    old(self).tracking.max_buffer_ns,
                )
                &&& final(self).buffer.total_ns() == spec_total_after(held, total, out@.len())
            }),
    {
        let dur_ns: u64 = frame_duration_ns(mono_frames, sample_rate);
        self.buffer.push(BufFrame { ts_ns, dur_ns, data });
        let reorder_delay: u64 = compute_reorder_delay(self.tracking.clock.jitter_ewma_ns);
        self.buffer.release(
            reorder_delay,
            self.tracking.newest_ts,
            self.tracking.target_buffer_ns,
            self.tracking.max_buffer_ns,
        )
    }

    /// Takes out every buffered frame, oldest first, as when the stream
    /// ends.
    pub fn finish(&mut self) -> (out: Vec<BufFrame<T>>)
        requires
            old(self).wf(),
        ensures
            final(self).wf(),
            final(self).cipher == old(self).cipher,
            final(self).tracking == old(self).tracking,
            out@ == old(self).buffer.frames(),
            final(self).buffer.frames() == Seq::<BufFrame<T>>::empty(),
            final(self).buffer.total_ns() == old(self).buffer.total_ns(),
    {
        self.buffer.drain()
    }
}

/// What the sender frames in plaintext, the receiver splits into the same
/// header and body.
pub proof fn lemma_plain_frame_splits(
    sequence: u32,
    params: AudioParams,
    timestamp_ns: u64,
    payload: Seq<u8>,
)
    ensures
        spec_split_datagram(spec_plain_frame(sequence, params, timestamp_ns, payload)) == Ok::<
            (FrameHeader, Seq<u8>),
            Rejection,
        >(
            (
                spec_frame_header(
                    sequence,
                    params,
                    timestamp_ns,
                    spec_body(payload).len() as u16,
                ),
                spec_body(payload),
            ),
        ),
{
    let body = spec_body(payload);
    let h = spec_frame_header(sequence, params, timestamp_ns, body.len() as u16);
    lemma_header_round_trip(h, body);
    let datagram = spec_encode_header(h) + body;
    assert(datagram.subrange(HEADER_LEN as int, HEADER_LEN + h.payload_len) =~= body);
}

/// What the sender frames around a ciphertext, the receiver splits into the
/// same header and ciphertext, and the associated data it authenticates is
/// the header that the sender sealed with.
pub proof fn lemma_sealed_frame_splits(
    sequence: u32,
    params: AudioParams,
    timestamp_ns: u64,
    payload: Seq<u8>,
    sealed: Seq<u8>,
)
    requires
        sealed.len() == spec_body(payload).len() + TAG_LEN,
        sealed.len() <= MAX_PAYLOAD,
    ensures
        spec_split_datagram(
            spec_sealed_header(sequence, params, timestamp_ns, payload) + sealed,
        ) == Ok::<(FrameHeader, Seq<u8>), Rejection>(
            (spec_frame_header(sequence, params, timestamp_ns, sealed.len() as u16), sealed),
        ),
        (spec_sealed_header(sequence, params, timestamp_ns, payload) + sealed).subrange(
            0,
            HEADER_LEN as int,
        ) == spec_sealed_header(sequence, params, timestamp_ns, payload),
{
    let h = spec_frame_header(sequence, params, timestamp_ns, sealed.len() as u16);
    lemma_header_round_trip(h, sealed);
    let datagram = spec_encode_header(h) + sealed;
    assert(datagram.subrange(HEADER_LEN as int, HEADER_LEN + h.payload_len) =~= sealed);
    assert(datagram.subrange(0, HEADER_LEN as int) =~= spec_encode_header(h));
}

/// A sealed frame that opens is taken by the receiver that holds the same
/// key and salt: the datagram splits into the sender's header and the
/// ciphertext, the two bytes of its length field count the body and the
/// tag, and unsealing gives the sender's body and an active status.
pub proof fn lemma_sealed_frame_is_opened(
    c: Cipher,
    datagram: Seq<u8>,
    sequence: u32,
    params: AudioParams,
    timestamp_ns: u64,
    payload: Seq<u8>,
)
    requires
        c.enabled,
        c.key is Some,
        c.salt is Some,
        spec_sealed_frame_opens(
            datagram,
            sequence,
            params,
            timestamp_ns,
            payload,
            c.key->0@,
            c.salt->0@,
        ),
    ensures
        spec_from_be(datagram.subrange(12, 14)) == spec_body(payload).len() + TAG_LEN,
        spec_split_datagram(datagram) == Ok::<(FrameHeader, Seq<u8>), Rejection>(
            (
                spec_frame_header(
                    sequence,
                    params,
                    timestamp_ns,
                    (spec_body(payload).len() + TAG_LEN) as u16,
                ),
                datagram.subrange(HEADER_LEN as int, datagram.len() as int),
            ),
        ),
        spec_unseal(
            c,
            datagram,
            spec_frame_header(
                sequence,
                params,
                timestamp_ns,
                (spec_body(payload).len() + TAG_LEN) as u16,
            ),
            datagram.subrange(HEADER_LEN as int, datagram.len() as int),
        ) == (spec_note_open(c, true), Ok::<Seq<u8>, Rejection>(spec_body(payload))),
{
    let sealed = datagram.subrange(HEADER_LEN as int, datagram.len() as int);
    let head = spec_sealed_header(sequence, params, timestamp_ns, payload);
    lemma_sealed_frame_splits(sequence, params, timestamp_ns, payload, sealed);
    assert(datagram =~= head + sealed);
    let h = spec_frame_header(sequence, params, timestamp_ns, sealed.len() as u16);
    lemma_header_round_trip(h, sealed);
    lemma_from_be_2(datagram.subrange(12, 14));
}

} // verus!
