//! The sending side: session identity, the handshake line, and the framing
//! of captured audio into datagrams.

use crate::audio::{default_params, spec_default_params, AudioParams};
use crate::buffers::{spec_payload, spec_push, AudioBufferPool};
use crate::crypto::{
    derive_key, seal_payload, spec_derive_key, spec_nonce, xchacha_open, xchacha_seal, TAG_LEN,
};
use crate::frame::{encode_header, spec_encode_header, FrameHeader, HEADER_LEN, MAX_PAYLOAD};
use crate::text::{
    push_bytes, push_decimal, push_hex, spec_decimal_text, spec_hex_text,
};
use crate::types::{sample_format_code, spec_format_code};
use crate::words::{NEWLINE, SPACE, WORD_ENC, WORD_NOENC, WORD_NO_PARAMS, WORD_OK};
use rand::distributions::Alphanumeric;
use rand::Rng;
use vstd::prelude::*;
use vstd::slice::slice_subrange;

verus! {

/// Length of a session key.
pub const SESSION_KEY_LEN: usize = 16;

/// First octet of every multicast group the server picks.
pub const MULTICAST_PREFIX: u8 = 239;

/// Silence after which a client is dropped from the registry.
pub const CLIENT_TIMEOUT_MS: u64 = 5000;

/// Where the server stands.
#[derive(Clone, Copy, Debug, PartialEq, Eq, Structural)]
pub enum Stage {
    Stopped,
    Listening,
    AudioReady,
}

impl Stage {
    /// The number the stage is shown as: 0, 1 or 2.
    pub open spec fn spec_code(self) -> u8 {
        match self {
            Stage::Stopped => 0,
            Stage::Listening => 1,
            Stage::AudioReady => 2,
        }
    }

    /// Returns the stage's number.
    pub fn code(self) -> (c: u8)
        ensures
            c == self.spec_code(),
    {
        match self {
            Stage::Stopped => 0,
            Stage::Listening => 1,
            Stage::AudioReady => 2,
        }
    }
}

/// Whether `b` is an ASCII letter or digit.
pub open spec fn spec_is_alphanumeric(b: u8) -> bool {
    (48 <= b && b <= 57) || (65 <= b && b <= 90) || (97 <= b && b <= 122)
}

/// Calls `Rng::gen` on `rand::thread_rng()` for eight bytes. Nothing is
/// claimed of them.
#[verifier::external_body]
fn random_block() -> (block: [u8; 8]) {
    rand::thread_rng().gen()
}

/// Samples `rand`'s `Alphanumeric` distribution `n` times. Trusted: `n`
/// bytes come back and each is an ASCII letter or digit.
#[verifier::external_body]
fn random_alphanumeric(n: usize) -> (key: Vec<u8>)
    ensures
        key@.len() == n,
        forall|i: int| 0 <= i < n ==> spec_is_alphanumeric(#[trigger] key@[i]),
{
    rand::thread_rng().sample_iter(&Alphanumeric).take(n).collect()
}

/// Makes the session key of a new client: 16 random letters and digits.
pub fn random_key() -> (key: Vec<u8>)
    ensures
        key@.len() == SESSION_KEY_LEN,
        forall|i: int| 0 <= i < key@.len() ==> spec_is_alphanumeric(#[trigger] key@[i]),
{
    random_alphanumeric(SESSION_KEY_LEN)
}

/// The part of a payload that goes into a frame: its first 65,535 bytes.
pub open spec fn spec_body(payload: Seq<u8>) -> Seq<u8> {
    if payload.len() > MAX_PAYLOAD {
        payload.subrange(0, MAX_PAYLOAD as int)
    } else {
        payload
    }
}

/// The header of a frame; the channel count travels as one byte.
pub open spec fn spec_frame_header(
    sequence: u32,
    params: AudioParams,
    timestamp_ns: u64,
    payload_len: u16,
) -> FrameHeader {
    FrameHeader {
        sequence,
        format_code: spec_format_code(params.sample_format),
        channels: (params.channels % 256) as u8,
        sample_rate: params.sample_rate,
        payload_len,
        timestamp_ns,
    }
}

/// The plaintext datagram: header, then body.
pub open spec fn spec_plain_frame(
    sequence: u32,
    params: AudioParams,
    timestamp_ns: u64,
    payload: Seq<u8>,
) -> Seq<u8> {
    let body = spec_body(payload);
    spec_encode_header(spec_frame_header(sequence, params, timestamp_ns, body.len() as u16)) + body
}

/// The header of the encrypted datagram, which is also the associated data:
/// its length field counts the body and the tag.
pub open spec fn spec_sealed_header(
    sequence: u32,
    params: AudioParams,
    timestamp_ns: u64,
    payload: Seq<u8>,
) -> Seq<u8> {
    spec_encode_header(
        spec_frame_header(
            sequence,
            params,
            timestamp_ns,
            (spec_body(payload).len() + TAG_LEN) as u16,
        ),
    )
}

/// What goes out once sealing was tried: header and ciphertext where it
/// worked, the plaintext datagram where it did not.
pub open spec fn spec_assemble(aad: Seq<u8>, plain: Seq<u8>, sealed: Option<Seq<u8>>) -> Seq<u8> {
    match sealed {
        Some(ct) => aad + ct,
        None => plain,
    }
}

/// The datagram for a payload. With a cipher, given as key and salt, the
/// body is sealed unless body and tag would not fit the length field.
pub open spec fn spec_wire_frame(
    sequence: u32,
    params: AudioParams,
    timestamp_ns: u64,
    payload: Seq<u8>,
    cipher: Option<(Seq<u8>, Seq<u8>)>,
) -> Seq<u8> {
    let plain = spec_plain_frame(sequence, params, timestamp_ns, payload);
    match cipher {
        Some((key, salt)) => if spec_body(payload).len() + TAG_LEN <= MAX_PAYLOAD {
            let aad = spec_sealed_header(sequence, params, timestamp_ns, payload);
            spec_assemble(
                aad,
                plain,
                xchacha_seal(key, spec_nonce(salt, sequence, timestamp_ns), aad, spec_body(payload)),
            )
        } else {
            plain
        },
        None => plain,
    }
}

/// Whether `datagram` is a sealed frame of `payload` that its receiver can
/// open: the header whose length field counts body and tag, then that many
/// bytes, which open to the body under the frame's nonce with the header
/// bytes as associated data.
pub open spec fn spec_sealed_frame_opens(
    datagram: Seq<u8>,
    sequence: u32,
    params: AudioParams,
    timestamp_ns: u64,
    payload: Seq<u8>,
    key: Seq<u8>,
    salt: Seq<u8>,
) -> bool {
    let body = spec_body(payload);
    &&& body.len() + TAG_LEN <= MAX_PAYLOAD
    &&& datagram.len() == HEADER_LEN + body.len() + TAG_LEN
    &&& datagram.subrange(0, HEADER_LEN as int) == spec_sealed_header(
        sequence,
        params,
        timestamp_ns,
        payload,
    )
    &&& xchacha_open(
        key,
        spec_nonce(salt, sequence, timestamp_ns),
        datagram.subrange(0, HEADER_LEN as int),
        datagram.subrange(HEADER_LEN as int, datagram.len() as int),
    ) == Some(body)
}

/// Builds the header of a frame.
pub fn frame_header(sequence: u32, params: &AudioParams, timestamp_ns: u64, payload_len: u16) -> (h:
    FrameHeader)
    ensures
        h == spec_frame_header(sequence, *params, timestamp_ns, payload_len),
{
    FrameHeader {
        sequence,
        format_code: sample_format_code(params.sample_format),
        channels: (params.channels % 256) as u8,
        sample_rate: params.sample_rate,
        payload_len,
        timestamp_ns,
    }
}

/// Cuts a payload to what a frame can carry.
pub fn frame_body(payload: &[u8]) -> (body: &[u8])
    ensures
        body@ == spec_body(payload@),
        body@.len() <= MAX_PAYLOAD,
{
    if payload.len() > MAX_PAYLOAD {
        slice_subrange(payload, 0, MAX_PAYLOAD)
    } else {
        payload
    }
}

/// Builds the plaintext datagram for a payload.
pub fn plain_frame(sequence: u32, params: &AudioParams, timestamp_ns: u64, payload: &[u8]) -> (frame:
    Vec<u8>)
    ensures
        frame@ == spec_plain_frame(sequence, *params, timestamp_ns, payload@),
{
    let body = frame_body(payload);
    let header = frame_header(sequence, params, timestamp_ns, body.len() as u16);
    let mut frame = encode_header(&header);
    frame.extend_from_slice(body);
    frame
}

/// Puts together what goes out once sealing was tried.
pub fn assemble_frame(
    aad: Vec<u8>,
    plain: Vec<u8>,
    sealed: Result<Vec<u8>, chacha20poly1305::aead::Error>,
) -> (frame: Vec<u8>)
    ensures
        frame@ == spec_assemble(
            aad@,
            plain@,
            match sealed {
                Ok(ct) => Some(ct@),
                Err(_) => None,
            },
        ),
{
    match sealed {
        Ok(ct) => {
            let mut frame = aad;
            frame.extend_from_slice(ct.as_slice());
            frame
        },
        Err(_) => plain,
    }
}

/// Builds the datagram for a payload, sealed where a cipher is given and
/// the sealed body fits. Such a frame opens to the body again under the
/// same key and salt.
pub fn wire_frame(
    sequence: u32,
    params: &AudioParams,
    timestamp_ns: u64,
    payload: &[u8],
    cipher: Option<(&[u8; 32], &[u8; 8])>,
) -> (frame: Vec<u8>)
    ensures
        frame@ == spec_wire_frame(
            sequence,
            *params,
            timestamp_ns,
            payload@,
            match cipher {
                Some((key, salt)) => Some((key@, salt@)),
                None => None,
            },
        ),
        match cipher {
            Some((key, salt)) => spec_body(payload@).len() + TAG_LEN <= MAX_PAYLOAD
                ==> spec_sealed_frame_opens(
                frame@,
                sequence,
                *params,
                timestamp_ns,
                payload@,
                key@,
                salt@,
            ),
            None => true,
        },
{
    let plain = plain_frame(sequence, params, timestamp_ns, payload);
    match cipher {
        Some((key, salt)) => {
            let body = frame_body(payload);
            if body.len() + TAG_LEN <= MAX_PAYLOAD {
                let header = frame_header(
                    sequence,
                    params,
                    timestamp_ns,
                    (body.len() + TAG_LEN) as u16,
                );
                let aad = encode_header(&header);
                let sealed = seal_payload(key, salt, sequence, timestamp_ns, aad.as_slice(), body);
                proof {
                    if sealed is Ok {
                        let ct = sealed->Ok_0@;
                        let whole = aad@ + ct;
                        assert(whole.subrange(0, HEADER_LEN as int) =~= aad@);
                        assert(whole.subrange(HEADER_LEN as int, whole.len() as int) =~= ct);
                    }
                }
                assemble_frame(aad, plain, sealed)
            } else {
                plain
            }
        },
        None => plain,
    }
}

/// The dotted text of a four-byte address.
pub open spec fn spec_dotted(addr: Seq<u8>) -> Seq<u8> {
    spec_decimal_text(addr[0] as nat) + seq![46u8] + spec_decimal_text(addr[1] as nat) + seq![46u8]
        + spec_decimal_text(addr[2] as nat) + seq![46u8] + spec_decimal_text(addr[3] as nat)
}

/// The line a client is greeted with. With parameters:
/// `OK <key> <rate> <channels> <format> <group> <port>`, then ` ENC <salt>`
/// or ` NOENC`; without: `NO_PARAMS <key>`. A line feed ends it.
pub open spec fn spec_handshake_line(
    params: Option<AudioParams>,
    key: Seq<u8>,
    group: Seq<u8>,
    port: u16,
    salt: Option<Seq<u8>>,
) -> Seq<u8> {
    match params {
        Some(p) => WORD_OK@ + seq![SPACE] + key + seq![SPACE] + spec_decimal_text(
            p.sample_rate as nat,
        ) + seq![SPACE] + spec_decimal_text(p.channels as nat) + seq![SPACE] + spec_decimal_text(
            spec_format_code(p.sample_format) as nat,
        ) + seq![SPACE] + spec_dotted(group) + seq![SPACE] + spec_decimal_text(port as nat)
            + seq![SPACE] + (match salt {
            Some(s) => WORD_ENC@ + seq![SPACE] + spec_hex_text(s),
            None => WORD_NOENC@,
        }) + seq![NEWLINE],
        None => WORD_NO_PARAMS@ + seq![SPACE] + key + seq![NEWLINE],
    }
}

/// Writes the dotted text of an address.
pub fn push_dotted(out: &mut Vec<u8>, addr: &[u8; 4])
    ensures
        final(out)@ == old(out)@ + spec_dotted(addr@),
{
    push_decimal(out, addr[0] as u32);
    out.push(46);
    push_decimal(out, addr[1] as u32);
    out.push(46);
    push_decimal(out, addr[2] as u32);
    out.push(46);
    push_decimal(out, addr[3] as u32);
    assert(out@ =~= old(out)@ + spec_dotted(addr@));
}

/// Writes the line a client is greeted with.
pub fn handshake_line(
    params: Option<AudioParams>,
    key: &[u8],
    group: &[u8; 4],
    port: u16,
    salt: Option<&[u8; 8]>,
) -> (line: Vec<u8>)
    ensures
        line@ == spec_handshake_line(
            params,
            key@,
            group@,
            port,
            match salt {
                Some(s) => Some(s@),
                None => None,
            },
        ),
{
    let mut line: Vec<u8> = Vec::new();
    match params {
        Some(p) => {
            push_bytes(&mut line, WORD_OK.as_slice());
            line.push(SPACE);
            push_bytes(&mut line, key);
            line.push(SPACE);
            push_decimal(&mut line, p.sample_rate);
            line.push(SPACE);
            push_decimal(&mut line, p.channels as u32);
            line.push(SPACE);
            push_decimal(&mut line, sample_format_code(p.sample_format) as u32);
            line.push(SPACE);
            push_dotted(&mut line, group);
            line.push(SPACE);
            push_decimal(&mut line, port as u32);
            line.push(SPACE);
            let ghost before = line@;
            match salt {
                Some(s) => {
                    push_bytes(&mut line, WORD_ENC.as_slice());
                    line.push(SPACE);
                    push_hex(&mut line, s.as_slice());
                    assert(line@ =~= before + (WORD_ENC@ + seq![SPACE] + spec_hex_text(s@)));
                },
                None => {
                    push_bytes(&mut line, WORD_NOENC.as_slice());
                },
            }
            line.push(NEWLINE);
            assert(line@ =~= spec_handshake_line(
                params,
                key@,
                group@,
                port,
                match salt {
                    Some(s) => Some(s@),
                    None => None,
                },
            ));
        },
        None => {
            push_bytes(&mut line, WORD_NO_PARAMS.as_slice());
            line.push(SPACE);
            push_bytes(&mut line, key);
            line.push(NEWLINE);
            assert(line@ =~= WORD_NO_PARAMS@ + seq![SPACE] + key@ + seq![NEWLINE]);
        },
    }
    line
}

/// The state of a sending session.
pub struct ServerState {
    pub running: bool,
    pub stage: Stage,
    pub input_running: bool,
    pub audio_params: Option<AudioParams>,
    pub multicast_addr: [u8; 4],
    pub multicast_port: u16,
    pub psk: Option<String>,
    pub salt: [u8; 8],
    pub key_bytes: Option<[u8; 32]>,
    pub next_sequence: u32,
}

impl ServerState {
    /// A stopped session with the group `239.a.b.c` for the three octets
    /// given and with the given salt.
    pub fn from_random(octets: [u8; 3], salt: [u8; 8]) -> (state: ServerState)
        ensures
            !state.running,
            state.stage == Stage::Stopped,
            !state.input_running,
            state.audio_params is None,
            state.multicast_addr@ == seq![MULTICAST_PREFIX, octets[0], octets[1], octets[2]],
            state.multicast_port == 0,
            state.psk is None,
            state.salt == salt,
            state.key_bytes is None,
            state.next_sequence == 0,
    {
        let multicast_addr: [u8; 4] = [MULTICAST_PREFIX, octets[0], octets[1], octets[2]];
        assert(multicast_addr@ =~= seq![MULTICAST_PREFIX, octets[0], octets[1], octets[2]]);
        ServerState {
            running: false,
            stage: Stage::Stopped,
            input_running: false,
            audio_params: None,
            multicast_addr,
            multicast_port: 0,
            psk: None,
            salt,
            key_bytes: None,
            next_sequence: 0,
        }
    }

    /// A stopped session with a random group in `239.0.0.0/8` and a random
    /// salt.
    pub fn new() -> (state: ServerState)
        ensures
            !state.running,
            state.stage == Stage::Stopped,
            !state.input_running,
            state.audio_params is None,
            state.multicast_addr@[0] == MULTICAST_PREFIX,
            state.multicast_port == 0,
            state.psk is None,
            state.key_bytes is None,
            state.next_sequence == 0,
    {
        let drawn = random_block();
        let octets: [u8; 3] = [drawn[0], drawn[1], drawn[2]];
        ServerState::from_random(octets, random_block())
    }

    /// Turns encryption on: remembers the key text and derives the key from
    /// it and the session salt.
    pub fn enable_psk(&mut self, psk: String)
        ensures
            final(self).psk == Some(psk),
            final(self).key_bytes is Some,
            final(self).key_bytes->0@ == spec_derive_key(vstd::utf8::encode_utf8(psk@), old(self).salt@),
            final(self).running == old(self).running,
            final(self).stage == old(self).stage,
            final(self).input_running == old(self).input_running,
            final(self).audio_params == old(self).audio_params,
            final(self).multicast_addr == old(self).multicast_addr,
            final(self).multicast_port == old(self).multicast_port,
            final(self).salt == old(self).salt,
            final(self).next_sequence == old(self).next_sequence,
    {
        let key = derive_key(psk.as_str(), &self.salt);
        self.key_bytes = Some(key);
        self.psk = Some(psk);
    }

    /// The key and salt that frames are sealed with, if encryption is on.
    pub open spec fn spec_cipher(&self) -> Option<(Seq<u8>, Seq<u8>)> {
        match self.key_bytes {
            Some(key) => Some((key@, self.salt@)),
            None => None,
        }
    }

    /// The parameters frames are stamped with.
    pub open spec fn spec_frame_params(&self) -> AudioParams {
        match self.audio_params {
            Some(p) => p,
            None => spec_default_params(),
        }
    }

    /// Records the parameters the capture stream was opened with and moves
    /// to `AudioReady`.
    pub fn audio_ready(&mut self, params: AudioParams)
        ensures
            *final(self) == (ServerState {
                audio_params: Some(params),
                stage: Stage::AudioReady,
                ..*old(self)
            }),
    {
        self.audio_params = Some(params);
        self.stage = Stage::AudioReady;
    }

    /// Writes the greeting for a client with the session key `key`.
    pub fn greeting(&self, key: &[u8]) -> (line: Vec<u8>)
        ensures
            line@ == spec_handshake_line(
                self.audio_params,
                key@,
                self.multicast_addr@,
                self.multicast_port,
                match self.key_bytes {
                    Some(_) => Some(self.salt@),
                    None => None,
                },
            ),
    {
        let salt: Option<&[u8; 8]> = match &self.key_bytes {
            Some(_) => Some(&self.salt),
            None => None,
        };
        handshake_line(self.audio_params, key, &self.multicast_addr, self.multicast_port, salt)
    }

    /// Turns the captured chunk in buffer `idx` into the next datagram and
    /// returns the buffer to the pool.
    ///
    /// A buffer whose length prefix is zero or too large gives no datagram
    /// and leaves the sequence alone; the buffer goes back to the pool all
    /// the same. An index the pool does not have changes nothing.
    pub fn next_datagram(&mut self, pool: &mut AudioBufferPool, idx: usize, timestamp_ns: u64) -> (frame:
        Option<Vec<u8>>)
        requires
            old(pool).wf(),
        ensures
            final(pool).wf(),
            final(pool).buffers() == old(pool).buffers(),
            final(pool).free() == if idx < old(pool).count() {
                spec_push(old(pool).free(), old(pool).count(), idx)
            } else {
                old(pool).free()
            },
            match frame {
                Some(f) => idx < old(pool).count() && spec_payload(old(pool).buffers()[idx as int])
                    is Some && f@ == spec_wire_frame(
                    old(self).next_sequence,
                    old(self).spec_frame_params(),
                    timestamp_ns,
                    spec_payload(old(pool).buffers()[idx as int])->0,
                    old(self).spec_cipher(),
                ) && (match old(self).spec_cipher() {
                    Some((key, salt)) => spec_sealed_frame_opens(
                        f@,
                        old(self).next_sequence,
                        old(self).spec_frame_params(),
                        timestamp_ns,
                        spec_payload(old(pool).buffers()[idx as int])->0,
                        key,
                        salt,
                    ),
                    None => true,
                }),
                None => idx >= old(pool).count() || spec_payload(old(pool).buffers()[idx as int])
                    is None,
            },
            *final(self) == (ServerState {
                next_sequence: if frame is Some {
                    if old(self).next_sequence == u32::MAX {
                        0u32
                    } else {
                        (old(self).next_sequence + 1) as u32
                    }
                } else {
                    old(self).next_sequence
                },
                ..*old(self)
            }),
    {
        if idx >= pool.len() {
            return None;
        }
        let payload = pool.payload(idx);
        pool.push(idx);
        match payload {
            Some(p) => {
                let params = match self.audio_params {
                    Some(p) => p,
                    None => default_params(),
                };
                let cipher: Option<(&[u8; 32], &[u8; 8])> = match &self.key_bytes {
                    Some(key) => Some((key, &self.salt)),
                    None => None,
                };
                let frame = wire_frame(
                    self.next_sequence,
                    &params,
                    timestamp_ns,
                    p.as_slice(),
                    cipher,
                );
                self.next_sequence = self.next_sequence.wrapping_add(1);
                Some(frame)
            },
            None => None,
        }
    }
}

/// Marks the session as listening on `port`, which is also the port of the
/// multicast group. Call once the sockets are bound.
pub fn start_server(state: &mut ServerState, port: u16)
    ensures
        *final(state) == (ServerState {
            running: true,
            stage: Stage::Listening,
            multicast_port: port,
            ..*old(state)
        }),
{
    state.running = true;
    state.multicast_port = port;
    state.stage = Stage::Listening;
}

/// Marks the session as stopped: clears the running flags and goes back to
/// `Stopped`. Registered clients are left to time out.
pub fn stop_server(state: &mut ServerState)
    ensures
        *final(state) == (ServerState {
            running: false,
            input_running: false,
            stage: Stage::Stopped,
            ..*old(state)
        }),
{
    state.running = false;
    state.input_running = false;
    state.stage = Stage::Stopped;
}

} // verus!
