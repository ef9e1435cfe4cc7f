//! The receiving side's session: reading the server's greeting, deriving
//! the key, watching the heartbeat and closing down.

use crate::audio::AudioParams;
use crate::crypto::{derive_key, spec_derive_key};
use crate::receiver::{Cipher, ENC_ACTIVE, ENC_DISABLED};
use crate::server::{spec_dotted, spec_handshake_line};
use crate::text::{
    bytes_eq, contains, hex_digit, lemma_decimal_text, lemma_find, lemma_hex_text,
    lemma_parse_decimal_text, lemma_tokens_of_join, parse_ipv4, parse_uint, push_bytes,
    spec_contains, spec_decimal_text, spec_hex_char, spec_hex_digit, spec_hex_text, spec_is_digit,
    spec_is_space, spec_is_word, spec_join, spec_octet, spec_parse_ipv4, spec_parse_uint,
    spec_starts_with, spec_tokens, spec_views, split_tokens, starts_with,
};
use crate::types::{code_to_sample_format, spec_code_format, spec_format_code};
use crate::words::{
    NEWLINE, SPACE, WORD_DISCONNECT, WORD_ENC, WORD_HEART, WORD_NOENC, WORD_OK, WORD_SERVER_STOP,
};
use vstd::prelude::*;
use vstd::slice::slice_subrange;
use vstd::string::StringSliceAdditionalSpecFns;

verus! {

/// Silence from the server after which the client gives up.
pub const HEART_TIMEOUT_MS: u64 = 5000;

/// Time between two heartbeats.
pub const HEART_INTERVAL_MS: u64 = 1000;

/// Time within which the greeting must arrive.
pub const HANDSHAKE_TIMEOUT_MS: u64 = 3000;

/// Length past which a greeting without line feed is taken as it is.
pub const HANDSHAKE_MAX_LEN: usize = 240;

/// First octets of the group used when the greeting names none.
pub const FALLBACK_GROUP: [u8; 4] = [239, 255, 0, 222];

/// The eight bytes that sixteen hexadecimal digits spell, or `None` when
/// `s` is not exactly sixteen hexadecimal digits.
pub open spec fn spec_hex_to_array8(s: Seq<u8>) -> Option<Seq<u8>> {
    if s.len() == 16 && (forall|i: int| 0 <= i < 16 ==> spec_hex_digit(#[trigger] s[i]) is Some) {
        Some(
            Seq::new(
                8,
                |i: int| (spec_hex_digit(s[2 * i])->0 * 16 + spec_hex_digit(s[2 * i + 1])->0) as u8,
            ),
        )
    } else {
        None
    }
}

/// Reads sixteen hexadecimal digits as eight bytes.
pub fn hex_bytes_to_array8(s: &[u8]) -> (bytes: Result<[u8; 8], ()>)
    ensures
        match bytes {
            Ok(a) => spec_hex_to_array8(s@) == Some(a@),
            Err(_) => spec_hex_to_array8(s@) is None,
        },
{
    if s.len() != 16 {
        return Err(());
    }
    let mut out: [u8; 8] = [0u8; 8];
    let mut i: usize = 0;
    while i < 8
        invariant
            i <= 8,
            s@.len() == 16,
            forall|j: int| 0 <= j < 2 * i ==> spec_hex_digit(#[trigger] s@[j]) is Some,
            forall|j: int|
                0 <= j < i ==> out@[j] == (spec_hex_digit(s@[2 * j])->0 * 16 + spec_hex_digit(
                    s@[2 * j + 1],
                )->0) as u8,
        decreases 8 - i,
    {
        let hi = match hex_digit(s[2 * i]) {
            Some(v) => v,
            None => {
                return Err(());
            },
        };
        let lo = match hex_digit(s[2 * i + 1]) {
            Some(v) => v,
            None => {
                return Err(());
            },
        };
        out[i] = hi * 16 + lo;
        i += 1;
    }
    assert(out@ =~= spec_hex_to_array8(s@)->0);
    Ok(out)
}

/// Reads a salt written as sixteen hexadecimal digits, in either case.
/// Anything else is an error.
pub fn hex_to_array8(s: &str) -> (bytes: Result<[u8; 8], ()>)
    ensures
        match bytes {
            Ok(a) => spec_hex_to_array8(s.spec_bytes()) == Some(a@),
            Err(_) => spec_hex_to_array8(s.spec_bytes()) is None,
        },
{
    hex_bytes_to_array8(s.as_bytes())
}

/// What a greeting says.
pub struct Handshake {
    /// The session key to echo in heartbeats.
    pub key: Vec<u8>,
    /// The stream parameters, when the greeting carries them.
    pub params: Option<AudioParams>,
    /// The multicast group and port, when the greeting carries them.
    pub multicast: Option<([u8; 4], u16)>,
    /// Whether a token behind the key starts with `ENC`.
    pub enc_announced: bool,
    /// The salt, when it follows that token in well-formed hexadecimal.
    pub enc_salt: Option<[u8; 8]>,
}

/// A greeting's content as plain values.
pub struct HandshakeView {
    pub key: Seq<u8>,
    pub params: Option<AudioParams>,
    pub multicast: Option<(Seq<u8>, u16)>,
    pub enc_announced: bool,
    pub enc_salt: Option<Seq<u8>>,
}

impl View for Handshake {
    type V = HandshakeView;

    open spec fn view(&self) -> HandshakeView {
        HandshakeView {
            key: self.key@,
            params: self.params,
            multicast: match self.multicast {
                Some((group, port)) => Some((group@, port)),
                None => None,
            },
            enc_announced: self.enc_announced,
            enc_salt: match self.enc_salt {
                Some(salt) => Some(salt@),
                None => None,
            },
        }
    }
}

/// The position of the first token at or after `from` that starts with
/// `ENC`, or the number of tokens when there is none. The scan of a
/// greeting starts behind the key, which may read anything.
pub open spec fn spec_enc_index(tokens: Seq<Seq<u8>>, from: int) -> int
    decreases tokens.len() - from,
{
    if from < 0 || from >= tokens.len() {
        tokens.len() as int
    } else if spec_starts_with(tokens[from], WORD_ENC@) {
        from
    } else {
        spec_enc_index(tokens, from + 1)
    }
}

/// The text of the salt: the token after a bare `ENC`, or what follows
/// `ENC` within the token.
pub open spec fn spec_salt_text(tokens: Seq<Seq<u8>>, at: int) -> Seq<u8> {
    if tokens[at] == WORD_ENC@ {
        if at + 1 < tokens.len() {
            tokens[at + 1]
        } else {
            Seq::empty()
        }
    } else {
        tokens[at].subrange(3, tokens[at].len() as int)
    }
}

/// The stream parameters in a greeting's tokens: rate, channel count and
/// format code in the third to fifth place, all three well-formed.
pub open spec fn spec_handshake_params(tokens: Seq<Seq<u8>>) -> Option<AudioParams> {
    if tokens.len() >= 5 {
        match (
            spec_parse_uint(tokens[2], 0xffff_ffff),
            spec_parse_uint(tokens[3], 0xffff),
            spec_parse_uint(tokens[4], 0xff),
        ) {
            (Some(rate), Some(channels), Some(code)) => Some(
                AudioParams {
                    sample_rate: rate as u32,
                    channels: channels as u16,
                    sample_format: spec_code_format(code as u8),
                },
            ),
            _ => None,
        }
    } else {
        None
    }
}

/// The multicast target in a greeting's tokens: address and port in the
/// sixth and seventh place, both well-formed.
pub open spec fn spec_handshake_multicast(tokens: Seq<Seq<u8>>) -> Option<(Seq<u8>, u16)> {
    if tokens.len() >= 7 {
        match (spec_parse_ipv4(tokens[5]), spec_parse_uint(tokens[6], 0xffff)) {
            (Some(group), Some(port)) => Some((group, port as u16)),
            _ => None,
        }
    } else {
        None
    }
}

/// What a greeting says, or `None` when it does not begin with `OK` and a
/// key.
pub open spec fn spec_parse_handshake(header: Seq<u8>) -> Option<HandshakeView> {
    let tokens = spec_tokens(header);
    if tokens.len() >= 2 && tokens[0] == WORD_OK@ {
        let at = spec_enc_index(tokens, 2);
        Some(
            HandshakeView {
                key: tokens[1],
                params: spec_handshake_params(tokens),
                multicast: spec_handshake_multicast(tokens),
                enc_announced: at < tokens.len(),
                enc_salt: if at < tokens.len() {
                    spec_hex_to_array8(spec_salt_text(tokens, at))
                } else {
                    None
                },
            },
        )
    } else {
        None
    }
}

/// Finds the first token behind `OK` and the key that starts with `ENC`.
fn enc_index(tokens: &Vec<Vec<u8>>) -> (at: usize)
    requires
        tokens@.len() >= 2,
    ensures
        at == spec_enc_index(spec_views(tokens@), 2),
        2 <= at <= tokens@.len(),
        at < tokens@.len() ==> spec_starts_with(tokens@[at as int]@, WORD_ENC@),
{
    let mut i: usize = 2;
    while i < tokens.len()
        invariant
            2 <= i <= tokens@.len(),
            spec_enc_index(spec_views(tokens@), 2) == spec_enc_index(spec_views(tokens@), i as int),
        decreases tokens@.len() - i,
    {
        assert(spec_views(tokens@)[i as int] == tokens@[i as int]@);
        if starts_with(tokens[i].as_slice(), WORD_ENC.as_slice()) {
            return i;
        }
        i += 1;
    }
    i
}

/// Reads the stream parameters from a greeting's tokens.
fn handshake_params(tokens: &Vec<Vec<u8>>) -> (params: Option<AudioParams>)
    ensures
        params == spec_handshake_params(spec_views(tokens@)),
{
    if tokens.len() < 5 {
        return None;
    }
    assert(spec_views(tokens@)[2] == tokens@[2]@);
    assert(spec_views(tokens@)[3] == tokens@[3]@);
    assert(spec_views(tokens@)[4] == tokens@[4]@);
    let rate = parse_uint(tokens[2].as_slice(), 0xffff_ffff);
    let channels = parse_uint(tokens[3].as_slice(), 0xffff);
    let code = parse_uint(tokens[4].as_slice(), 0xff);
    match (rate, channels, code) {
        (Some(rate), Some(channels), Some(code)) => Some(
            AudioParams {
                sample_rate: rate,
                channels: channels as u16,
                sample_format: code_to_sample_format(code as u8),
            },
        ),
        _ => None,
    }
}

/// Reads the multicast target from a greeting's tokens.
fn handshake_multicast(tokens: &Vec<Vec<u8>>) -> (target: Option<([u8; 4], u16)>)
    ensures
        match target {
            Some((group, port)) => spec_handshake_multicast(spec_views(tokens@)) == Some(
                (group@, port),
            ),
            None => spec_handshake_multicast(spec_views(tokens@)) is None,
        },
{
    if tokens.len() < 7 {
        return None;
    }
    assert(spec_views(tokens@)[5] == tokens@[5]@);
    assert(spec_views(tokens@)[6] == tokens@[6]@);
    let group = parse_ipv4(tokens[5].as_slice());
    let port = parse_uint(tokens[6].as_slice(), 0xffff);
    match (group, port) {
        (Some(group), Some(port)) => Some((group, port as u16)),
        _ => None,
    }
}

/// Reads the server's greeting. `None` when it does not begin with `OK`
/// and a session key; everything behind the key is optional.
pub fn parse_handshake(header: &[u8]) -> (greeting: Option<Handshake>)
    ensures
        match greeting {
            Some(h) => spec_parse_handshake(header@) == Some(h@),
            None => spec_parse_handshake(header@) is None,
        },
{
    let tokens = split_tokens(header);
    let ghost views = spec_views(tokens@);
    if tokens.len() < 2 {
        return None;
    }
    assert(views[0] == tokens@[0]@);
    assert(views[1] == tokens@[1]@);
    if !bytes_eq(tokens[0].as_slice(), WORD_OK.as_slice()) {
        return None;
    }
    let params = handshake_params(&tokens);
    let multicast = handshake_multicast(&tokens);
    let at: usize = enc_index(&tokens);
    let enc_announced: bool = at < tokens.len();
    let mut enc_salt: Option<[u8; 8]> = None;
    if enc_announced {
        assert(views[at as int] == tokens@[at as int]@);
        let token = tokens[at].as_slice();
        let parsed = if bytes_eq(token, WORD_ENC.as_slice()) {
            if at + 1 < tokens.len() {
                assert(views[at + 1] == tokens@[at + 1]@);
                hex_bytes_to_array8(tokens[at + 1].as_slice())
            } else {
                let nothing: [u8; 0] = [];
                assert(nothing@ =~= Seq::<u8>::empty());
                hex_bytes_to_array8(nothing.as_slice())
            }
        } else {
            hex_bytes_to_array8(slice_subrange(token, 3, token.len()))
        };
        enc_salt = match parsed {
            Ok(salt) => Some(salt),
            Err(_) => None,
        };
    }
    let key = tokens[1].clone();
    Some(Handshake { key, params, multicast, enc_announced, enc_salt })
}

/// Why a session ended.
#[derive(Clone, Copy, Debug, PartialEq, Eq, Structural)]
pub enum DisconnectReason {
    /// The server closed the control connection.
    ServerClosed,
    /// The server announced that it stops.
    ServerStopped,
    /// No heartbeat reply for more than five seconds.
    HeartbeatTimeout,
    /// The user disconnected.
    Manual,
}

impl DisconnectReason {
    /// The reason as shown to the user.
    pub open spec fn spec_message(self) -> Seq<char> {
        match self {
            DisconnectReason::ServerClosed => "服务器连接关闭"@,
            DisconnectReason::ServerStopped => "服务器已停止"@,
            DisconnectReason::HeartbeatTimeout => "心跳超时5s"@,
            DisconnectReason::Manual => "手动断开"@,
        }
    }

    /// Returns the reason as shown to the user.
    pub fn message(self) -> (text: String)
        ensures
            text@ == self.spec_message(),
    {
        match self {
            DisconnectReason::ServerClosed => "服务器连接关闭".to_owned(),
            DisconnectReason::ServerStopped => "服务器已停止".to_owned(),
            DisconnectReason::HeartbeatTimeout => "心跳超时5s".to_owned(),
            DisconnectReason::Manual => "手动断开".to_owned(),
        }
    }
}

/// The state of a receiving session.
pub struct ClientState {
    pub connected: bool,
    pub params: Option<AudioParams>,
    pub key: Option<Vec<u8>>,
    pub multicast_addr: Option<([u8; 4], u16)>,
    pub output_running: bool,
    pub udp_thread_alive: bool,
    pub disconnection_reason: Option<DisconnectReason>,
    pub enc_enabled: bool,
    pub enc_salt: Option<[u8; 8]>,
    pub enc_key: Option<[u8; 32]>,
    pub decrypt_fail: u64,
    pub enc_status: i32,
}

impl ClientState {
    /// A session that is not connected and knows nothing.
    pub fn new() -> (state: ClientState)
        ensures
            !state.connected,
            state.params is None,
            state.key is None,
            state.multicast_addr is None,
            !state.output_running,
            !state.udp_thread_alive,
            state.disconnection_reason is None,
            !state.enc_enabled,
            state.enc_salt is None,
            state.enc_key is None,
            state.decrypt_fail == 0,
            state.enc_status == ENC_DISABLED,
    {
        ClientState {
            connected: false,
            params: None,
            key: None,
            multicast_addr: None,
            output_running: false,
            udp_thread_alive: false,
            disconnection_reason: None,
            enc_enabled: false,
            enc_salt: None,
            enc_key: None,
            decrypt_fail: 0,
            enc_status: ENC_DISABLED,
        }
    }

    /// Sets the encryption status.
    pub fn update_enc_status(&mut self, new: i32)
        ensures
            *final(self) == (ClientState { enc_status: new, ..*old(self) }),
    {
        if self.enc_status != new {
            self.enc_status = new;
        }
    }

    /// The connected session that a greeting leads to.
    ///
    /// A well-formed salt turns encryption on; with a key text as well, the
    /// key is derived and the status becomes active. A salt without key
    /// text leaves the session encrypted and keyless.
    pub fn from_handshake(greeting: Handshake, psk: Option<&str>) -> (state: ClientState)
        ensures
            state.connected,
            state.params == greeting.params,
            state.key == Some(greeting.key),
            state.multicast_addr == greeting.multicast,
            !state.output_running,
            !state.udp_thread_alive,
            state.disconnection_reason is None,
            state.enc_enabled == greeting.enc_salt is Some,
            state.enc_salt == greeting.enc_salt,
            state.decrypt_fail == 0,
            match (greeting.enc_salt, psk) {
                (Some(salt), Some(text)) => state.enc_key is Some && state.enc_key->0@
                    == spec_derive_key(text.spec_bytes(), salt@) && state.enc_status
                    == ENC_ACTIVE,
                _ => state.enc_key is None && state.enc_status == ENC_DISABLED,
            },
    {
        let mut state = ClientState::new();
        state.params = greeting.params;
        state.multicast_addr = greeting.multicast;
        match greeting.enc_salt {
            Some(salt) => {
                state.enc_enabled = true;
                state.enc_salt = Some(salt);
                match psk {
                    Some(text) => {
                        state.enc_key = Some(derive_key(text, &salt));
                        state.enc_status = ENC_ACTIVE;
                    },
                    None => {},
                }
            },
            None => {},
        }
        state.key = Some(greeting.key);
        state.connected = true;
        state
    }

    /// The cipher state that the session's receiver starts with.
    pub fn cipher(&self) -> (c: Cipher)
        ensures
            c == (Cipher {
                enabled: self.enc_enabled,
                salt: self.enc_salt,
                key: self.enc_key,
                status: self.enc_status,
                decrypt_fail: self.decrypt_fail,
            }),
    {
        Cipher {
            enabled: self.enc_enabled,
            salt: self.enc_salt,
            key: self.enc_key,
            status: self.enc_status,
            decrypt_fail: self.decrypt_fail,
        }
    }

    /// The multicast group and port to join: the greeting's, or
    /// `239.255.0.222` on the control port.
    pub fn multicast_target(&self, control_port: u16) -> (target: ([u8; 4], u16))
        ensures
            target == match self.multicast_addr {
                Some(t) => t,
                None => (FALLBACK_GROUP, control_port),
            },
    {
        match self.multicast_addr {
            Some(t) => t,
            None => (FALLBACK_GROUP, control_port),
        }
    }

    /// Ends the session for `reason`: clears the connection and thread
    /// flags and records the reason unless one is recorded already.
    pub fn close(&mut self, reason: DisconnectReason)
        ensures
            *final(self) == (ClientState {
                connected: false,
                output_running: false,
                udp_thread_alive: false,
                disconnection_reason: match old(self).disconnection_reason {
                    Some(r) => Some(r),
                    None => Some(reason),
                },
                ..*old(self)
            }),
    {
        self.connected = false;
        self.output_running = false;
        self.udp_thread_alive = false;
        if self.disconnection_reason.is_none() {
            self.disconnection_reason = Some(reason);
        }
    }
}

/// Ends the session at the user's request.
pub fn disconnect(state: &mut ClientState)
    ensures
        *final(state) == (ClientState {
            connected: false,
            output_running: false,
            udp_thread_alive: false,
            disconnection_reason: match old(state).disconnection_reason {
                Some(r) => Some(r),
                None => Some(DisconnectReason::Manual),
            },
            ..*old(state)
        }),
{
    state.close(DisconnectReason::Manual);
}

/// The heartbeat line: `HEART`, the session key, a line feed.
pub open spec fn spec_heartbeat_line(key: Seq<u8>) -> Seq<u8> {
    WORD_HEART@ + seq![SPACE] + key + seq![NEWLINE]
}

/// Writes the heartbeat line.
pub fn heartbeat_line(key: &[u8]) -> (line: Vec<u8>)
    ensures
        line@ == spec_heartbeat_line(key@),
{
    let mut line: Vec<u8> = Vec::new();
    push_bytes(&mut line, WORD_HEART.as_slice());
    line.push(SPACE);
    push_bytes(&mut line, key);
    line.push(NEWLINE);
    assert(line@ =~= spec_heartbeat_line(key@));
    line
}

/// The line that asks the peer to close the session.
pub fn disconnect_line() -> (line: Vec<u8>)
    ensures
        line@ == WORD_DISCONNECT@ + seq![NEWLINE],
{
    let mut line: Vec<u8> = Vec::new();
    push_bytes(&mut line, WORD_DISCONNECT.as_slice());
    line.push(NEWLINE);
    assert(line@ =~= WORD_DISCONNECT@ + seq![NEWLINE]);
    line
}

/// What reading the control connection gave after a heartbeat was sent.
pub enum ControlRead {
    /// The peer closed the connection.
    Closed,
    /// Bytes arrived.
    Data(Vec<u8>),
    /// Nothing to read, or the read failed.
    Silent,
}

/// The heartbeat watch: when the last `OK` came and whether the session is
/// still up.
#[derive(Clone, Copy, Debug, PartialEq, Eq, Structural)]
pub struct Heartbeat {
    pub last_ok_ms: u64,
    pub alive: bool,
}

/// The time of the last `OK` after a read at `now_ms`.
pub open spec fn spec_last_ok(last_ok_ms: u64, read: ControlRead, now_ms: u64) -> u64 {
    match read {
        ControlRead::Data(d) => if spec_contains(d@, WORD_OK@) {
            now_ms
        } else {
            last_ok_ms
        },
        _ => last_ok_ms,
    }
}

/// Why the session ends after a read at `now_ms`, if it does: the peer
/// closed, the server said it stops, or the last `OK` is more than five
/// seconds old.
pub open spec fn spec_heartbeat_verdict(last_ok_ms: u64, read: ControlRead, now_ms: u64) -> Option<
    DisconnectReason,
> {
    match read {
        ControlRead::Closed => Some(DisconnectReason::ServerClosed),
        ControlRead::Data(d) => if spec_contains(d@, WORD_SERVER_STOP@) {
            Some(DisconnectReason::ServerStopped)
        } else if now_ms - spec_last_ok(last_ok_ms, read, now_ms) > HEART_TIMEOUT_MS {
            Some(DisconnectReason::HeartbeatTimeout)
        } else {
            None
        },
        ControlRead::Silent => if now_ms - last_ok_ms > HEART_TIMEOUT_MS {
            Some(DisconnectReason::HeartbeatTimeout)
        } else {
            None
        },
    }
}

/// The watch after one round at `now_ms`. A watch that is down stays as it
/// is.
pub open spec fn spec_heartbeat_step(h: Heartbeat, read: ControlRead, now_ms: u64) -> Heartbeat {
    if !h.alive {
        h
    } else {
        match spec_heartbeat_verdict(h.last_ok_ms, read, now_ms) {
            Some(_) => Heartbeat { alive: false, ..h },
            None => Heartbeat { last_ok_ms: spec_last_ok(h.last_ok_ms, read, now_ms), ..h },
        }
    }
}

impl Heartbeat {
    /// A watch started at `now_ms`, which counts as the time of an `OK`.
    pub fn start(now_ms: u64) -> (h: Heartbeat)
        ensures
            h == (Heartbeat { last_ok_ms: now_ms, alive: true }),
    {
        Heartbeat { last_ok_ms: now_ms, alive: true }
    }

    /// Takes in what the control connection gave after a heartbeat, at
    /// `now_ms`. Returns the reason when the session ends in this round,
    /// which it does at most once.
    pub fn step(&mut self, read: &ControlRead, now_ms: u64) -> (ended: Option<DisconnectReason>)
        ensures
            *final(self) == spec_heartbeat_step(*old(self), *read, now_ms),
            ended == if old(self).alive {
                spec_heartbeat_verdict(old(self).last_ok_ms, *read, now_ms)
            } else {
                None
            },
    {
        if !self.alive {
            return None;
        }
        let mut last_ok: u64 = self.last_ok_ms;
        match read {
            ControlRead::Closed => {
                self.alive = false;
                return Some(DisconnectReason::ServerClosed);
            },
            ControlRead::Data(d) => {
                if contains(d.as_slice(), WORD_SERVER_STOP.as_slice()) {
                    self.alive = false;
                    return Some(DisconnectReason::ServerStopped);
                }
                if contains(d.as_slice(), WORD_OK.as_slice()) {
                    last_ok = now_ms;
                }
            },
            ControlRead::Silent => {},
        }
        if now_ms > last_ok && now_ms - last_ok > HEART_TIMEOUT_MS {
            self.alive = false;
            return Some(DisconnectReason::HeartbeatTimeout);
        }
        self.last_ok_ms = last_ok;
        None
    }
}

/// A silent server ends the session in the first round that comes more
/// than five seconds after the last `OK`, not before, and a session that
/// has ended reports nothing further.
pub proof fn lemma_heartbeat_timeout(h: Heartbeat, now_ms: u64, read: ControlRead)
    requires
        h.alive,
    ensures
        now_ms - h.last_ok_ms > HEART_TIMEOUT_MS ==> spec_heartbeat_verdict(
            h.last_ok_ms,
            ControlRead::Silent,
            now_ms,
        ) == Some(DisconnectReason::HeartbeatTimeout) && !spec_heartbeat_step(
            h,
            ControlRead::Silent,
            now_ms,
        ).alive,
        now_ms - h.last_ok_ms <= HEART_TIMEOUT_MS ==> spec_heartbeat_step(
            h,
            ControlRead::Silent,
            now_ms,
        ) == h,
        spec_heartbeat_step(Heartbeat { alive: false, ..h }, read, now_ms) == (Heartbeat {
            alive: false,
            ..h
        }),
{
}

/// Whether the wait for the greeting is over: a line feed arrived or more
/// than 240 bytes did.
pub open spec fn spec_greeting_complete(received: Seq<u8>) -> bool {
    received.contains(NEWLINE) || received.len() > HANDSHAKE_MAX_LEN
}

/// Tells whether the wait for the greeting is over.
pub fn greeting_complete(received: &[u8]) -> (done: bool)
    ensures
        done == spec_greeting_complete(received@),
{
    if received.len() > HANDSHAKE_MAX_LEN {
        return true;
    }
    let mut i: usize = 0;
    while i < received.len()
        invariant
            i <= received@.len(),
            forall|j: int| 0 <= j < i ==> received@[j] != NEWLINE,
        decreases received@.len() - i,
    {
        if received[i] == NEWLINE {
            return true;
        }
        i += 1;
    }
    false
}

/// Tells whether the wait for the greeting has run past three seconds.
pub fn handshake_timed_out(started_ms: u64, now_ms: u64) -> (late: bool)
    ensures
        late == (now_ms - started_ms > HANDSHAKE_TIMEOUT_MS),
{
    now_ms > started_ms && now_ms - started_ms > HANDSHAKE_TIMEOUT_MS
}

/// Reading the hexadecimal text of a salt gives the salt back.
pub proof fn lemma_hex_round_trip(salt: Seq<u8>)
    requires
        salt.len() == 8,
    ensures
        spec_hex_to_array8(spec_hex_text(salt)) == Some(salt),
        spec_is_word(spec_hex_text(salt)),
{
    let t = spec_hex_text(salt);
    lemma_hex_text(salt);
    assert forall|i: int| 0 <= i < 16 implies spec_hex_digit(#[trigger] t[i]) is Some && !spec_is_space(
        t[i],
    ) by {
        let k = i / 2;
        assert(salt[k] / 16 < 16 && salt[k] % 16 < 16);
        if i % 2 == 0 {
            assert(i == 2 * k);
            assert(t[2 * k] == spec_hex_char(salt[k] / 16));
        } else {
            assert(i == 2 * k + 1);
            assert(t[2 * k + 1] == spec_hex_char(salt[k] % 16));
        }
    }
    let back = spec_hex_to_array8(t)->0;
    assert forall|i: int| 0 <= i < 8 implies back[i] == salt[i] by {
        assert(t[2 * i] == spec_hex_char(salt[i] / 16));
        assert(t[2 * i + 1] == spec_hex_char(salt[i] % 16));
        assert(salt[i] / 16 < 16 && salt[i] % 16 < 16);
    }
    assert(back =~= salt);
}

/// Reading the dotted text of an address gives the address back.
pub proof fn lemma_dotted_round_trip(addr: Seq<u8>)
    requires
        addr.len() == 4,
    ensures
        spec_parse_ipv4(spec_dotted(addr)) == Some(addr),
        spec_is_word(spec_dotted(addr)),
        spec_is_digit(spec_dotted(addr)[0]),
{
    let d0 = spec_decimal_text(addr[0] as nat);
    let d1 = spec_decimal_text(addr[1] as nat);
    let d2 = spec_decimal_text(addr[2] as nat);
    let d3 = spec_decimal_text(addr[3] as nat);
    lemma_decimal_text(addr[0] as nat);
    lemma_decimal_text(addr[1] as nat);
    lemma_decimal_text(addr[2] as nat);
    lemma_decimal_text(addr[3] as nat);
    let s = spec_dotted(addr);
    let p1 = d0.len() as int;
    let p2 = p1 + 1 + d1.len();
    let p3 = p2 + 1 + d2.len();
    assert(s.len() == p3 + 1 + d3.len());
    assert forall|k: int| 0 <= k < s.len() implies (#[trigger] s[k] == 46u8 || spec_is_digit(
        s[k],
    )) && (s[k] == 46u8 <==> (k == p1 || k == p2 || k == p3)) by {
        if k < p1 {
            assert(s[k] == d0[k]);
            assert(spec_is_digit(d0[k]));
        } else if k == p1 {
        } else if k < p2 {
            assert(s[k] == d1[k - p1 - 1]);
            assert(spec_is_digit(d1[k - p1 - 1]));
        } else if k == p2 {
        } else if k < p3 {
            assert(s[k] == d2[k - p2 - 1]);
            assert(spec_is_digit(d2[k - p2 - 1]));
        } else if k == p3 {
        } else {
            assert(s[k] == d3[k - p3 - 1]);
            assert(spec_is_digit(d3[k - p3 - 1]));
        }
    }
    lemma_find(s, 46, 0, p1);
    lemma_find(s, 46, p1 + 1, p2);
    lemma_find(s, 46, p2 + 1, p3);
    assert(s.subrange(0, p1) =~= d0);
    assert(s.subrange(p1 + 1, p2) =~= d1);
    assert(s.subrange(p2 + 1, p3) =~= d2);
    assert(s.subrange(p3 + 1, s.len() as int) =~= d3);
    assert(spec_octet(d0) == Some(addr[0]));
    assert(spec_octet(d1) == Some(addr[1]));
    assert(spec_octet(d2) == Some(addr[2]));
    assert(spec_octet(d3) == Some(addr[3]));
    assert(seq![addr[0], addr[1], addr[2], addr[3]] =~= addr);
    assert(s[0] == d0[0]);
    assert(spec_is_digit(d0[0]));
    assert forall|k: int| 0 <= k < s.len() implies !spec_is_space(#[trigger] s[k]) by {
        assert(s[k] == 46u8 || spec_is_digit(s[k]));
    }
}

/// A word that starts with a digit does not start with `ENC`.
pub proof fn lemma_digit_word_is_not_enc(word: Seq<u8>)
    requires
        word.len() > 0,
        spec_is_digit(word[0]),
    ensures
        !spec_starts_with(word, WORD_ENC@),
{
    if spec_starts_with(word, WORD_ENC@) {
        assert(word.subrange(0, 3)[0] == WORD_ENC@[0]);
    }
}

/// The words of a greeting with parameters.
pub open spec fn spec_greeting_words(
    params: AudioParams,
    key: Seq<u8>,
    group: Seq<u8>,
    port: u16,
    salt: Option<Seq<u8>>,
) -> Seq<Seq<u8>> {
    let front = seq![
        WORD_OK@,
        key,
        spec_decimal_text(params.sample_rate as nat),
        spec_decimal_text(params.channels as nat),
        spec_decimal_text(spec_format_code(params.sample_format) as nat),
        spec_dotted(group),
        spec_decimal_text(port as nat),
    ];
    match salt {
        Some(s) => front + seq![WORD_ENC@, spec_hex_text(s)],
        None => front + seq![WORD_NOENC@],
    }
}

/// A greeting with parameters is its words joined by spaces, with a line
/// feed behind them.
pub proof fn lemma_greeting_is_joined(
    params: AudioParams,
    key: Seq<u8>,
    group: Seq<u8>,
    port: u16,
    salt: Option<Seq<u8>>,
)
    ensures
        spec_handshake_line(Some(params), key, group, port, salt) == spec_join(
            spec_greeting_words(params, key, group, port, salt),
        ) + seq![10u8],
{
    let words = spec_greeting_words(params, key, group, port, salt);
    let line = spec_handshake_line(Some(params), key, group, port, salt);
    match salt {
        Some(s) => {
            assert(words.len() == 9);
            lemma_join_9(words);
            assert(line =~= spec_join(words) + seq![10u8]);
        },
        None => {
            assert(words.len() == 8);
            lemma_join_8(words);
            assert(line =~= spec_join(words) + seq![10u8]);
        },
    }
}

/// Each part of a greeting with parameters is a word: it is not empty and
/// holds no whitespace.
pub proof fn lemma_greeting_words_are_words(
    params: AudioParams,
    key: Seq<u8>,
    group: Seq<u8>,
    port: u16,
    salt: Option<Seq<u8>>,
)
    requires
        spec_is_word(key),
        group.len() == 4,
        salt is Some ==> salt->0.len() == 8,
    ensures
        forall|i: int|
            0 <= i < spec_greeting_words(params, key, group, port, salt).len() ==> spec_is_word(
                #[trigger] spec_greeting_words(params, key, group, port, salt)[i],
            ),
{
    let words = spec_greeting_words(params, key, group, port, salt);
    lemma_parse_decimal_text(params.sample_rate as nat, 0xffff_ffff);
    lemma_parse_decimal_text(params.channels as nat, 0xffff);
    lemma_parse_decimal_text(spec_format_code(params.sample_format) as nat, 0xff);
    lemma_parse_decimal_text(port as nat, 0xffff);
    lemma_dotted_round_trip(group);
    assert(spec_is_word(WORD_OK@));
    assert(spec_is_word(words[0]));
    assert(spec_is_word(words[1]));
    assert(spec_is_word(words[2]));
    assert(spec_is_word(words[3]));
    assert(spec_is_word(words[4]));
    assert(spec_is_word(words[5]));
    assert(spec_is_word(words[6]));
    match salt {
        Some(s) => {
            lemma_hex_round_trip(s);
            assert(spec_is_word(WORD_ENC@));
            assert(words.len() == 9);
            assert(spec_is_word(words[7]));
            assert(spec_is_word(words[8]));
        },
        None => {
            assert(spec_is_word(WORD_NOENC@));
            assert(words.len() == 8);
            assert(spec_is_word(words[7]));
        },
    }
}

/// A greeting with parameters splits into its words.
pub proof fn lemma_greeting_tokens(
    params: AudioParams,
    key: Seq<u8>,
    group: Seq<u8>,
    port: u16,
    salt: Option<Seq<u8>>,
)
    requires
        spec_is_word(key),
        group.len() == 4,
        salt is Some ==> salt->0.len() == 8,
    ensures
        spec_tokens(spec_handshake_line(Some(params), key, group, port, salt))
            == spec_greeting_words(params, key, group, port, salt),
{
    lemma_greeting_is_joined(params, key, group, port, salt);
    lemma_greeting_words_are_words(params, key, group, port, salt);
    lemma_tokens_of_join(spec_greeting_words(params, key, group, port, salt));
}

/// The encryption token is the first that starts with `ENC`.
pub proof fn lemma_enc_index(tokens: Seq<Seq<u8>>, from: int, at: int)
    requires
        0 <= from <= at <= tokens.len(),
        forall|k: int| from <= k < at ==> !spec_starts_with(#[trigger] tokens[k], WORD_ENC@),
        at < tokens.len() ==> spec_starts_with(tokens[at], WORD_ENC@),
    ensures
        spec_enc_index(tokens, from) == at,
    decreases at - from,
{
    if from < at {
        lemma_enc_index(tokens, from + 1, at);
    }
}

/// The client reads out of the server's greeting what the server put in:
/// key, rate, channels, format, group, port and salt, whatever word the key
/// is. A format without a wire code comes back as F32.
pub proof fn lemma_greeting_round_trip(
    params: AudioParams,
    key: Seq<u8>,
    group: Seq<u8>,
    port: u16,
    salt: Option<Seq<u8>>,
)
    requires
        spec_is_word(key),
        group.len() == 4,
        salt is Some ==> salt->0.len() == 8,
    ensures
        spec_parse_handshake(spec_handshake_line(Some(params), key, group, port, salt)) == Some(
            HandshakeView {
                key,
                params: Some(
                    AudioParams {
                        sample_format: spec_code_format(spec_format_code(params.sample_format)),
                        ..params
                    },
                ),
                multicast: Some((group, port)),
                enc_announced: salt is Some,
                enc_salt: salt,
            },
        ),
{
    let line = spec_handshake_line(Some(params), key, group, port, salt);
    let words = spec_greeting_words(params, key, group, port, salt);
    lemma_greeting_tokens(params, key, group, port, salt);
    assert(spec_tokens(line) == words);
    lemma_parse_decimal_text(params.sample_rate as nat, 0xffff_ffff);
    lemma_parse_decimal_text(params.channels as nat, 0xffff);
    lemma_parse_decimal_text(spec_format_code(params.sample_format) as nat, 0xff);
    lemma_parse_decimal_text(port as nat, 0xffff);
    lemma_dotted_round_trip(group);
    assert(spec_handshake_params(words) == Some(
        AudioParams {
            sample_format: spec_code_format(spec_format_code(params.sample_format)),
            ..params
        },
    ));
    assert(spec_handshake_multicast(words) == Some((group, port)));
    assert forall|k: int| 2 <= k < 7 implies !spec_starts_with(
        #[trigger] words[k],
        WORD_ENC@,
    ) by {
        lemma_digit_word_is_not_enc(words[k]);
    }
    match salt {
        Some(s) => {
            lemma_hex_round_trip(s);
            assert(words[7] == WORD_ENC@);
            assert(WORD_ENC@.subrange(0, 3) =~= WORD_ENC@);
            lemma_enc_index(words, 2, 7);
            assert(spec_salt_text(words, 7) == spec_hex_text(s));
        },
        None => {
            assert(words[7] == WORD_NOENC@);
            assert(!spec_starts_with(WORD_NOENC@, WORD_ENC@)) by {
                if spec_starts_with(WORD_NOENC@, WORD_ENC@) {
                    assert(WORD_NOENC@.subrange(0, 3)[0] == WORD_ENC@[0]);
                }
            }
            lemma_enc_index(words, 2, 8);
        },
    }
}

/// Eight words joined.
pub proof fn lemma_join_8(w: Seq<Seq<u8>>)
    requires
        w.len() == 8,
    ensures
        spec_join(w) == w[0] + seq![32u8] + w[1] + seq![32u8] + w[2] + seq![32u8] + w[3] + seq![
            32u8,
        ] + w[4] + seq![32u8] + w[5] + seq![32u8] + w[6] + seq![32u8] + w[7],
{
    let a = w.drop_first();
    let b = a.drop_first();
    let c = b.drop_first();
    let d = c.drop_first();
    let e = d.drop_first();
    let f = e.drop_first();
    let g = f.drop_first();
    assert(spec_join(g) == w[7]);
    assert(spec_join(f) == w[6] + seq![32u8] + spec_join(g));
    assert(spec_join(e) == w[5] + seq![32u8] + spec_join(f));
    assert(spec_join(d) == w[4] + seq![32u8] + spec_join(e));
    assert(spec_join(c) == w[3] + seq![32u8] + spec_join(d));
    assert(spec_join(b) == w[2] + seq![32u8] + spec_join(c));
    assert(spec_join(a) == w[1] + seq![32u8] + spec_join(b));
    assert(spec_join(w) == w[0] + seq![32u8] + spec_join(a));
    assert(spec_join(w) =~= w[0] + seq![32u8] + w[1] + seq![32u8] + w[2] + seq![32u8] + w[3]
        + seq![32u8] + w[4] + seq![32u8] + w[5] + seq![32u8] + w[6] + seq![32u8] + w[7]);
}

/// Nine words joined.
pub proof fn lemma_join_9(w: Seq<Seq<u8>>)
    requires
        w.len() == 9,
    ensures
        spec_join(w) == w[0] + seq![32u8] + w[1] + seq![32u8] + w[2] + seq![32u8] + w[3] + seq![
            32u8,
        ] + w[4] + seq![32u8] + w[5] + seq![32u8] + w[6] + seq![32u8] + w[7] + seq![32u8] + w[8],
{
    let a = w.drop_first();
    lemma_join_8(a);
    assert(spec_join(w) == w[0] + seq![32u8] + spec_join(a));
    assert(spec_join(w) =~= w[0] + seq![32u8] + w[1] + seq![32u8] + w[2] + seq![32u8] + w[3]
        + seq![32u8] + w[4] + seq![32u8] + w[5] + seq![32u8] + w[6] + seq![32u8] + w[7] + seq![
        32u8,
    ] + w[8]);
}

} // verus!
