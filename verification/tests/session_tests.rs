use remote_mic::audio::AudioParams;
use remote_mic::buffers::AudioBufferPool;
use remote_mic::client::{
    disconnect, disconnect_line, greeting_complete, handshake_timed_out, heartbeat_line,
    hex_to_array8, parse_handshake, ClientState, ControlRead, DisconnectReason, Heartbeat,
};
use remote_mic::crypto::{derive_key, open_payload};
use remote_mic::frame::{decode_header, HEADER_LEN};
use remote_mic::receiver::{Cipher, Rejection, StreamReceiver};
use remote_mic::server::{
    handshake_line, random_key, start_server, stop_server, wire_frame, ServerState, Stage,
};
use remote_mic::types::SampleFormat;

const SALT: [u8; 8] = [0xde, 0xad, 0xbe, 0xef, 0x00, 0x01, 0x02, 0xff];

fn mono_f32() -> AudioParams {
    AudioParams { sample_rate: 48000, channels: 1, sample_format: SampleFormat::F32 }
}

#[test]
fn greeting_with_encryption_is_spelled_out() {
    let line = handshake_line(
        Some(AudioParams { sample_rate: 44100, channels: 2, sample_format: SampleFormat::I16 }),
        b"abcdefgh12345678",
        &[239, 1, 20, 255],
        50123,
        Some(&SALT),
    );
    assert_eq!(
        String::from_utf8(line).unwrap(),
        "OK abcdefgh12345678 44100 2 2 239.1.20.255 50123 ENC deadbeef000102ff\n"
    );
}

#[test]
fn greeting_without_encryption_or_params() {
    let line = handshake_line(Some(mono_f32()), b"k", &[239, 0, 0, 0], 0, None);
    assert_eq!(String::from_utf8(line).unwrap(), "OK k 48000 1 1 239.0.0.0 0 NOENC\n");
    let line = handshake_line(None, b"abc", &[239, 0, 0, 0], 1, Some(&SALT));
    assert_eq!(String::from_utf8(line).unwrap(), "NO_PARAMS abc\n");
}

#[test]
fn greeting_round_trips_through_the_parser() {
    let mut server = ServerState::from_random([9, 8, 7], SALT);
    server.enable_psk("pw".to_string());
    start_server(&mut server, 40000);
    server.audio_ready(mono_f32());
    let key = random_key();
    assert_eq!(key.len(), 16);
    assert!(key.iter().all(|b| b.is_ascii_alphanumeric()));
    let greeting = parse_handshake(&server.greeting(&key)).unwrap();
    assert_eq!(greeting.key, key);
    assert_eq!(greeting.params, Some(mono_f32()));
    assert_eq!(greeting.multicast, Some(([239, 9, 8, 7], 40000)));
    assert!(greeting.enc_announced);
    assert_eq!(greeting.enc_salt, Some(SALT));
}

#[test]
fn key_that_starts_with_enc_is_only_a_key() {
    let g = parse_handshake(b"OK ENCaaaaaaaaaaaaa 48000 1 1 239.1.2.3 5000 ENC 0011223344556677\n")
        .unwrap();
    assert_eq!(g.key, b"ENCaaaaaaaaaaaaa");
    assert!(g.enc_announced);
    assert_eq!(g.enc_salt, Some([0x00, 0x11, 0x22, 0x33, 0x44, 0x55, 0x66, 0x77]));
    let state = ClientState::from_handshake(g, Some("pw"));
    assert!(state.enc_enabled);
    assert_eq!(state.enc_status, 1);
    assert_eq!(
        state.enc_key,
        Some(derive_key("pw", &[0x00, 0x11, 0x22, 0x33, 0x44, 0x55, 0x66, 0x77]))
    );
    let g = parse_handshake(b"OK ENC0011223344556677 48000 1 1 239.1.2.3 5000 NOENC\n").unwrap();
    assert_eq!(g.key, b"ENC0011223344556677");
    assert!(!g.enc_announced);
    assert_eq!(g.enc_salt, None);
    let g = parse_handshake(b"OK ENC 0011223344556677").unwrap();
    assert_eq!(g.key, b"ENC");
    assert!(!g.enc_announced);

    let mut server = ServerState::from_random([9, 8, 7], SALT);
    server.enable_psk("pw".to_string());
    start_server(&mut server, 40000);
    server.audio_ready(mono_f32());
    let greeting = parse_handshake(&server.greeting(b"ENCxyz0123456789")).unwrap();
    assert_eq!(greeting.key, b"ENCxyz0123456789");
    assert_eq!(greeting.enc_salt, Some(SALT));
    let state = ClientState::from_handshake(greeting, Some("pw"));
    assert_eq!(state.enc_key, server.key_bytes);
    assert_eq!(state.enc_status, 1);
}

#[test]
fn malformed_greetings() {
    assert!(parse_handshake(b"").is_none());
    assert!(parse_handshake(b"OK").is_none());
    assert!(parse_handshake(b"NO_PARAMS abc\n").is_none());
    assert!(parse_handshake(b"ok key\n").is_none());
    let g = parse_handshake(b"  OK\tkey \r\n").unwrap();
    assert_eq!(g.key, b"key");
    assert_eq!(g.params, None);
    assert_eq!(g.multicast, None);
    assert!(!g.enc_announced);
    let g = parse_handshake(b"OK k 48000 x 1 239.1.1.1 5 NOENC").unwrap();
    assert_eq!(g.params, None);
    assert_eq!(g.multicast, Some(([239, 1, 1, 1], 5)));
    let g = parse_handshake(b"OK k 48000 2 7 239.1.1.256 5").unwrap();
    assert_eq!(
        g.params,
        Some(AudioParams { sample_rate: 48000, channels: 2, sample_format: SampleFormat::F32 })
    );
    assert_eq!(g.multicast, None);
    let g = parse_handshake(b"OK k 4294967296 2 1 239.1.1.1 65536").unwrap();
    assert_eq!(g.params, None);
    assert_eq!(g.multicast, None);
    let g = parse_handshake(b"OK k +48000 2 1 01.1.1.1 5").unwrap();
    assert_eq!(g.params.unwrap().sample_rate, 48000);
    assert_eq!(g.multicast, None);
}

#[test]
fn salt_token_forms() {
    let g = parse_handshake(b"OK k 1 1 1 239.0.0.1 9 ENC 0011223344556677").unwrap();
    assert_eq!(g.enc_salt, Some([0x00, 0x11, 0x22, 0x33, 0x44, 0x55, 0x66, 0x77]));
    let g = parse_handshake(b"OK k 1 1 1 239.0.0.1 9 ENCAABBCCDDEEFF0099").unwrap();
    assert_eq!(g.enc_salt, Some([0xaa, 0xbb, 0xcc, 0xdd, 0xee, 0xff, 0x00, 0x99]));
    let g = parse_handshake(b"OK k 1 1 1 239.0.0.1 9 ENC").unwrap();
    assert!(g.enc_announced);
    assert_eq!(g.enc_salt, None);
    let g = parse_handshake(b"OK k 1 1 1 239.0.0.1 9 ENC 00112233445566").unwrap();
    assert_eq!(g.enc_salt, None);
    let g = parse_handshake(b"OK k 1 1 1 239.0.0.1 9 ENC 001122334455667g").unwrap();
    assert_eq!(g.enc_salt, None);
}

#[test]
fn hex_salt_parsing() {
    assert_eq!(hex_to_array8("0123456789abcdef"), Ok([1, 0x23, 0x45, 0x67, 0x89, 0xab, 0xcd, 0xef]));
    assert_eq!(hex_to_array8("0123456789ABCDEF"), Ok([1, 0x23, 0x45, 0x67, 0x89, 0xab, 0xcd, 0xef]));
    assert_eq!(hex_to_array8(""), Err(()));
    assert_eq!(hex_to_array8("0123456789abcde"), Err(()));
    assert_eq!(hex_to_array8("0123456789abcdef0"), Err(()));
    assert_eq!(hex_to_array8("0123456789abcdeg"), Err(()));
    assert_eq!(hex_to_array8("+123456789abcdef"), Err(()));
    assert_eq!(hex_to_array8("é23456789abcdef"), Err(()));
}

#[test]
fn session_from_greeting() {
    let g = parse_handshake(b"OK k 48000 1 1 239.0.0.1 9 ENC 0011223344556677").unwrap();
    let state = ClientState::from_handshake(g, Some("pw"));
    assert!(state.connected);
    assert!(state.enc_enabled);
    assert_eq!(state.enc_status, 1);
    assert_eq!(
        state.enc_key,
        Some(derive_key("pw", &[0x00, 0x11, 0x22, 0x33, 0x44, 0x55, 0x66, 0x77]))
    );
    assert_eq!(state.multicast_target(7), ([239, 0, 0, 1], 9));

    let g = parse_handshake(b"OK k 48000 1 1 239.0.0.1 9 ENC 0011223344556677").unwrap();
    let state = ClientState::from_handshake(g, None);
    assert!(state.enc_enabled);
    assert_eq!(state.enc_key, None);
    assert_eq!(state.enc_status, 0);

    let g = parse_handshake(b"OK k").unwrap();
    let state = ClientState::from_handshake(g, Some("pw"));
    assert!(!state.enc_enabled);
    assert_eq!(state.enc_status, 0);
    assert_eq!(state.multicast_target(7), ([239, 255, 0, 222], 7));
}

#[test]
fn manual_disconnect_keeps_an_earlier_reason() {
    let mut state = ClientState::new();
    state.connected = true;
    state.output_running = true;
    state.udp_thread_alive = true;
    disconnect(&mut state);
    assert!(!state.connected && !state.output_running && !state.udp_thread_alive);
    assert_eq!(state.disconnection_reason, Some(DisconnectReason::Manual));
    assert_eq!(DisconnectReason::Manual.message(), "手动断开");

    let mut state = ClientState::new();
    state.close(DisconnectReason::HeartbeatTimeout);
    disconnect(&mut state);
    assert_eq!(state.disconnection_reason, Some(DisconnectReason::HeartbeatTimeout));
    assert_eq!(DisconnectReason::HeartbeatTimeout.message(), "心跳超时5s");
    assert_eq!(DisconnectReason::ServerClosed.message(), "服务器连接关闭");
    assert_eq!(DisconnectReason::ServerStopped.message(), "服务器已停止");
    state.update_enc_status(-1);
    assert_eq!(state.enc_status, -1);
}

#[test]
fn heartbeat_times_out_once() {
    let mut hb = Heartbeat::start(10_000);
    let ok = ControlRead::Data(b"OK\n".to_vec());
    let mut now = 10_000;
    for _ in 0..3 {
        now += 1_000;
        assert_eq!(hb.step(&ok, now), None);
    }
    let last_ok = now;
    let mut events = Vec::new();
    for _ in 0..10 {
        now += 1_000;
        if let Some(reason) = hb.step(&ControlRead::Silent, now) {
            events.push((now, reason));
        }
    }
    assert_eq!(events, vec![(last_ok + 6_000, DisconnectReason::HeartbeatTimeout)]);
    assert!(!hb.alive);
    assert_eq!(hb.step(&ok, now + 1), None);
}

#[test]
fn heartbeat_sees_stop_and_close() {
    let mut hb = Heartbeat::start(0);
    assert_eq!(
        hb.step(&ControlRead::Data(b"xxSERVER_STOP\n".to_vec()), 1),
        Some(DisconnectReason::ServerStopped)
    );
    let mut hb = Heartbeat::start(0);
    assert_eq!(hb.step(&ControlRead::Closed, 1), Some(DisconnectReason::ServerClosed));
    let mut hb = Heartbeat::start(0);
    assert_eq!(hb.step(&ControlRead::Data(b"BYE\n".to_vec()), 5_000), None);
    assert_eq!(hb.last_ok_ms, 0);
    assert_eq!(
        hb.step(&ControlRead::Data(b"BYE\n".to_vec()), 5_001),
        Some(DisconnectReason::HeartbeatTimeout)
    );
    let mut hb = Heartbeat::start(0);
    assert_eq!(hb.step(&ControlRead::Data(b"OK\n".to_vec()), 9_000), None);
    assert_eq!(hb.last_ok_ms, 9_000);
}

#[test]
fn control_lines_and_greeting_wait() {
    assert_eq!(heartbeat_line(b"abc"), b"HEART abc\n");
    assert_eq!(disconnect_line(), b"DISCONNECT\n");
    assert!(!greeting_complete(b"OK key"));
    assert!(greeting_complete(b"OK key\n"));
    assert!(!greeting_complete(&[b'x'; 240]));
    assert!(greeting_complete(&[b'x'; 241]));
    assert!(!handshake_timed_out(1_000, 4_000));
    assert!(handshake_timed_out(1_000, 4_001));
    assert!(!handshake_timed_out(5_000, 1_000));
}

#[test]
fn server_state_machine() {
    let mut s = ServerState::new();
    assert_eq!(s.multicast_addr[0], 239);
    assert_eq!(s.stage, Stage::Stopped);
    assert_eq!(s.stage.code(), 0);
    assert!(s.key_bytes.is_none());
    start_server(&mut s, 50_000);
    assert!(s.running);
    assert_eq!(s.multicast_port, 50_000);
    assert_eq!(s.stage.code(), 1);
    s.input_running = true;
    s.audio_ready(mono_f32());
    assert_eq!(s.stage.code(), 2);
    stop_server(&mut s);
    assert!(!s.running && !s.input_running);
    assert_eq!(s.stage, Stage::Stopped);
    assert_eq!(s.audio_params, Some(mono_f32()));
    let salt = s.salt;
    s.enable_psk("secret".to_string());
    assert_eq!(s.key_bytes, Some(derive_key("secret", &salt)));
    assert_eq!(s.psk.as_deref(), Some("secret"));
}

#[test]
fn datagrams_carry_sequence_and_return_buffers() {
    let mut pool = AudioBufferPool::new(2);
    let mut server = ServerState::from_random([1, 2, 3], SALT);
    let idx = pool.capture(&[1, 2, 3, 4, 5, 6, 7, 8]).unwrap();
    let frame = server.next_datagram(&mut pool, idx, 777).unwrap();
    let h = decode_header(&frame).unwrap();
    assert_eq!((h.sequence, h.format_code, h.channels, h.sample_rate), (0, 1, 2, 48000));
    assert_eq!((h.payload_len, h.timestamp_ns), (8, 777));
    assert_eq!(&frame[HEADER_LEN..], &[1, 2, 3, 4, 5, 6, 7, 8]);
    assert_eq!(server.next_sequence, 1);
    assert_eq!(pool.pop(), Some(1));
    assert_eq!(pool.pop(), Some(0));
    assert_eq!(server.next_datagram(&mut pool, 1, 0), None);
    assert_eq!(server.next_sequence, 1);
    assert_eq!(pool.pop(), Some(1));
    assert_eq!(server.next_datagram(&mut pool, 5, 0), None);
    assert_eq!(pool.pop(), None);
    server.next_sequence = u32::MAX;
    pool.fill(0, &[9]);
    let frame = server.next_datagram(&mut pool, 0, 1).unwrap();
    assert_eq!(decode_header(&frame).unwrap().sequence, u32::MAX);
    assert_eq!(server.next_sequence, 0);
}

#[test]
fn oversized_payload_is_cut_and_sent_plain() {
    let key = derive_key("pw", &SALT);
    let big = vec![5u8; 70_000];
    let plain = wire_frame(3, &mono_f32(), 9, &big, None);
    assert_eq!(plain.len(), HEADER_LEN + 65_535);
    assert_eq!(decode_header(&plain).unwrap().payload_len, 65_535);
    let fallback = wire_frame(3, &mono_f32(), 9, &big, Some((&key, &SALT)));
    assert_eq!(fallback, plain);
    let near = vec![5u8; 65_519];
    let sealed = wire_frame(3, &mono_f32(), 9, &near, Some((&key, &SALT)));
    assert_eq!(decode_header(&sealed).unwrap().payload_len, 65_535);
    assert_ne!(&sealed[HEADER_LEN..HEADER_LEN + 16], &near[..16]);
    let wide = AudioParams { sample_rate: 1, channels: 258, sample_format: SampleFormat::Other };
    let h = decode_header(&wire_frame(0, &wide, 0, &[1], None)).unwrap();
    assert_eq!((h.channels, h.format_code), (2, 1));
}

#[test]
fn sealed_datagram_is_header_ciphertext_and_tag() {
    let key = derive_key("pw", &SALT);
    let payload: Vec<u8> = (0u8..200).collect();
    let d = wire_frame(41, &mono_f32(), 123_456_789, &payload, Some((&key, &SALT)));
    assert_eq!(d.len(), 22 + payload.len() + 16);
    assert_eq!(u16::from_be_bytes([d[12], d[13]]) as usize, payload.len() + 16);
    let h = decode_header(&d).unwrap();
    assert_eq!((h.sequence, h.timestamp_ns), (41, 123_456_789));
    assert_ne!(&d[22..22 + payload.len()], &payload[..]);
    let opened = open_payload(&key, &SALT, 41, 123_456_789, &d[..22], &d[22..]);
    assert_eq!(opened.ok(), Some(payload.clone()));
    let mut receiver: StreamReceiver<u32> = StreamReceiver::new(Cipher {
        enabled: true,
        salt: Some(SALT),
        key: Some(key),
        status: 0,
        decrypt_fail: 0,
    });
    let taken = receiver.accept(&d, 123_456_789).unwrap();
    assert_eq!(taken.payload, payload);
    assert_eq!(receiver.cipher.status, 1);
}

fn end_to_end(server_psk: Option<&str>, client_psk: Option<&str>) -> (ClientState, Vec<Result<Vec<u8>, Rejection>>, i32) {
    let mut server = ServerState::from_random([4, 5, 6], SALT);
    if let Some(psk) = server_psk {
        server.enable_psk(psk.to_string());
    }
    start_server(&mut server, 45_000);
    server.audio_ready(mono_f32());
    let greeting = parse_handshake(&server.greeting(&random_key())).unwrap();
    let client = ClientState::from_handshake(greeting, client_psk);
    let mut receiver: StreamReceiver<Vec<u8>> = StreamReceiver::new(client.cipher());
    let mut pool = AudioBufferPool::new(4);
    let mut fates = Vec::new();
    for i in 0..3u64 {
        let samples: Vec<u8> = [0.5f32, -0.5, 0.25, 0.0]
            .iter()
            .flat_map(|s| s.to_ne_bytes())
            .collect();
        let idx = pool.capture(&samples).unwrap();
        let datagram = server.next_datagram(&mut pool, idx, i * 10_000_000).unwrap();
        fates.push(receiver.accept(&datagram, i * 10_000_000).map(|a| {
            assert_eq!(a.mono_frames, 4);
            a.payload
        }));
    }
    let status = receiver.cipher.status;
    (client, fates, status)
}

#[test]
fn end_to_end_with_matching_key() {
    let (client, fates, status) = end_to_end(Some("pw"), Some("pw"));
    assert_eq!(client.enc_status, 1);
    assert_eq!(status, 1);
    let expected: Vec<u8> = [0.5f32, -0.5, 0.25, 0.0].iter().flat_map(|s| s.to_ne_bytes()).collect();
    for fate in fates {
        assert_eq!(fate, Ok(expected.clone()));
    }
}

#[test]
fn end_to_end_with_wrong_key() {
    let (_, fates, status) = end_to_end(Some("pw"), Some("other"));
    assert_eq!(status, -1);
    assert!(fates.iter().all(|f| *f == Err(Rejection::AuthFailed)));
}

#[test]
fn end_to_end_without_key() {
    let (client, fates, status) = end_to_end(Some("pw"), None);
    assert!(client.enc_enabled);
    assert_eq!(status, 0);
    assert!(fates.iter().all(|f| *f == Err(Rejection::NoKey)));
}

#[test]
fn end_to_end_plaintext() {
    let (client, fates, status) = end_to_end(None, Some("pw"));
    assert!(!client.enc_enabled);
    assert_eq!(status, 0);
    assert!(fates.iter().all(|f| f.is_ok()));
}

#[test]
fn receiver_rejects_noise_and_counts_late_frames() {
    let mut r: StreamReceiver<u32> = StreamReceiver::new(Cipher::plaintext());
    assert_eq!(r.accept(&[0u8; 21], 0).err(), Some(Rejection::TooShort));
    assert_eq!(r.accept(&[0u8; 22], 0).err(), Some(Rejection::BadMagic));
    let first = wire_frame(0, &mono_f32(), 900_000_000, &[0u8; 8], None);
    assert_eq!(r.accept(&first[..first.len() - 1], 0).err(), Some(Rejection::Truncated));
    assert_eq!(r.tracking.loss.received, 0);
    assert!(r.accept(&first, 900_000_000).is_ok());
    let frame = wire_frame(1, &mono_f32(), 1_000_000_000, &[0u8; 8], None);
    assert!(r.accept(&frame, 1_000_000_000).is_ok());
    assert_eq!(r.tracking.newest_ts, 1_000_000_000);
    assert_eq!(r.tracking.clock.jitter_ewma_ns, 0);
    // with no jitter the reorder delay is 5 ms: 10 ms behind is the limit
    let late = wire_frame(2, &mono_f32(), 975_000_000, &[0u8; 8], None);
    assert_eq!(r.accept(&late, 975_000_000).err(), Some(Rejection::Late));
    assert_eq!(r.tracking.late_drop, 1);
    let late = wire_frame(3, &mono_f32(), 989_999_999, &[0u8; 8], None);
    assert_eq!(r.accept(&late, 989_999_999).err(), Some(Rejection::Late));
    let near = wire_frame(4, &mono_f32(), 990_000_000, &[0u8; 8], None);
    assert!(r.accept(&near, 990_000_000).is_ok());
    assert_eq!(r.tracking.late_drop, 2);
    assert_eq!(r.tracking.newest_ts, 1_000_000_000);
    let mut odd = wire_frame(5, &mono_f32(), 1_000_000_000, &[0u8; 8], None);
    odd[6] = 9;
    assert_eq!(r.accept(&odd, 1_000_000_000).err(), Some(Rejection::UnknownFormat));
    assert_eq!(r.tracking.loss.received, 6);
}

#[test]
fn receiver_buffers_and_releases() {
    let mut r: StreamReceiver<u32> = StreamReceiver::new(Cipher::plaintext());
    let mut released = Vec::new();
    for i in 0..6u64 {
        let ts = i * 10_000_000;
        let frame = wire_frame(i as u32, &mono_f32(), ts, &[0u8; 1920], None);
        let a = r.accept(&frame, ts).unwrap();
        assert_eq!(a.mono_frames, 480);
        for f in r.enqueue(ts, a.mono_frames as u32, a.header.sample_rate, i as u32) {
            released.push(f.data);
        }
    }
    assert_eq!(r.tracking.target_buffer_ns, 15_000_000);
    assert_eq!(released, vec![0, 1, 2, 3]);
    assert_eq!(r.buffer.len(), 2);
    let rest: Vec<u32> = r.finish().iter().map(|f| f.data).collect();
    assert_eq!(rest, vec![4, 5]);
    assert_eq!(r.tracking.average_latency_ns(), Some(0));
    r.tracking.reset_latency();
    assert_eq!(r.tracking.average_latency_ns(), None);
}
