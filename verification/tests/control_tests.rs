use remote_mic::client::{disconnect_line, heartbeat_line};
use remote_mic::control::{parse_command, serve, stop_line, trim, Command};
use remote_mic::registry::ClientRegistry;

fn registry_with(id: u64, key: &[u8], now: u64) -> ClientRegistry {
    let mut r = ClientRegistry::new();
    r.register(id, key.to_vec(), now);
    r
}

#[test]
fn registry_registers_and_looks_up() {
    let mut r = ClientRegistry::new();
    assert!(r.get(7).is_none());
    assert!(r.clients().is_empty());
    r.register(7, b"abc".to_vec(), 100);
    r.register(9, b"xyz".to_vec(), 200);
    let info = r.get(7).unwrap();
    assert_eq!((info.addr, info.key.as_slice(), info.last_seen_ms, info.udp_port), (7, &b"abc"[..], 100, None));
    let mut ids: Vec<u64> = r.clients().iter().map(|c| c.addr).collect();
    ids.sort();
    assert_eq!(ids, vec![7, 9]);
    r.register(7, b"new".to_vec(), 300);
    assert_eq!(r.get(7).unwrap().key, b"new");
    assert_eq!(r.clients().len(), 2);
    r.remove(7);
    assert!(r.get(7).is_none());
    r.remove(7);
    assert_eq!(r.clients().len(), 1);
}

#[test]
fn heartbeat_needs_the_registered_key() {
    let mut r = registry_with(1, b"key", 0);
    assert!(!r.heartbeat(1, b"KEY", 50));
    assert!(!r.heartbeat(2, b"key", 50));
    assert_eq!(r.get(1).unwrap().last_seen_ms, 0);
    assert!(r.heartbeat(1, b"key", 50));
    assert_eq!(r.get(1).unwrap().last_seen_ms, 50);
    assert_eq!(r.get(1).unwrap().key, b"key");
}

#[test]
fn silent_clients_are_evicted_after_five_seconds() {
    let mut r = ClientRegistry::new();
    r.register(1, b"a".to_vec(), 1_000);
    r.register(2, b"b".to_vec(), 2_000);
    r.register(3, b"c".to_vec(), 9_000);
    r.evict_stale(6_000);
    assert_eq!(r.clients().len(), 3);
    r.evict_stale(6_001);
    assert!(r.get(1).is_none());
    assert!(r.get(2).is_some());
    r.evict_stale(7_001);
    assert!(r.get(2).is_none());
    assert!(r.get(3).is_some());
    r.evict_stale(0);
    assert_eq!(r.clients().len(), 1);
}

#[test]
fn commands_are_read_from_lines() {
    assert!(matches!(parse_command(b"HEART abc"), Command::Heart(k) if k == b"abc"));
    assert!(matches!(parse_command(b"  HEART   abc \r"), Command::Heart(k) if k == b"abc"));
    assert!(matches!(parse_command(b"HEART"), Command::Ignored));
    assert!(matches!(parse_command(b"HEART "), Command::Ignored));
    assert!(matches!(parse_command(b"HEART a b"), Command::Ignored));
    assert!(matches!(parse_command(b"HEART\tabc"), Command::Ignored));
    assert!(matches!(parse_command(b"heart abc"), Command::Ignored));
    assert!(matches!(parse_command(b"DISCONNECT"), Command::Disconnect));
    assert!(matches!(parse_command(b"\tDISCONNECT\r"), Command::Disconnect));
    assert!(matches!(parse_command(b"DISCONNECT now"), Command::Ignored));
    assert!(matches!(parse_command(b""), Command::Ignored));
    assert!(matches!(parse_command(b"   "), Command::Ignored));
    assert_eq!(trim(b" \t a b \n"), b"a b");
    assert_eq!(trim(b"\r\n"), b"");
    assert_eq!(stop_line(), b"SERVER_STOP\n");
}

#[test]
fn heartbeats_are_acknowledged() {
    let mut r = registry_with(5, b"k1", 0);
    let served = serve(&mut r, 5, b"HEART k1\n", 1_000);
    assert_eq!(served.replies, b"OK\n");
    assert!(!served.closed);
    assert_eq!(r.get(5).unwrap().last_seen_ms, 1_000);
    let served = serve(&mut r, 5, b"HEART wrong\nnoise\n\nHEART k1\r\nHEART k1", 2_000);
    assert_eq!(served.replies, b"OK\nOK\n");
    assert_eq!(r.get(5).unwrap().last_seen_ms, 2_000);
    let served = serve(&mut r, 6, b"HEART k1\n", 3_000);
    assert_eq!(served.replies, b"");
    assert_eq!(r.get(5).unwrap().last_seen_ms, 2_000);
    let served = serve(&mut r, 5, b"", 4_000);
    assert_eq!(served.replies, b"");
    assert!(!served.closed);
}

#[test]
fn disconnect_ends_the_reading() {
    let mut r = registry_with(5, b"k1", 0);
    let served = serve(&mut r, 5, b"HEART k1\nDISCONNECT\nHEART k1\n", 1_000);
    assert_eq!(served.replies, b"OK\nBYE\n");
    assert!(served.closed);
    assert!(r.get(5).is_none());
    let served = serve(&mut r, 5, b"DISCONNECT", 1_000);
    assert_eq!(served.replies, b"BYE\n");
    assert!(served.closed);
}

#[test]
fn server_understands_the_client_lines() {
    let mut r = registry_with(3, b"Abc123", 0);
    let served = serve(&mut r, 3, &heartbeat_line(b"Abc123"), 700);
    assert_eq!(served.replies, b"OK\n");
    assert!(!served.closed);
    assert_eq!(r.get(3).unwrap().last_seen_ms, 700);
    let served = serve(&mut r, 3, &heartbeat_line(b"other"), 800);
    assert_eq!(served.replies, b"");
    assert_eq!(r.get(3).unwrap().last_seen_ms, 700);
    let served = serve(&mut r, 3, &disconnect_line(), 900);
    assert_eq!(served.replies, b"BYE\n");
    assert!(served.closed);
    assert!(r.clients().is_empty());
}
