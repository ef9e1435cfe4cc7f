use remote_mic::client::DisconnectReason;
use remote_mic::gui::{
    bytes_less, default_ip_index, encryption_badge, filter_ip_input, format_name, is_blank,
    limit_port_input, sorted_unique, status_key, trimmed, with_any_address, AppModel, FormError,
};
use remote_mic::types::SampleFormat;

fn strings(items: &[&str]) -> Vec<String> {
    items.iter().map(|s| s.to_string()).collect()
}

fn model() -> AppModel {
    AppModel::new(
        strings(&["mic"]),
        strings(&["out"]),
        strings(&["192.168.1.5", "127.0.0.1", "192.168.1.5"]),
        Some(4000),
    )
}

#[test]
fn startup_state() {
    let m = model();
    assert_eq!(m.current_lang, "zh");
    assert_eq!(m.server_ip_list, strings(&["0.0.0.0", "127.0.0.1", "192.168.1.5"]));
    assert_eq!(m.sel_server_ip, 2);
    assert_eq!(m.server_port, 4000);
    assert!(!m.server_running && !m.client_connected);
    assert!(m.error_message.is_none());
    let m = AppModel::new(vec![], vec![], vec![], None);
    assert_eq!(m.server_ip_list, strings(&["0.0.0.0"]));
    assert_eq!(m.sel_server_ip, 0);
    assert_eq!(m.server_port, 50000);
}

#[test]
fn addresses_are_sorted_as_strings_and_listed_once() {
    let sorted = sorted_unique(strings(&["2.0.0.1", "192.168.1.5", "10.0.0.1", "2.0.0.1", "10.0.0.10"]));
    assert_eq!(sorted, strings(&["10.0.0.1", "10.0.0.10", "192.168.1.5", "2.0.0.1"]));
    let mut expected = strings(&["b", "", "a", "ab", "é", "a"]);
    expected.sort();
    expected.dedup();
    assert_eq!(sorted_unique(strings(&["b", "", "a", "ab", "é", "a"])), expected);
    assert_eq!(sorted_unique(vec![]), Vec::<String>::new());
    assert!(bytes_less(b"", b"a"));
    assert!(bytes_less(b"a", b"ab"));
    assert!(bytes_less(b"ab", b"b"));
    assert!(!bytes_less(b"a", b"a"));
    assert!(!bytes_less(b"b", b"ab"));
    assert!(!bytes_less(b"", b""));
}

#[test]
fn address_choices() {
    assert_eq!(with_any_address(strings(&["10.0.0.1", "0.0.0.0"])), strings(&["0.0.0.0", "10.0.0.1"]));
    assert_eq!(
        with_any_address(strings(&["10.0.0.1", "0.0.0.0", "10.0.0.2", "0.0.0.0"])),
        strings(&["0.0.0.0", "10.0.0.1", "10.0.0.2"])
    );
    assert_eq!(with_any_address(strings(&["0.0.0.0"])), strings(&["0.0.0.0"]));
    assert_eq!(with_any_address(strings(&[])), strings(&["0.0.0.0"]));
    assert_eq!(with_any_address(strings(&["10.0.0.1"])), strings(&["0.0.0.0", "10.0.0.1"]));
    assert_eq!(default_ip_index(&strings(&["0.0.0.0", "127.0.0.1"])), 0);
    assert_eq!(default_ip_index(&strings(&["0.0.0.0", "10.0.0.1", "10.0.0.2"])), 1);
    assert_eq!(default_ip_index(&strings(&[])), 0);
}

#[test]
fn input_fields_filter_and_limit() {
    assert_eq!(filter_ip_input("192.168.1.10"), "192.168.1.10");
    assert_eq!(filter_ip_input("a1b2 .3x４"), "12.3");
    assert_eq!(filter_ip_input("1234567890123456789"), "123456789012345");
    assert_eq!(filter_ip_input("............................"), "...............");
    assert_eq!(filter_ip_input(""), "");
    assert_eq!(limit_port_input("123456"), "12345");
    assert_eq!(limit_port_input("80"), "80");
    assert_eq!(limit_port_input("端口端口端口"), "端口端口端");
    assert_eq!(trimmed(" \u{3000}a b\t\n"), "a b");
    assert_eq!(trimmed("\u{a0}"), "");
    assert!(is_blank(" \u{2003} "));
    assert!(!is_blank(" x "));
    let mut m = model();
    m.set_client_ip("10.0.0.7abc");
    m.set_client_port("500001");
    assert_eq!((m.client_server_ip.as_str(), m.client_server_port.as_str()), ("10.0.0.7", "50000"));
}

#[test]
fn connect_form_validation() {
    let mut m = model();
    assert_eq!(m.connect_request().err(), Some(FormError::MissingFields));
    m.client_server_ip = "10.0.0.7".into();
    m.client_server_port = "  ".into();
    assert_eq!(m.connect_request().err(), Some(FormError::MissingFields));
    m.client_server_port = "5000".into();
    m.client_server_ip = "10.0.0".into();
    assert_eq!(m.connect_request().err(), Some(FormError::InvalidIp));
    m.client_server_ip = "10.0.0.256".into();
    assert_eq!(m.connect_request().err(), Some(FormError::InvalidIp));
    m.client_server_ip = " 10.0.0.7 ".into();
    for bad in ["0", "65536", "5o", "-1", "99999"] {
        m.client_server_port = bad.into();
        assert_eq!(m.connect_request().err(), Some(FormError::InvalidPort));
    }
    m.client_server_port = " 65535\u{3000}".into();
    m.sel_output = 3;
    m.client_psk = " \t".into();
    let r = m.connect_request().unwrap();
    assert_eq!((r.ip.as_str(), r.port, r.output_index, r.psk), ("10.0.0.7", 65535, 3, None));
    m.client_psk = " pw ".into();
    assert_eq!(m.connect_request().unwrap().psk.as_deref(), Some(" pw "));
    assert_eq!(FormError::MissingFields.key(), "error.client.missing_fields");
    assert_eq!(FormError::InvalidIp.key(), "error.client.invalid_ip");
    assert_eq!(FormError::InvalidPort.key(), "error.client.invalid_port");
}

#[test]
fn start_request_uses_selection_and_trimmed_key() {
    let mut m = model();
    m.sel_input = 2;
    m.server_psk = " secret ".into();
    let r = m.start_request();
    assert_eq!((r.ip.as_str(), r.port, r.input_index), ("192.168.1.5", 4000, 2));
    assert_eq!(r.psk.as_deref(), Some("secret"));
    m.sel_server_ip = 17;
    m.server_psk = "   ".into();
    let r = m.start_request();
    assert_eq!(r.ip, "0.0.0.0");
    assert_eq!(r.psk, None);
}

#[test]
fn microphone_banner_comes_and_goes() {
    let mut m = model();
    m.apply_capability_test(false, true);
    assert!(m.mic_test_done && m.net_test_done && !m.mic_available && m.net_available);
    assert_eq!(
        m.error_message.as_deref(),
        Some("Microphone unavailable: permission denied or no input device")
    );
    m.apply_capability_test(true, false);
    assert!(m.mic_available && !m.net_available);
    assert_eq!(m.error_message, None);
    m.error_message = Some("other trouble".into());
    m.apply_capability_test(false, true);
    assert_eq!(m.error_message.as_deref(), Some("other trouble"));
    m.apply_capability_test(true, true);
    assert_eq!(m.error_message.as_deref(), Some("other trouble"));
    m.dismiss_error();
    assert_eq!(m.error_message, None);
}

#[test]
fn disconnect_event_shows_the_reason_once() {
    let mut m = model();
    m.client_connected = true;
    m.client_disconnected(DisconnectReason::HeartbeatTimeout, "断开: ");
    assert!(!m.client_connected);
    assert_eq!(m.error_message.as_deref(), Some("断开: 心跳超时5s"));
    m.client_connected = true;
    m.client_disconnected(DisconnectReason::ServerStopped, "断开: ");
    assert_eq!(m.error_message.as_deref(), Some("断开: 心跳超时5s"));
    assert!(!m.client_connected);
}

#[test]
fn language_switch_reports_change() {
    let mut m = model();
    assert!(!m.switch_language("zh"));
    assert!(m.switch_language("en"));
    assert_eq!(m.current_lang, "en");
}

#[test]
fn labels_and_badges() {
    assert_eq!(status_key(0), "server.status.stopped");
    assert_eq!(status_key(1), "server.status.listening");
    assert_eq!(status_key(2), "server.status.audio_ready");
    assert_eq!(status_key(3), "server.status.running");
    assert_eq!(format_name(SampleFormat::F32), "f32");
    assert_eq!(format_name(SampleFormat::I16), "i16");
    assert_eq!(format_name(SampleFormat::U16), "u16");
    assert_eq!(format_name(SampleFormat::Other), "f32");
    assert_eq!(encryption_badge(-1, false), ("enc.auth_failed", "#b60205"));
    assert_eq!(encryption_badge(1, true), ("enc.enabled", "#216e39"));
    assert_eq!(encryption_badge(0, true), ("enc.disabled", "#b60205"));
    assert_eq!(encryption_badge(0, false), ("enc.disabled", "#555"));
    assert_eq!(encryption_badge(5, false), ("enc.disabled", "#555"));
}
