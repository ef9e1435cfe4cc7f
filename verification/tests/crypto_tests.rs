use remote_mic::crypto::{build_nonce, derive_key, open_payload, seal_payload};
use remote_mic::frame::{encode_header, FrameHeader};

const SALT: [u8; 8] = [1, 2, 3, 4, 5, 6, 7, 8];

#[test]
fn key_is_sha256_of_psk_and_salt() {
    let key = derive_key("secret", &SALT);
    assert_eq!(
        key,
        [
            3, 179, 117, 148, 12, 185, 108, 22, 248, 79, 170, 135, 245, 239, 57, 204, 11, 199, 6,
            108, 205, 62, 20, 69, 109, 157, 116, 228, 56, 227, 88, 50
        ]
    );
    assert_ne!(derive_key("secret", &[0u8; 8]), key);
    assert_ne!(derive_key("Secret", &SALT), key);
}

#[test]
fn nonce_is_salt_sequence_timestamp_padding() {
    let nonce = build_nonce(&SALT, 0x0a0b0c0d, 0x1112131415161718);
    assert_eq!(
        nonce,
        [
            1, 2, 3, 4, 5, 6, 7, 8, 0x0a, 0x0b, 0x0c, 0x0d, 0x11, 0x12, 0x13, 0x14, 0x15, 0x16,
            0x17, 0x18, 0, 0, 0, 0
        ]
    );
}

#[test]
fn encryption_round_trip_returns_the_payload() {
    let key = derive_key("secret", &SALT);
    let payload: Vec<u8> = (0..200u16).map(|i| (i % 251) as u8).collect();
    let header = FrameHeader {
        sequence: 7,
        format_code: 1,
        channels: 1,
        sample_rate: 48000,
        payload_len: (payload.len() + 16) as u16,
        timestamp_ns: 5_000_000,
    };
    let aad = encode_header(&header);
    let sealed = seal_payload(&key, &SALT, 7, 5_000_000, &aad, &payload).unwrap();
    assert_eq!(sealed.len(), payload.len() + 16);
    assert_ne!(&sealed[..payload.len()], &payload[..]);
    let opened = open_payload(&key, &SALT, 7, 5_000_000, &aad, &sealed).unwrap();
    assert_eq!(opened, payload);
}

#[test]
fn any_flipped_header_bit_fails_decryption() {
    let key = derive_key("secret", &SALT);
    let payload = vec![1u8, 2, 3, 4, 5, 6, 7, 8];
    let header = FrameHeader {
        sequence: 1,
        format_code: 1,
        channels: 2,
        sample_rate: 48000,
        payload_len: 24,
        timestamp_ns: 99,
    };
    let aad = encode_header(&header);
    let sealed = seal_payload(&key, &SALT, 1, 99, &aad, &payload).unwrap();
    for byte in 0..aad.len() {
        for bit in 0..8 {
            let mut tampered = aad.clone();
            tampered[byte] ^= 1 << bit;
            assert!(open_payload(&key, &SALT, 1, 99, &tampered, &sealed).is_err());
        }
    }
}

#[test]
fn wrong_key_nonce_or_ciphertext_fails_decryption() {
    let key = derive_key("secret", &SALT);
    let other = derive_key("other", &SALT);
    let aad = vec![0u8; 22];
    let sealed = seal_payload(&key, &SALT, 3, 4, &aad, b"hello").unwrap();
    assert!(open_payload(&other, &SALT, 3, 4, &aad, &sealed).is_err());
    assert!(open_payload(&key, &SALT, 4, 4, &aad, &sealed).is_err());
    assert!(open_payload(&key, &SALT, 3, 5, &aad, &sealed).is_err());
    assert!(open_payload(&key, &[9u8; 8], 3, 4, &aad, &sealed).is_err());
    let mut broken = sealed.clone();
    broken[0] ^= 1;
    assert!(open_payload(&key, &SALT, 3, 4, &aad, &broken).is_err());
    assert!(open_payload(&key, &SALT, 3, 4, &aad, &sealed[..10]).is_err());
}
