use remote_mic::frame::{decode_header, encode_header, FrameHeader, HEADER_LEN};
use remote_mic::types::{
    code_to_sample_format, sample_format_code, SampleFormat, FMT_F32, FMT_I16, FMT_U16,
    FRAME_MAGIC,
};

#[test]
fn header_round_trip_reproduces_every_field() {
    for len in [0u16, 1, 960, 65535] {
        let h = FrameHeader {
            sequence: 42,
            format_code: 1,
            channels: 2,
            sample_rate: 48000,
            payload_len: len,
            timestamp_ns: 123456789,
        };
        let bytes = encode_header(&h);
        assert_eq!(bytes.len(), HEADER_LEN);
        assert_eq!(decode_header(&bytes), Some(h));
    }
}

#[test]
fn header_bytes_are_big_endian_at_fixed_offsets() {
    let h = FrameHeader {
        sequence: 0x01020304,
        format_code: 3,
        channels: 2,
        sample_rate: 48000,
        payload_len: 0x1234,
        timestamp_ns: 0x0102030405060708,
    };
    let bytes = encode_header(&h);
    assert_eq!(
        bytes,
        vec![
            b'R', b'M', 1, 2, 3, 4, 3, 2, 0x00, 0x00, 0xbb, 0x80, 0x12, 0x34, 1, 2, 3, 4, 5, 6, 7,
            8
        ]
    );
}

#[test]
fn short_or_foreign_buffers_are_rejected() {
    let h = FrameHeader {
        sequence: 1,
        format_code: 1,
        channels: 1,
        sample_rate: 44100,
        payload_len: 0,
        timestamp_ns: 0,
    };
    let bytes = encode_header(&h);
    for n in 0..HEADER_LEN {
        assert_eq!(decode_header(&bytes[..n]), None);
    }
    let mut bad = bytes.clone();
    bad[0] = b'X';
    assert_eq!(decode_header(&bad), None);
    let mut bad = bytes.clone();
    bad[1] = b'm';
    assert_eq!(decode_header(&bad), None);
}

#[test]
fn decoding_ignores_what_follows_the_header() {
    let h = FrameHeader {
        sequence: u32::MAX,
        format_code: 2,
        channels: 255,
        sample_rate: u32::MAX,
        payload_len: 3,
        timestamp_ns: u64::MAX,
    };
    let mut bytes = encode_header(&h);
    bytes.extend_from_slice(&[9, 9, 9]);
    assert_eq!(decode_header(&bytes), Some(h));
}

#[test]
fn format_codes_map_both_ways() {
    assert_eq!(FRAME_MAGIC, *b"RM");
    assert_eq!(sample_format_code(SampleFormat::F32), FMT_F32);
    assert_eq!(sample_format_code(SampleFormat::I16), FMT_I16);
    assert_eq!(sample_format_code(SampleFormat::U16), FMT_U16);
    assert_eq!(sample_format_code(SampleFormat::Other), 1);
    assert_eq!(code_to_sample_format(1), SampleFormat::F32);
    assert_eq!(code_to_sample_format(2), SampleFormat::I16);
    assert_eq!(code_to_sample_format(3), SampleFormat::U16);
    assert_eq!(code_to_sample_format(0), SampleFormat::F32);
    assert_eq!(code_to_sample_format(200), SampleFormat::F32);
}
