use miners::frame::{decode_frame, encode_frame};
use miners::packet::RawPacket;

#[test]
fn uncompressed_frame_example() {
    let p = RawPacket::new(0, vec![0x41, 0x42]);
    assert_eq!(encode_frame(&p, -1).unwrap(), vec![0x03, 0x00, 0x41, 0x42]);
    assert_eq!(encode_frame(&p, 0).unwrap(), vec![0x03, 0x00, 0x41, 0x42]);
}

#[test]
fn compressed_under_threshold_frame_example() {
    // the length covers the data length byte and id||body: four bytes
    let p = RawPacket::new(0, vec![0x41, 0x42]);
    assert_eq!(encode_frame(&p, 128).unwrap(), vec![0x04, 0x00, 0x00, 0x41, 0x42]);
}

#[test]
fn compressed_frame_carries_data_length_and_zlib_payload() {
    let body: Vec<u8> = (0..300u32).map(|i| (i % 7) as u8).collect();
    let p = RawPacket::new(0x21, body.clone());
    let frame = encode_frame(&p, 64).unwrap();
    let mut outer = RawPacket::new(0, frame.clone());
    let total = outer.read_varint() as usize;
    assert_eq!(total, outer.data.len());
    let data_len = outer.read_varint();
    assert_eq!(data_len, 301);
    assert_ne!(outer.data, {
        let mut raw = vec![0x21];
        raw.extend(&body);
        raw
    });
    assert!(outer.data.len() < 301);
    let back = decode_frame(frame, 64).unwrap();
    assert_eq!(back.id, 0x21);
    assert_eq!(back.data, body);
}

#[test]
fn frames_round_trip_at_every_threshold() {
    for threshold in [-1, 0, 1, 2, 3, 16, 128, 256] {
        for len in [0usize, 1, 2, 15, 16, 200, 1000] {
            let body: Vec<u8> = (0..len).map(|i| (i * 31 % 251) as u8).collect();
            let p = RawPacket::new(0x42, body.clone());
            let frame = encode_frame(&p, threshold).unwrap();
            let back = decode_frame(frame, threshold).unwrap();
            assert_eq!(back.id, 0x42);
            assert_eq!(back.data, body);
        }
    }
}

#[test]
fn receive_selects_by_data_length_alone() {
    let raw = vec![0x04, 0x00, 0x00, 0x41, 0x42];
    for threshold in [1, 128, 256, i32::MAX] {
        let back = decode_frame(raw.clone(), threshold).unwrap();
        assert_eq!(back.id, 0);
        assert_eq!(back.data, vec![0x41, 0x42]);
    }
    let body: Vec<u8> = vec![5; 100];
    let compressed = encode_frame(&RawPacket::new(7, body.clone()), 10).unwrap();
    for threshold in [1, 10, 1000] {
        let back = decode_frame(compressed.clone(), threshold).unwrap();
        assert_eq!(back.id, 7);
        assert_eq!(back.data, body);
    }
}

#[test]
fn malformed_frames_are_errors() {
    assert!(decode_frame(vec![], -1).is_err());
    assert!(decode_frame(vec![0x05, 0x00], -1).is_err());
    assert!(decode_frame(vec![0x00], -1).is_err());
    assert!(decode_frame(vec![0x03, 0x05, 0x01, 0x02], 64).is_err());
}

#[test]
fn decode_ignores_bytes_after_the_frame() {
    let back = decode_frame(vec![0x03, 0x00, 0x41, 0x42, 0x99], -1).unwrap();
    assert_eq!(back.data, vec![0x41, 0x42]);
}
