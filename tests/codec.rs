use miners::error::PacketError;
use miners::packet::RawPacket;

fn varint_of(v: i32) -> Vec<u8> {
    let mut p = RawPacket::empty(0);
    p.write_varint(v);
    p.data
}

#[test]
fn varint_encoding_examples() {
    assert_eq!(varint_of(0), vec![0x00]);
    assert_eq!(varint_of(127), vec![0x7F]);
    assert_eq!(varint_of(128), vec![0x80, 0x01]);
    assert_eq!(varint_of(25565), vec![0xDD, 0xC7, 0x01]);
    assert_eq!(varint_of(-1), vec![0xFF, 0xFF, 0xFF, 0xFF, 0x0F]);
}

#[test]
fn varint_round_trip_consumes_one_to_five_bytes() {
    for v in [0, 1, 127, 128, 255, 25565, 2097151, 2097152, i32::MAX, -1, -128, i32::MIN] {
        let mut p = RawPacket::new(0, varint_of(v));
        p.write_byte(0xAA);
        let before = p.data.len();
        assert_eq!(p.read_varint(), v);
        let used = before - p.data.len();
        assert!((1..=5).contains(&used));
        assert_eq!(p.data, vec![0xAA]);
    }
}

#[test]
fn varint_is_minimal_for_non_negative_values() {
    assert_eq!(varint_of(0).len(), 1);
    assert_eq!(varint_of(127).len(), 1);
    assert_eq!(varint_of(128).len(), 2);
    assert_eq!(varint_of(16383).len(), 2);
    assert_eq!(varint_of(16384).len(), 3);
    assert_eq!(varint_of(i32::MAX).len(), 5);
    assert_eq!(varint_of(i32::MIN).len(), 5);
}

#[test]
fn varint_reader_reads_five_bytes_and_drops_high_bits() {
    let mut p = RawPacket::new(0, vec![0xFF, 0xFF, 0xFF, 0xFF, 0x7F, 0x01]);
    assert_eq!(p.read_varint(), -1);
    assert_eq!(p.data, vec![0x01]);
}

#[test]
fn try_read_varint_leaves_truncated_input() {
    let mut p = RawPacket::new(0, vec![0x80, 0x80]);
    assert_eq!(p.try_read_varint(), None);
    assert_eq!(p.data, vec![0x80, 0x80]);
    let mut e = RawPacket::empty(0);
    assert_eq!(e.try_read_varint(), None);
}

#[test]
fn string_encoding_example() {
    let mut p = RawPacket::empty(0);
    p.write_string("AB");
    assert_eq!(p.data, vec![0x02, 0x41, 0x42]);
}

#[test]
fn string_round_trip_utf8() {
    for s in ["", "AB", "héllo wörld", "日本語", "emoji 🎉"] {
        let mut p = RawPacket::empty(0);
        p.write_string(s);
        p.write_byte(7);
        assert_eq!(p.read_string(), s);
        assert_eq!(p.data, vec![7]);
    }
}

#[test]
fn string_ushort_round_trip() {
    let mut p = RawPacket::empty(0);
    p.write_string_ushort("name");
    assert_eq!(p.data, vec![0x00, 0x04, b'n', b'a', b'm', b'e']);
    assert_eq!(p.read_string_ushort(), "name");
    assert!(p.data.is_empty());
}

#[test]
fn try_read_string_rejects_bad_input_without_consuming() {
    let mut short = RawPacket::new(0, vec![0x05, 0x41]);
    assert_eq!(short.try_read_string(), None);
    assert_eq!(short.data, vec![0x05, 0x41]);
    let mut invalid = RawPacket::new(0, vec![0x02, 0xC3, 0x28]);
    assert_eq!(invalid.try_read_string(), None);
    assert_eq!(invalid.data, vec![0x02, 0xC3, 0x28]);
}

#[test]
fn fixed_width_values_are_big_endian() {
    let mut p = RawPacket::empty(0);
    p.write_ushort(0x1234);
    p.write_int(-2);
    p.write_long(0x0102030405060708);
    p.write_ulong(u64::MAX - 1);
    p.write_short(-3);
    p.write_bool(true);
    p.write_bool(false);
    assert_eq!(&p.data[0..2], &[0x12, 0x34]);
    assert_eq!(&p.data[2..6], &[0xFF, 0xFF, 0xFF, 0xFE]);
    assert_eq!(&p.data[6..14], &[1, 2, 3, 4, 5, 6, 7, 8]);
    assert_eq!(p.read_ushort(), 0x1234);
    assert_eq!(p.read_int(), -2);
    assert_eq!(p.read_long(), 0x0102030405060708);
    assert_eq!(p.read_ulong(), u64::MAX - 1);
    assert_eq!(p.read_short(), -3);
    assert!(p.read_bool());
    assert!(!p.read_bool());
    assert!(p.data.is_empty());
}

#[test]
fn uuid_is_read_high_half_first() {
    let mut p = RawPacket::new(
        0,
        vec![0x00, 0x11, 0x22, 0x33, 0x44, 0x55, 0x66, 0x77, 0x88, 0x99, 0xAA, 0xBB, 0xCC, 0xDD, 0xEE, 0xFF],
    );
    assert_eq!(p.read_uuid(), 0x00112233445566778899AABBCCDDEEFF);
    assert_eq!(RawPacket::new(0, vec![1, 2, 3]).try_read_uuid(), None);
}

#[test]
fn bytes_and_byte_readers() {
    let mut p = RawPacket::new(3, vec![9, 8, 7, 6]);
    assert_eq!(p.read_byte(), 9);
    assert_eq!(p.read_bytes(2), vec![8, 7]);
    assert_eq!(p.try_read_bytes(5), None);
    assert_eq!(p.data, vec![6]);
    p.write_bytes(vec![1, 2]);
    assert_eq!(p.data, vec![6, 1, 2]);
    assert_eq!(p.id, 3);
    let c = p.copy();
    assert_eq!(c, p);
}

#[test]
fn packet_error_keeps_key_and_arguments() {
    let e = PacketError::new("chat.type.text".to_string(), vec!["a".to_string(), "b".to_string()]);
    assert_eq!(e.get_text(), "chat.type.text");
    assert_eq!(e.get_with(), vec!["a".to_string(), "b".to_string()]);
    let t = PacketError::text("No data to read".to_string());
    assert_eq!(t.get_text(), "No data to read");
    assert!(t.get_with().is_empty());
}
