use miners::client::{DeathPacket};
use miners::nbt::{NBTCompound, NBTType};
use miners::packet::{IntoPacket, RawPacket};
use miners::packets::{
    EmptyPacket, HandshakePacket, LoginPlayPacket, LoginStartPacket, LoginSuccessPacket, Slot,
};

fn sample_tree() -> NBTType {
    NBTType::Compound(NBTCompound {
        data: vec![
            ("byte".to_string(), NBTType::Byte(-5)),
            ("short".to_string(), NBTType::Short(-300)),
            ("int".to_string(), NBTType::Int(123456)),
            ("long".to_string(), NBTType::Long(-9_000_000_000)),
            ("float".to_string(), NBTType::Float(1.5f32.to_bits())),
            ("double".to_string(), NBTType::Double(2.25f64.to_bits())),
            ("bytes".to_string(), NBTType::ByteArray(vec![1, -1, 127])),
            ("name".to_string(), NBTType::String("minecraft:overworld".to_string())),
            (
                "list".to_string(),
                NBTType::List(vec![NBTType::Int(1), NBTType::Int(2), NBTType::Int(3)]),
            ),
            ("empty".to_string(), NBTType::List(vec![])),
            (
                "nested".to_string(),
                NBTType::Compound(NBTCompound { data: vec![("x".to_string(), NBTType::Byte(1))] }),
            ),
            ("ints".to_string(), NBTType::IntArray(vec![-1, 0, 1])),
            ("longs".to_string(), NBTType::LongArray(vec![i64::MIN, i64::MAX])),
        ],
    })
}

fn write_named(packet: &mut RawPacket, name: &str, t: &NBTType) {
    packet.write_byte(t.tag());
    packet.write_string_ushort(name);
    t.write_payload(packet);
}

#[test]
fn nbt_round_trip_gives_the_same_tree() {
    let t = sample_tree();
    let mut p = RawPacket::empty(0);
    write_named(&mut p, "root", &t);
    p.write_byte(0xEE);
    let back = NBTType::from_packet(&mut p).unwrap();
    assert_eq!(format!("{:?}", back), format!("{:?}", t));
    assert_eq!(p.data, vec![0xEE]);
}

#[test]
fn nbt_payload_bytes_example() {
    let mut p = RawPacket::empty(0);
    NBTType::List(vec![NBTType::Short(1), NBTType::Short(2)]).write_payload(&mut p);
    assert_eq!(p.data, vec![0x02, 0, 0, 0, 2, 0, 1, 0, 2]);
    let mut c = RawPacket::empty(0);
    NBTType::Compound(NBTCompound { data: vec![("a".to_string(), NBTType::Byte(7))] })
        .write_payload(&mut c);
    assert_eq!(c.data, vec![0x01, 0x00, 0x01, b'a', 0x07, 0x00]);
}

#[test]
fn nbt_unknown_tag_and_truncation_fail() {
    let mut p = RawPacket::new(0, vec![1, 2, 3]);
    assert!(NBTType::from_packet_raw(&mut p, 13).is_err());
    let mut q = RawPacket::new(0, vec![0, 0]);
    assert!(NBTType::from_packet_raw(&mut q, 3).is_err());
    let mut r = RawPacket::new(0, vec![0x01, 0x00]);
    assert!(NBTType::from_packet_raw(&mut r, 10).is_err());
    let mut unknown_items = RawPacket::new(0, vec![0x0D, 0, 0, 0, 0]);
    assert!(NBTType::from_packet_raw(&mut unknown_items, 9).is_err());
    assert!(NBTCompound::new().data.is_empty());
}

#[test]
fn handshake_and_login_start_bytes() {
    let h = HandshakePacket::new_login("localhost".to_string(), 25565);
    assert_eq!(h.next_state, 2);
    assert_eq!(HandshakePacket::new_ping("a".to_string(), 1).next_state, 1);
    let p = h.into_packet(760).unwrap();
    let mut expected = vec![0xF8, 0x05, 0x09];
    expected.extend(b"localhost");
    expected.extend([0x63, 0xDD, 0x02]);
    assert_eq!(p.id, 0);
    assert_eq!(p.data, expected);
    let l = LoginStartPacket::new("tester".to_string()).into_packet(760).unwrap();
    let mut expected = vec![0x06];
    expected.extend(b"tester");
    expected.extend([0x00, 0x00]);
    assert_eq!(l.data, expected);
    assert_eq!(EmptyPacket(0).into_packet(760).unwrap(), RawPacket::empty(0));
}

fn login_success_body() -> Vec<u8> {
    let mut p = RawPacket::empty(0x02);
    p.write_ulong(0x0011223344556677);
    p.write_ulong(0x8899AABBCCDDEEFF);
    p.write_string("tester");
    p.write_varint(2);
    p.write_string("textures");
    p.write_string("value");
    p.write_bool(true);
    p.write_string("sig");
    p.write_string("other");
    p.write_string("v2");
    p.write_bool(false);
    p.data
}

#[test]
fn login_success_decodes_uuid_high_first() {
    let s = LoginSuccessPacket::decode(RawPacket::new(2, login_success_body())).unwrap();
    assert_eq!(s.uuid, 0x00112233445566778899AABBCCDDEEFF);
    assert_eq!(s.username, "tester");
    assert_eq!(s.properties.len(), 2);
    assert_eq!(s.properties[0].signature.as_deref(), Some("sig"));
    assert_eq!(s.properties[1].value, "v2");
    assert_eq!(s.properties[1].signature, None);
    let mut short = login_success_body();
    short.truncate(20);
    assert!(LoginSuccessPacket::decode(RawPacket::new(2, short)).is_none());
}

pub fn login_play_body() -> Vec<u8> {
    let mut p = RawPacket::empty(0x25);
    p.write_int(42);
    p.write_bool(false);
    p.write_byte(1);
    p.write_byte(0xFF);
    p.write_varint(2);
    p.write_string("minecraft:overworld");
    p.write_string("minecraft:the_nether");
    write_named(&mut p, "", &sample_tree());
    p.write_string("minecraft:overworld");
    p.write_string("minecraft:overworld");
    p.write_ulong(12345);
    p.write_varint(20);
    p.write_varint(10);
    p.write_varint(8);
    p.write_bool(false);
    p.write_bool(true);
    p.write_bool(false);
    p.write_bool(true);
    p.write_bool(false);
    p.data
}

#[test]
fn login_play_decodes_every_field() {
    let lp = LoginPlayPacket::decode(RawPacket::new(0x25, login_play_body())).unwrap();
    assert_eq!(lp.id, 42);
    assert!(!lp.is_hardcore);
    assert_eq!(lp.gamemode, 1);
    assert_eq!(lp.previous_gamemode, -1);
    assert_eq!(lp.dimension_count, 2);
    assert_eq!(lp.dimension_names[1], "minecraft:the_nether");
    assert_eq!(format!("{:?}", lp.nbt_registry_codec), format!("{:?}", sample_tree()));
    assert_eq!(lp.hashed_seed, 12345);
    assert_eq!((lp.max_players, lp.view_distance, lp.simulation_distance), (20, 10, 8));
    assert!(lp.enable_respawn_screen && lp.is_flat && !lp.is_debug && !lp.reduced_debug_info);
    assert!(lp.death_location.is_none());
    let mut body = login_play_body();
    body.pop();
    assert!(LoginPlayPacket::decode(RawPacket::new(0x25, body)).is_none());
}

#[test]
fn death_packet_decodes() {
    let mut p = RawPacket::empty(0x36);
    p.write_varint(7);
    p.write_int(-1);
    p.write_string("fell");
    let d = DeathPacket::decode(p).unwrap();
    assert_eq!((d.id, d.killer, d.message.as_str()), (7, -1, "fell"));
    assert!(DeathPacket::decode(RawPacket::new(0x36, vec![7])).is_none());
}

#[test]
fn slot_reads_present_and_empty() {
    let mut empty = RawPacket::new(0, vec![0x00, 0x09]);
    let s = Slot::from_packet(&mut empty).unwrap();
    assert!(!s.present && s.item_id.is_none() && s.nbt.is_none());
    assert_eq!(empty.data, vec![0x09]);
    let mut p = RawPacket::empty(0);
    p.write_bool(true);
    p.write_int(5);
    p.write_byte(64);
    write_named(&mut p, "", &NBTType::Int(3));
    let s = Slot::from_packet(&mut p).unwrap();
    assert_eq!((s.item_id, s.item_count), (Some(5), Some(64)));
    assert!(matches!(s.nbt, Some(NBTType::Int(3))));
    assert!(Slot::from_packet(&mut RawPacket::new(0, vec![1, 0])).is_err());
}

#[test]
fn list_of_end_reads_empty_payloads() {
    let mut p = RawPacket::new(0, vec![0x00, 0, 0, 0, 3, 0xAB]);
    match NBTType::from_packet_raw(&mut p, 9).unwrap() {
        NBTType::List(items) => {
            assert_eq!(items.len(), 3);
            assert!(items.iter().all(|i| matches!(i, NBTType::End)));
        }
        other => panic!("unexpected {:?}", other),
    }
    assert_eq!(p.data, vec![0xAB]);
}

#[test]
fn negative_lengths_read_as_empty() {
    let mut list = RawPacket::new(0, vec![0x03, 0xFF, 0xFF, 0xFF, 0xFF, 0x01]);
    assert!(matches!(NBTType::from_packet_raw(&mut list, 9).unwrap(), NBTType::List(v) if v.is_empty()));
    assert_eq!(list.data, vec![0x01]);
    let mut bytes = RawPacket::new(0, vec![0x80, 0, 0, 0]);
    assert!(matches!(NBTType::from_packet_raw(&mut bytes, 7).unwrap(), NBTType::ByteArray(v) if v.is_empty()));
}

#[test]
fn repeated_compound_name_keeps_last_value() {
    let mut p = RawPacket::empty(0);
    for (name, v) in [("a", 1i8), ("b", 2), ("a", 3)] {
        p.write_byte(1);
        p.write_string_ushort(name);
        p.write_byte(v as u8);
    }
    p.write_byte(0);
    match NBTType::from_packet_raw(&mut p, 10).unwrap() {
        NBTType::Compound(c) => {
            assert_eq!(c.data.len(), 2);
            assert_eq!(c.data[0].0, "a");
            assert!(matches!(c.data[0].1, NBTType::Byte(3)));
            assert_eq!(c.data[1].0, "b");
            assert!(matches!(c.data[1].1, NBTType::Byte(2)));
        }
        other => panic!("unexpected {:?}", other),
    }
}
