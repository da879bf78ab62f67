use miners::client::{
    ChatHandler, ChatMessage, ChatMessagePacket, ChatMessageSource, ChatReceived,
    ClientCommandAction, ClientConfig, ClientHandlerRegistry, DeathHandler, FormattedChatMessage,
    KeepAliveHandler, default_color, default_font,
};
use miners::events::{ClientEventDispatcher, DEATH_EVENT, SPAWN_EVENT};
use miners::handler::{
    ConnectionState, HandlerError, LoginConfig, PacketHandler, PacketHandlerManager, SessionState,
};
use miners::packet::{IntoPacket, RawPacket};
use miners::status::{Description, Players, StatusResponse, Version};

fn login_success_frame_body() -> Vec<u8> {
    let mut p = RawPacket::empty(0x02);
    p.write_ulong(0x0011223344556677);
    p.write_ulong(0x8899AABBCCDDEEFF);
    p.write_string("tester");
    p.write_varint(0);
    p.data
}

fn login_play_packet() -> RawPacket {
    let mut p = RawPacket::empty(0x25);
    p.write_int(1);
    p.write_bool(false);
    p.write_byte(0);
    p.write_byte(0xFF);
    p.write_varint(0);
    p.write_byte(10);
    p.write_string_ushort("");
    p.write_byte(0);
    p.write_string("minecraft:overworld");
    p.write_string("minecraft:overworld");
    p.write_ulong(1);
    p.write_varint(20);
    p.write_varint(10);
    p.write_varint(10);
    for _ in 0..5 {
        p.write_bool(false);
    }
    p
}

fn login_manager() -> PacketHandlerManager {
    let mut m = PacketHandlerManager::new();
    m.register(PacketHandler::SetCompression);
    m.register(PacketHandler::LoginSuccess);
    m.register(PacketHandler::LoginPlay);
    m
}

#[test]
fn login_happy_path() {
    let mut session = SessionState::new();
    assert_eq!(session.state, ConnectionState::Handshake);
    assert_eq!(session.compression_threshold, -1);
    let m = login_manager();
    session.state = ConnectionState::Login;

    let mut set_compression = RawPacket::empty(0x03);
    set_compression.write_varint(256);
    assert_eq!(m.handle(&mut session, set_compression), Ok(()));
    assert_eq!(session.compression_threshold, 256);

    let success = RawPacket::new(0x02, login_success_frame_body());
    assert_eq!(m.handle(&mut session, success), Ok(()));
    assert_eq!(session.state, ConnectionState::Play);
    assert_eq!(session.uuid, 0x00112233445566778899AABBCCDDEEFF);

    assert_eq!(m.handle(&mut session, login_play_packet()), Err(HandlerError::ExitRequested));
    let mut m = m;
    m.unregister_all();
    assert_eq!(m.handle(&mut session, login_play_packet()), Err(HandlerError::NoFallback));
}

#[test]
fn protocol_handlers_check_the_state() {
    let m = login_manager();
    let mut session = SessionState::new();
    let mut set_compression = RawPacket::empty(0x03);
    set_compression.write_varint(64);
    assert_eq!(m.handle(&mut session, set_compression), Err(HandlerError::BadState));
    assert_eq!(session.compression_threshold, -1);
    assert_eq!(m.handle(&mut session, login_play_packet()), Err(HandlerError::BadState));
    session.state = ConnectionState::Login;
    assert_eq!(
        m.handle(&mut session, RawPacket::new(0x02, vec![1, 2])),
        Err(HandlerError::Decode)
    );
    assert_eq!(session.state, ConnectionState::Login);
    assert_eq!(m.handle(&mut session, RawPacket::empty(0x50)), Err(HandlerError::NoFallback));
}

#[test]
fn play_is_never_left() {
    let m = login_manager();
    let mut session = SessionState::new();
    session.state = ConnectionState::Play;
    let mut packets = vec![
        RawPacket::new(0x02, login_success_frame_body()),
        RawPacket::new(0x03, vec![0x10]),
        login_play_packet(),
        RawPacket::new(0x00, vec![]),
    ];
    for p in packets.drain(..) {
        let _ = m.handle(&mut session, p);
        assert_eq!(session.state, ConnectionState::Play);
    }
}

#[test]
fn fallback_handler_takes_unbound_ids() {
    let mut m = PacketHandlerManager::new();
    m.register_fallback(PacketHandler::SetCompression);
    let mut session = SessionState::new();
    session.state = ConnectionState::Login;
    assert_eq!(m.handle(&mut session, RawPacket::new(0x77, vec![0x05])), Ok(()));
    assert_eq!(session.compression_threshold, 5);
    assert_eq!(PacketHandler::LoginPlay.id(), 0x25);
}

#[test]
fn keep_alive_echo() {
    let packet = RawPacket::new(0x20, vec![0, 0, 0, 0, 0, 0, 0, 0x2A]);
    let reply = KeepAliveHandler.handle(ConnectionState::Play, &packet).unwrap();
    assert_eq!(reply.id, 0x12);
    assert_eq!(reply.data, vec![0, 0, 0, 0, 0, 0, 0, 0x2A]);
    assert!(KeepAliveHandler.handle(ConnectionState::Login, &packet).is_none());
    assert_eq!(KeepAliveHandler.ids(), vec![0x20]);
}

#[test]
fn one_shot_subscriber_fires_once() {
    let mut d: ClientEventDispatcher<u8> = ClientEventDispatcher::new();
    let f1 = d.register_handler_once(SPAWN_EVENT).unwrap();
    let f2 = d.register_handler(SPAWN_EVENT).unwrap();
    let other = d.register_handler(DEATH_EVENT).unwrap();
    d.queue(SPAWN_EVENT, 1);
    d.queue(SPAWN_EVENT, 2);
    let mut calls = vec![];
    for (tag, _event) in d.drain_queue() {
        calls.extend(d.dispatch(tag));
    }
    assert_eq!(calls.iter().filter(|&&c| c == f1).count(), 1);
    assert_eq!(calls.iter().filter(|&&c| c == f2).count(), 2);
    assert_eq!(calls.iter().filter(|&&c| c == other).count(), 0);
    assert!(d.drain_queue().is_empty());
}

#[test]
fn dispatch_order_and_repeated_dispatches() {
    let mut d: ClientEventDispatcher<()> = ClientEventDispatcher::new();
    let a = d.register_handler(DEATH_EVENT).unwrap();
    let b = d.register_handler_once(DEATH_EVENT).unwrap();
    let c = d.register_handler(DEATH_EVENT).unwrap();
    assert_eq!(d.dispatch(DEATH_EVENT), vec![a, c, b]);
    assert_eq!(d.dispatch(DEATH_EVENT), vec![a, c]);
    let e = d.register_handler_once(DEATH_EVENT).unwrap();
    assert!(e > c);
    assert_eq!(d.dispatch(DEATH_EVENT), vec![a, c, e]);
    assert_eq!(d.dispatch(DEATH_EVENT), vec![a, c]);
}

#[test]
fn death_handler_reads_in_play_only() {
    let mut p = RawPacket::empty(0x36);
    p.write_varint(3);
    p.write_int(9);
    p.write_string("slain");
    let d = DeathHandler.handle(ConnectionState::Play, &p).unwrap();
    assert_eq!(d.message, "slain");
    assert!(DeathHandler.handle(ConnectionState::Login, &p).is_none());
}

#[test]
fn player_and_system_chat() {
    let mut p = RawPacket::empty(0x33);
    p.write_bool(true);
    p.write_varint(2);
    p.write_bytes(vec![0xAB, 0xCD]);
    p.write_ulong(1);
    p.write_ulong(2);
    p.write_varint(1);
    p.write_byte(0);
    p.write_string("{\"text\":\"hello\",\"bold\":true}");
    p.write_bytes(vec![1, 2, 3]);
    match ChatHandler.handle(ConnectionState::Play, &p) {
        Some(ChatReceived::Player(sender, json)) => {
            assert_eq!(sender, (1u128 << 64) | 2);
            assert_eq!(json, "{\"text\":\"hello\",\"bold\":true}");
        }
        other => panic!("unexpected {:?}", other),
    }
    let mut s = RawPacket::empty(0x62);
    s.write_string("{\"text\":\"hi\"}");
    match ChatHandler.handle(ConnectionState::Play, &s) {
        Some(ChatReceived::System(json)) => assert_eq!(json, "{\"text\":\"hi\"}"),
        other => panic!("unexpected {:?}", other),
    }
    assert!(ChatHandler.handle(ConnectionState::Login, &s).is_none());
    assert!(ChatHandler.handle(ConnectionState::Play, &RawPacket::new(0x33, vec![0])).is_none());
    assert_eq!(ChatHandler.ids(), vec![0x33, 0x62]);
}

#[test]
fn formatted_messages_and_defaults() {
    let m = FormattedChatMessage::from_plain("x".to_string());
    assert_eq!(m.text, "x");
    assert!(!m.bold && m.extra.is_empty());
    assert_eq!(m.color, default_color());
    assert_eq!(default_font(), "minecraft:uniform");
    assert_eq!(default_color(), "minecraft:white");
    let player = ChatMessage::from_player(9, FormattedChatMessage::from_plain("hey".to_string()));
    assert_eq!(player.source, ChatMessageSource::Player(9));
    assert_eq!(player.plain_message, "hey");
    let sys = ChatMessage::from_system(FormattedChatMessage::from_plain("note".to_string()));
    assert_eq!(sys.source, ChatMessageSource::System);
    assert_eq!(sys.plain_message, "note");
    let c = ClientConfig::default();
    assert_eq!((c.username.as_str(), c.host.as_str(), c.port), ("miners_client", "localhost", 25565));
    assert_eq!(LoginConfig::default().port, 25565);
}

#[test]
fn client_packets_bytes() {
    let r = ClientCommandAction::PerformRespawn.into_packet(760).unwrap();
    assert_eq!((r.id, r.data), (0x07, vec![0x00]));
    let s = ClientCommandAction::RequestStats.into_packet(760).unwrap();
    assert_eq!(s.data, vec![0x01]);
    let chat = ChatMessagePacket { message: "hi".to_string(), timestamp: 1 }.into_packet(760).unwrap();
    assert_eq!(chat.id, 0x05);
    assert_eq!(
        chat.data,
        vec![2, b'h', b'i', 0, 0, 0, 0, 0, 0, 0, 1, 0, 0, 0, 0, 0, 0, 0, 0, 0, 0, 0, 0]
    );
}

#[test]
fn client_handler_registry_keeps_order_per_id() {
    let mut r = ClientHandlerRegistry::new();
    r.register(&vec![0x33, 0x62], 0);
    r.register(&vec![0x20], 1);
    r.register(&vec![0x33], 2);
    assert_eq!(r.handlers(0x33), vec![0, 2]);
    assert_eq!(r.handlers(0x62), vec![0]);
    assert_eq!(r.handlers(0x20), vec![1]);
    assert!(r.handlers(0x99).is_empty());
}

#[test]
fn status_carries_the_protocol_version() {
    let s = StatusResponse {
        version: Version { name: "1.19.2".to_string(), protocol: 760 },
        players: Players { max: 20, online: 0, sample: None },
        description: Description { text: "motd".to_string() },
        favicon: None,
        enforces_secure_chat: Some(false),
    };
    assert_eq!(s.protocol_version(), 760);
}

#[test]
fn handshake_selects_the_next_state() {
    let mut login = SessionState::new();
    login.handshake(760, 2);
    assert_eq!((login.state, login.protocol_version), (ConnectionState::Login, 760));
    let mut status = SessionState::new();
    status.handshake(760, 1);
    assert_eq!(status.state, ConnectionState::Status);
    let mut other = SessionState::new();
    other.handshake(5, 9);
    assert_eq!((other.state, other.protocol_version), (ConnectionState::Handshake, 5));
}
