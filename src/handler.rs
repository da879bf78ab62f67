//! The connection state machine and the protocol-phase handlers that drive
//! it during login: SetCompression, LoginSuccess and LoginPlay.
use vstd::prelude::*;
use vstd::string::StringExecFns;
use crate::packet::RawPacket;
use crate::packets::{parse_login_play, parse_login_success, LoginPlayPacket, LoginSuccessPacket};
use crate::varint::parse_varint;

verus! {

/// The protocol state of a connection.
#[derive(Debug, Clone, Copy, PartialEq, Eq, Structural)]
pub enum ConnectionState {
    Handshake,
    Status,
    Login,
    Play,
}

/// What a client needs to connect.
#[derive(Debug, Clone)]
pub struct LoginConfig {
    pub username: String,
    pub host: String,
    pub port: u16,
}

impl LoginConfig {
    /// User name "miners_client" on localhost:25565.
    pub fn default() -> (r: LoginConfig)
        ensures
            r.username@ == "miners_client"@,
            r.host@ == "localhost"@,
            r.port == 25565,
    {
        LoginConfig {
            username: String::from_str("miners_client"),
            host: String::from_str("localhost"),
            port: 25565,
        }
    }
}

/// The protocol state a socket carries besides its stream.
#[derive(Debug, Clone, Copy, PartialEq, Eq, Structural)]
pub struct SessionState {
    /// Frames are compressed once this is positive.
    pub compression_threshold: i32,
    pub state: ConnectionState,
    pub protocol_version: i32,
    pub uuid: u128,
}

impl SessionState {
    /// A fresh connection: Handshake state, no compression, unknown protocol.
    pub fn new() -> (r: SessionState)
        ensures
            r.compression_threshold == -1,
            r.state == ConnectionState::Handshake,
            r.protocol_version == -1,
            r.uuid == 0,
    {
        SessionState {
            compression_threshold: -1,
            state: ConnectionState::Handshake,
            protocol_version: -1,
            uuid: 0,
        }
    }
}

impl SessionState {
    /// Records a handshake: the protocol version it carries, and the state its
    /// next-state field selects (1 Status, 2 Login; any other value leaves
    /// the state as it was).
    pub fn handshake(&mut self, protocol_version: i32, next_state: i32)
        requires
            old(self).state == ConnectionState::Handshake,
        ensures
            final(self).protocol_version == protocol_version,
            final(self).state == if next_state == 1 {
                ConnectionState::Status
            } else if next_state == 2 {
                ConnectionState::Login
            } else {
                ConnectionState::Handshake
            },
            final(self).compression_threshold == old(self).compression_threshold,
            final(self).uuid == old(self).uuid,
    {
        self.protocol_version = protocol_version;
        if next_state == 1 {
            self.state = ConnectionState::Status;
        } else if next_state == 2 {
            self.state = ConnectionState::Login;
        }
    }
}

/// Why a handler did not complete.
#[derive(Debug, Clone, PartialEq, Eq)]
pub enum HandlerError {
    /// The packet arrived in a state that does not allow it.
    BadState,
    /// Not a failure: the handler asks the handling loop to stop.
    ExitRequested,
    /// The packet body is malformed.
    Decode,
    /// No handler is bound to the packet's id and there is no fallback.
    NoFallback,
    IOError(String),
}

/// A protocol-phase handler.
#[derive(Debug, Clone, Copy, PartialEq, Eq, Structural)]
pub enum PacketHandler {
    SetCompression,
    LoginSuccess,
    LoginPlay,
}

/// Sets the compression threshold (id 0x03).
pub struct SetCompressionHandler;

/// Records the UUID and enters Play (id 0x02).
pub struct LoginSuccessHandler;

/// Ends the login once the join-game packet arrives (id 0x25).
pub struct LoginPlayHandler;

pub const SET_COMPRESSION_ID: i32 = 0x03;
pub const LOGIN_SUCCESS_ID: i32 = 0x02;
pub const LOGIN_PLAY_ID: i32 = 0x25;

/// The packet id a handler is bound to.
pub open spec fn handler_id(h: PacketHandler) -> i32 {
    match h {
        PacketHandler::SetCompression => SET_COMPRESSION_ID,
        PacketHandler::LoginSuccess => LOGIN_SUCCESS_ID,
        PacketHandler::LoginPlay => LOGIN_PLAY_ID,
    }
}

/// What a handler does to the session with a packet body.
pub open spec fn handler_step(h: PacketHandler, st: SessionState, body: Seq<u8>) -> (
    SessionState,
    Result<(), HandlerError>,
) {
    match h {
        PacketHandler::SetCompression => if st.state != ConnectionState::Login {
            (st, Err(HandlerError::BadState))
        } else {
            match parse_varint(body) {
                Some((t, _)) => (SessionState { compression_threshold: t, ..st }, Ok(())),
                None => (st, Err(HandlerError::Decode)),
            }
        },
        PacketHandler::LoginSuccess => if st.state != ConnectionState::Login {
            (st, Err(HandlerError::BadState))
        } else {
            match parse_login_success(body) {
                Some((uuid, _, _)) => (
                    SessionState { state: ConnectionState::Play, uuid, ..st },
                    Ok(()),
                ),
                None => (st, Err(HandlerError::Decode)),
            }
        },
        PacketHandler::LoginPlay => if st.state != ConnectionState::Play {
            (st, Err(HandlerError::BadState))
        } else {
            match parse_login_play(body) {
                Some(_) => (st, Err(HandlerError::ExitRequested)),
                None => (st, Err(HandlerError::Decode)),
            }
        },
    }
}

impl PacketHandler {
    pub fn id(&self) -> (r: i32)
        ensures
            r == handler_id(*self),
    {
        match self {
            PacketHandler::SetCompression => SET_COMPRESSION_ID,
            PacketHandler::LoginSuccess => LOGIN_SUCCESS_ID,
            PacketHandler::LoginPlay => LOGIN_PLAY_ID,
        }
    }

    /// Applies the handler to the session.
    pub fn handle(&self, connection: &mut SessionState, packet: RawPacket) -> (r: Result<
        (),
        HandlerError,
    >)
        ensures
            (*final(connection), r) == handler_step(*self, *old(connection), packet.data@),
    {
        match self {
            PacketHandler::SetCompression => SetCompressionHandler.handle(connection, packet),
            PacketHandler::LoginSuccess => LoginSuccessHandler.handle(connection, packet),
            PacketHandler::LoginPlay => LoginPlayHandler.handle(connection, packet),
        }
    }
}

impl SetCompressionHandler {
    pub fn id(&self) -> (r: i32)
        ensures
            r == SET_COMPRESSION_ID,
    {
        SET_COMPRESSION_ID
    }

    /// In Login, sets the threshold to the VarInt body.
    pub fn handle(&self, connection: &mut SessionState, packet: RawPacket) -> (r: Result<
        (),
        HandlerError,
    >)
        ensures
            (*final(connection), r) == handler_step(
                PacketHandler::SetCompression,
                *old(connection),
                packet.data@,
            ),
    {
        if connection.state != ConnectionState::Login {
            return Err(HandlerError::BadState);
        }
        let mut packet = packet;
        match packet.try_read_varint() {
            Some(t) => {
                connection.compression_threshold = t;
                Ok(())
            },
            None => Err(HandlerError::Decode),
        }
    }
}

impl LoginSuccessHandler {
    pub fn id(&self) -> (r: i32)
        ensures
            r == LOGIN_SUCCESS_ID,
    {
        LOGIN_SUCCESS_ID
    }

    /// In Login, records the UUID and enters Play.
    pub fn handle(&self, connection: &mut SessionState, packet: RawPacket) -> (r: Result<
        (),
        HandlerError,
    >)
        ensures
            (*final(connection), r) == handler_step(
                PacketHandler::LoginSuccess,
                *old(connection),
                packet.data@,
            ),
    {
        if connection.state != ConnectionState::Login {
            return Err(HandlerError::BadState);
        }
        match LoginSuccessPacket::decode(packet) {
            Some(p) => {
                connection.state = ConnectionState::Play;
                connection.uuid = p.uuid;
                Ok(())
            },
            None => Err(HandlerError::Decode),
        }
    }
}

impl LoginPlayHandler {
    pub fn id(&self) -> (r: i32)
        ensures
            r == LOGIN_PLAY_ID,
    {
        LOGIN_PLAY_ID
    }

    /// In Play, decodes the join-game packet and asks the loop to stop.
    pub fn handle(&self, connection: &mut SessionState, packet: RawPacket) -> (r: Result<
        (),
        HandlerError,
    >)
        ensures
            (*final(connection), r) == handler_step(
                PacketHandler::LoginPlay,
                *old(connection),
                packet.data@,
            ),
    {
        if connection.state != ConnectionState::Play {
            return Err(HandlerError::BadState);
        }
        match LoginPlayPacket::decode(packet) {
            Some(_) => Err(HandlerError::ExitRequested),
            None => Err(HandlerError::Decode),
        }
    }
}

/// The handler bound to `id`: the last one registered for it.
pub open spec fn bound_handler(handlers: Seq<PacketHandler>, id: i32) -> Option<PacketHandler>
    decreases handlers.len(),
{
    if handlers.len() == 0 {
        None
    } else if handler_id(handlers.last()) == id {
        Some(handlers.last())
    } else {
        bound_handler(handlers.drop_last(), id)
    }
}

/// What the registry does with a packet: its bound handler, else the fallback.
pub open spec fn registry_step(
    handlers: Seq<PacketHandler>,
    fallback: Option<PacketHandler>,
    st: SessionState,
    id: i32,
    body: Seq<u8>,
) -> (SessionState, Result<(), HandlerError>) {
    match bound_handler(handlers, id) {
        Some(h) => handler_step(h, st, body),
        None => match fallback {
            Some(h) => handler_step(h, st, body),
            None => (st, Err(HandlerError::NoFallback)),
        },
    }
}

/// The session after the registry has seen each packet of `packets` in turn
/// (failed packets leave it as it was).
pub open spec fn registry_run(
    handlers: Seq<PacketHandler>,
    fallback: Option<PacketHandler>,
    st: SessionState,
    packets: Seq<(i32, Seq<u8>)>,
) -> SessionState
    decreases packets.len(),
{
    if packets.len() == 0 {
        st
    } else {
        let next = registry_step(handlers, fallback, st, packets[0].0, packets[0].1).0;
        registry_run(handlers, fallback, next, packets.drop_first())
    }
}

/// No handler leaves a failed packet's mark on the session, and none moves
/// a connection out of Play.
pub proof fn lemma_handler_keeps_play(h: PacketHandler, st: SessionState, body: Seq<u8>)
    ensures
        st.state == ConnectionState::Play ==> handler_step(h, st, body).0.state
            == ConnectionState::Play,
        handler_step(h, st, body).1 is Err ==> handler_step(h, st, body).0 == st,
{
}

/// Once in Play, no sequence of received packets moves the connection out of
/// Play.
pub proof fn lemma_play_is_final(
    handlers: Seq<PacketHandler>,
    fallback: Option<PacketHandler>,
    st: SessionState,
    packets: Seq<(i32, Seq<u8>)>,
)
    requires
        st.state == ConnectionState::Play,
    ensures
        registry_run(handlers, fallback, st, packets).state == ConnectionState::Play,
    decreases packets.len(),
{
    if packets.len() > 0 {
        let next = registry_step(handlers, fallback, st, packets[0].0, packets[0].1).0;
        match bound_handler(handlers, packets[0].0) {
            Some(h) => lemma_handler_keeps_play(h, st, packets[0].1),
            None => match fallback {
                Some(h) => lemma_handler_keeps_play(h, st, packets[0].1),
                None => {},
            },
        }
        lemma_play_is_final(handlers, fallback, next, packets.drop_first());
    }
}

/// Maps packet ids to protocol-phase handlers, with an optional fallback.
pub struct PacketHandlerManager {
    handlers: Vec<PacketHandler>,
    fallback_handler: Option<PacketHandler>,
}

impl PacketHandlerManager {
    pub closed spec fn handlers(&self) -> Seq<PacketHandler> {
        self.handlers@
    }

    pub closed spec fn fallback(&self) -> Option<PacketHandler> {
        self.fallback_handler
    }

    /// No handlers and no fallback.
    pub fn new() -> (r: PacketHandlerManager)
        ensures
            forall|id: i32| bound_handler(r.handlers(), id) is None,
            r.fallback() is None,
    {
        PacketHandlerManager { handlers: Vec::new(), fallback_handler: None }
    }

    /// Binds `handler` to its id, replacing any earlier binding of that id.
    pub fn register(&mut self, handler: PacketHandler)
        ensures
            forall|id: i32|
                bound_handler(final(self).handlers(), id) == if id == handler_id(handler) {
                    Some(handler)
                } else {
                    bound_handler(old(self).handlers(), id)
                },
            final(self).fallback() == old(self).fallback(),
    {
        let ghost before = self.handlers@;
        self.handlers.push(handler);
        assert(self.handlers@.drop_last() =~= before);
    }

    /// Removes every binding (the fallback stays).
    pub fn unregister_all(&mut self)
        ensures
            forall|id: i32| bound_handler(final(self).handlers(), id) is None,
            final(self).fallback() == old(self).fallback(),
    {
        self.handlers.clear();
    }

    /// Sets the handler for packets with no binding.
    pub fn register_fallback(&mut self, handler: PacketHandler)
        ensures
            final(self).handlers() == old(self).handlers(),
            final(self).fallback() == Some(handler),
    {
        self.fallback_handler = Some(handler);
    }

    fn lookup(&self, id: i32) -> (r: Option<PacketHandler>)
        ensures
            r == bound_handler(self.handlers(), id),
    {
        let mut i: usize = self.handlers.len();
        assert(self.handlers@.take(i as int) =~= self.handlers@);
        while i > 0
            invariant
                i <= self.handlers@.len(),
                bound_handler(self.handlers@, id) == bound_handler(
                    self.handlers@.take(i as int),
                    id,
                ),
            decreases i,
        {
            let ghost t = self.handlers@.take(i as int);
            assert(t.drop_last() =~= self.handlers@.take(i - 1));
            if self.handlers[i - 1].id() == id {
                return Some(self.handlers[i - 1]);
            }
            i = i - 1;
        }
        assert(self.handlers@.take(0) =~= Seq::<PacketHandler>::empty());
        None
    }

    /// Hands the packet to its bound handler, else to the fallback.
    pub fn handle(&self, connection: &mut SessionState, packet: RawPacket) -> (r: Result<
        (),
        HandlerError,
    >)
        ensures
            (*final(connection), r) == registry_step(
                self.handlers(),
                self.fallback(),
                *old(connection),
                packet.id,
                packet.data@,
            ),
    {
        match self.lookup(packet.id) {
            Some(h) => h.handle(connection, packet),
            None => match self.fallback_handler {
                Some(h) => h.handle(connection, packet),
                None => Err(HandlerError::NoFallback),
            },
        }
    }
}

} // verus!
