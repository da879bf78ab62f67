//! Client-level packet handlers (keep-alive, death, chat), chat messages, and
//! the packets a client sends in Play.
use vstd::prelude::*;
use vstd::string::StringExecFns;
use crate::events::{ClientEvent, CHAT_MESSAGE_EVENT};
use crate::handler::ConnectionState;
use crate::packet::{IntoPacket, RawPacket};
use crate::packets::fits_string;
use crate::packets::fits_varint_length;
use crate::varint::{parse_varint, varint_bytes};
use crate::wire::{be64_bytes, parse_bytes, parse_string, parse_u32, parse_u8, parse_uuid, string_bytes};

verus! {

/// What a client connects with.
#[derive(Debug, Clone)]
pub struct ClientConfig {
    pub username: String,
    pub host: String,
    pub port: u16,
}

impl ClientConfig {
    /// User name "miners_client" on localhost:25565.
    pub fn default() -> (r: ClientConfig)
        ensures
            r.username@ == "miners_client"@,
            r.host@ == "localhost"@,
            r.port == 25565,
    {
        ClientConfig {
            username: String::from_str("miners_client"),
            host: String::from_str("localhost"),
            port: 25565,
        }
    }
}

pub const KEEP_ALIVE_IN_ID: i32 = 0x20;
pub const KEEP_ALIVE_OUT_ID: i32 = 0x12;
pub const DEATH_ID: i32 = 0x36;
pub const PLAYER_CHAT_ID: i32 = 0x33;
pub const SYSTEM_CHAT_ID: i32 = 0x62;

/// Answers keep-alive packets with the same body.
#[derive(Debug, Clone, Copy)]
pub struct KeepAliveHandler;

impl KeepAliveHandler {
    /// The ids this handler takes.
    pub fn ids(&self) -> (r: Vec<i32>)
        ensures
            r@ == seq![KEEP_ALIVE_IN_ID],
    {
        let mut v: Vec<i32> = Vec::new();
        v.push(KEEP_ALIVE_IN_ID);
        v
    }

    /// In Play, the reply to send: the same body under the outbound id.
    pub fn handle(&self, state: ConnectionState, packet: &RawPacket) -> (r: Option<RawPacket>)
        ensures
            state == ConnectionState::Play ==> (r matches Some(p) && p.id == KEEP_ALIVE_OUT_ID
                && p.data@ == packet.data@),
            state != ConnectionState::Play ==> r is None,
    {
        if state != ConnectionState::Play {
            return None;
        }
        let mut reply = packet.copy();
        reply.id = KEEP_ALIVE_OUT_ID;
        Some(reply)
    }
}

/// The death packet: player id, killer id and message.
#[derive(Debug, Clone)]
pub struct DeathPacket {
    pub id: i32,
    pub killer: i32,
    pub message: String,
}

pub open spec fn parse_death(s: Seq<u8>) -> Option<(i32, i32, Seq<char>)> {
    match parse_varint(s) {
        Some((id, r1)) => match parse_u32(r1) {
            Some((killer, r2)) => match parse_string(r2) {
                Some((message, _)) => Some((id, killer as i32, message)),
                None => None,
            },
            None => None,
        },
        None => None,
    }
}

impl DeathPacket {
    /// Decodes a death body; `None` when it is malformed.
    pub fn decode(packet: RawPacket) -> (r: Option<DeathPacket>)
        ensures
            match parse_death(packet.data@) {
                Some((id, killer, message)) => r matches Some(p) && p.id == id && p.killer == killer
                    && p.message@ == message,
                None => r is None,
            },
    {
        let mut packet = packet;
        let id = match packet.try_read_varint() {
            Some(v) => v,
            None => return None,
        };
        let killer = match packet.try_read_uint() {
            Some(v) => v as i32,
            None => return None,
        };
        let message = match packet.try_read_string() {
            Some(t) => t,
            None => return None,
        };
        Some(DeathPacket { id, killer, message })
    }
}

/// Reports deaths.
#[derive(Debug, Clone, Copy)]
pub struct DeathHandler;

impl DeathHandler {
    pub fn ids(&self) -> (r: Vec<i32>)
        ensures
            r@ == seq![DEATH_ID],
    {
        let mut v: Vec<i32> = Vec::new();
        v.push(DEATH_ID);
        v
    }

    /// In Play, the decoded death packet (its event is then emitted).
    pub fn handle(&self, state: ConnectionState, packet: &RawPacket) -> (r: Option<DeathPacket>)
        ensures
            state != ConnectionState::Play ==> r is None,
            state == ConnectionState::Play ==> match parse_death(packet.data@) {
                Some((id, killer, message)) => r matches Some(p) && p.id == id && p.killer
                    == killer && p.message@ == message,
                None => r is None,
            },
    {
        if state != ConnectionState::Play {
            return None;
        }
        DeathPacket::decode(packet.copy())
    }
}

pub open spec fn default_font_text() -> Seq<char> {
    "minecraft:uniform"@
}

pub open spec fn default_color_text() -> Seq<char> {
    "minecraft:white"@
}

/// The font of a chat component that names none.
pub fn default_font() -> (r: String)
    ensures
        r@ == default_font_text(),
{
    String::from_str("minecraft:uniform")
}

/// The color of a chat component that names none.
pub fn default_color() -> (r: String)
    ensures
        r@ == default_color_text(),
{
    String::from_str("minecraft:white")
}

/// A formatted chat component (the shape `/tellraw` takes).
#[derive(Debug)]
pub struct FormattedChatMessage {
    pub text: String,
    pub bold: bool,
    pub italic: bool,
    pub underlined: bool,
    pub strikethrough: bool,
    pub obfuscated: bool,
    pub font: String,
    pub color: String,
    pub extra: Vec<FormattedChatMessage>,
}

/// Whether `m` has no styling, the default font and color, and no children.
pub open spec fn is_plain(m: FormattedChatMessage) -> bool {
    &&& !m.bold && !m.italic && !m.underlined && !m.strikethrough && !m.obfuscated
    &&& m.font@ == default_font_text()
    &&& m.color@ == default_color_text()
    &&& m.extra@.len() == 0
}

impl FormattedChatMessage {
    /// Empty text with no styling.
    pub fn default() -> (r: FormattedChatMessage)
        ensures
            r.text@ == Seq::<char>::empty(),
            is_plain(r),
    {
        FormattedChatMessage {
            text: String::new(),
            bold: false,
            italic: false,
            underlined: false,
            strikethrough: false,
            obfuscated: false,
            font: default_font(),
            color: default_color(),
            extra: Vec::new(),
        }
    }

    /// `text` with no styling.
    pub fn from_plain(text: String) -> (r: FormattedChatMessage)
        ensures
            r.text@ == text@,
            is_plain(r),
    {
        FormattedChatMessage { text, ..FormattedChatMessage::default() }
    }
}

/// Who sent a chat message.
#[derive(Debug, Clone, Copy, PartialEq, Eq, Structural)]
pub enum ChatMessageSource {
    Player(u128),
    System,
}

/// A chat message with its sender, formatted and plain.
#[derive(Debug)]
pub struct ChatMessage {
    pub source: ChatMessageSource,
    pub message: FormattedChatMessage,
    pub plain_message: String,
}

impl ChatMessage {
    /// A player's message; its plain text is the component's text.
    pub fn from_player(sender: u128, message: FormattedChatMessage) -> (r: ChatMessage)
        ensures
            r.source == ChatMessageSource::Player(sender),
            r.plain_message@ == message.text@,
            r.message == message,
    {
        let plain_message = message.text.clone();
        ChatMessage { source: ChatMessageSource::Player(sender), message, plain_message }
    }

    /// A system message; its plain text is the component's text.
    pub fn from_system(message: FormattedChatMessage) -> (r: ChatMessage)
        ensures
            r.source == ChatMessageSource::System,
            r.plain_message@ == message.text@,
            r.message == message,
    {
        let plain_message = message.text.clone();
        ChatMessage { source: ChatMessageSource::System, message, plain_message }
    }
}

/// Emitted when a chat message arrives.
#[derive(Debug)]
pub struct ChatMessageEvent {
    pub message: ChatMessage,
}

impl ClientEvent for ChatMessageEvent {
    fn event_tag() -> u32 {
        CHAT_MESSAGE_EVENT
    }
}

/// A VarInt length that is not negative, then that many bytes.
pub open spec fn parse_skipped(s: Seq<u8>) -> Option<Seq<u8>> {
    match parse_varint(s) {
        Some((n, r)) => if n < 0 {
            None
        } else {
            match parse_bytes(r, n as int) {
                Some((_, r2)) => Some(r2),
                None => None,
            }
        },
        None => None,
    }
}

/// A player chat body: optional signature, sender, header signature, message.
pub open spec fn parse_player_chat(s: Seq<u8>) -> Option<(u128, Seq<char>)> {
    match parse_u8(s) {
        Some((has_sig, r1)) => {
            let r2 = if has_sig == 1 {
                parse_skipped(r1)
            } else {
                Some(r1)
            };
            match r2 {
                Some(r2) => match parse_uuid(r2) {
                    Some((sender, r3)) => match parse_skipped(r3) {
                        Some(r4) => match parse_string(r4) {
                            Some((message, _)) => Some((sender, message)),
                            None => None,
                        },
                        None => None,
                    },
                    None => None,
                },
                None => None,
            }
        },
        None => None,
    }
}

/// What a chat packet carries.
#[derive(Debug)]
pub enum ChatReceived {
    /// A player's message: the sender and the JSON text component, still to
    /// be parsed.
    Player(u128, String),
    /// A system message: its JSON text component, still to be parsed.
    System(String),
}

fn skip_prefixed(packet: &mut RawPacket) -> (r: bool)
    ensures
        final(packet).id == old(packet).id,
        match parse_skipped(old(packet).data@) {
            Some(rest) => r && final(packet).data@ == rest,
            None => !r,
        },
{
    let n = match packet.try_read_varint() {
        Some(n) => n,
        None => return false,
    };
    if n < 0 {
        return false;
    }
    match packet.try_read_bytes(n as u32 as usize) {
        Some(_) => true,
        None => false,
    }
}

/// Reads player (0x33) and system (0x62) chat messages.
#[derive(Debug, Clone, Copy)]
pub struct ChatHandler;

impl ChatHandler {
    pub fn ids(&self) -> (r: Vec<i32>)
        ensures
            r@ == seq![PLAYER_CHAT_ID, SYSTEM_CHAT_ID],
    {
        let mut v: Vec<i32> = Vec::new();
        v.push(PLAYER_CHAT_ID);
        v.push(SYSTEM_CHAT_ID);
        v
    }

    /// In Play: the sender and JSON component of a player message (id 0x33),
    /// or the JSON component of any other chat packet.
    pub fn handle(&self, state: ConnectionState, packet: &RawPacket) -> (r: Option<ChatReceived>)
        ensures
            state != ConnectionState::Play ==> r is None,
            state == ConnectionState::Play && packet.id == PLAYER_CHAT_ID ==> match parse_player_chat(
                packet.data@,
            ) {
                Some((sender, json)) => r matches Some(ChatReceived::Player(u, t)) && u == sender
                    && t@ == json,
                None => r is None,
            },
            state == ConnectionState::Play && packet.id != PLAYER_CHAT_ID ==> match parse_string(
                packet.data@,
            ) {
                Some((json, _)) => r matches Some(ChatReceived::System(t)) && t@ == json,
                None => r is None,
            },
    {
        if state != ConnectionState::Play {
            return None;
        }
        let mut p = packet.copy();
        if p.id == PLAYER_CHAT_ID {
            let has_sig = match p.try_read_byte() {
                Some(b) => b,
                None => return None,
            };
            if has_sig == 1 {
                if !skip_prefixed(&mut p) {
                    return None;
                }
            }
            let sender = match p.try_read_uuid() {
                Some(u) => u,
                None => return None,
            };
            if !skip_prefixed(&mut p) {
                return None;
            }
            let message = match p.try_read_string() {
                Some(t) => t,
                None => return None,
            };
            Some(ChatReceived::Player(sender, message))
        } else {
            match p.try_read_string() {
                Some(t) => Some(ChatReceived::System(t)),
                None => None,
            }
        }
    }
}

/// The client command packet (0x07).
#[derive(Debug, Clone, Copy, PartialEq, Eq, Structural)]
pub enum ClientCommandAction {
    PerformRespawn,
    RequestStats,
}

pub const CLIENT_COMMAND_ID: i32 = 0x07;
pub const CLIENT_CHAT_ID: i32 = 0x05;

/// The action's number on the wire.
pub open spec fn action_code(a: ClientCommandAction) -> i32 {
    match a {
        ClientCommandAction::PerformRespawn => 0i32,
        ClientCommandAction::RequestStats => 1i32,
    }
}

impl ClientCommandAction {
    /// The action's number on the wire.
    pub fn code(&self) -> (r: i32)
        ensures
            r == action_code(*self),
    {
        match self {
            ClientCommandAction::PerformRespawn => 0,
            ClientCommandAction::RequestStats => 1,
        }
    }

    /// The packet: the action as a VarInt.
    pub fn to_packet(&self) -> (r: RawPacket)
        ensures
            r.id == CLIENT_COMMAND_ID,
            r.data@ == varint_bytes(action_code(*self)),
    {
        let mut p = RawPacket::empty(CLIENT_COMMAND_ID);
        p.write_varint(self.code());
        assert(p.data@ =~= varint_bytes(action_code(*self)));
        p
    }
}

impl IntoPacket for ClientCommandAction {
    open spec fn fits(&self) -> bool {
        true
    }

    open spec fn packet_of(&self, protocol_version: i32) -> (i32, Seq<u8>) {
        (CLIENT_COMMAND_ID, varint_bytes(action_code(*self)))
    }

    fn into_packet(self, protocol_version: i32) -> (r: Option<RawPacket>) {
        Some(self.to_packet())
    }
}

/// The unsigned chat packet a client sends (0x05).
#[derive(Debug, Clone)]
pub struct ChatMessagePacket {
    pub message: String,
    pub timestamp: u64,
}

impl ChatMessagePacket {
    /// The packet: message, timestamp, salt 0, no signature, no preview, no
    /// previous messages, no last message.
    pub fn to_packet(&self) -> (r: RawPacket)
        requires
            fits_string(self.message@),
        ensures
            r.id == CLIENT_CHAT_ID,
            r.data@ == string_bytes(self.message@) + be64_bytes(self.timestamp) + be64_bytes(0)
                + varint_bytes(0) + seq![0u8] + varint_bytes(0) + seq![0u8],
    {
        let mut p = RawPacket::empty(CLIENT_CHAT_ID);
        p.write_string(self.message.as_str());
        p.write_ulong(self.timestamp);
        p.write_long(0);
        p.write_varint(0);
        p.write_bool(false);
        p.write_varint(0);
        p.write_bool(false);
        assert(p.data@ =~= string_bytes(self.message@) + be64_bytes(self.timestamp) + be64_bytes(0)
            + varint_bytes(0) + seq![0u8] + varint_bytes(0) + seq![0u8]);
        p
    }
}

impl IntoPacket for ChatMessagePacket {
    open spec fn fits(&self) -> bool {
        fits_string(self.message@)
    }

    open spec fn packet_of(&self, protocol_version: i32) -> (i32, Seq<u8>) {
        (
            CLIENT_CHAT_ID,
            string_bytes(self.message@) + be64_bytes(self.timestamp) + be64_bytes(0)
                + varint_bytes(0) + seq![0u8] + varint_bytes(0) + seq![0u8],
        )
    }

    fn into_packet(self, protocol_version: i32) -> (r: Option<RawPacket>) {
        if !fits_varint_length(self.message.as_str()) {
            return None;
        }
        Some(self.to_packet())
    }
}

/// The handlers registered for `id`, in registration order.
pub open spec fn handlers_for(entries: Seq<(i32, u64)>, id: i32) -> Seq<u64>
    decreases entries.len(),
{
    if entries.len() == 0 {
        Seq::empty()
    } else if entries.last().0 == id {
        handlers_for(entries.drop_last(), id).push(entries.last().1)
    } else {
        handlers_for(entries.drop_last(), id)
    }
}

/// Maps packet ids to client handlers (known by a number the caller keeps);
/// one handler may serve several ids.
pub struct ClientHandlerRegistry {
    entries: Vec<(i32, u64)>,
}

impl ClientHandlerRegistry {
    pub closed spec fn entries(&self) -> Seq<(i32, u64)> {
        self.entries@
    }

    pub fn new() -> (r: ClientHandlerRegistry)
        ensures
            forall|id: i32| handlers_for(r.entries(), id) == Seq::<u64>::empty(),
    {
        ClientHandlerRegistry { entries: Vec::new() }
    }

    /// Registers `handler` for each id of `ids`, after the handlers already
    /// there.
    pub fn register(&mut self, ids: &Vec<i32>, handler: u64)
        ensures
            forall|id: i32|
                #[trigger] handlers_for(final(self).entries(), id) == handlers_for(
                    old(self).entries(),
                    id,
                ) + handlers_for(ids@.map_values(|i: i32| (i, handler)), id),
    {
        let ghost added = ids@.map_values(|i: i32| (i, handler));
        let mut k: usize = 0;
        while k < ids.len()
            invariant
                k <= ids@.len(),
                added == ids@.map_values(|i: i32| (i, handler)),
                forall|id: i32|
                    #[trigger] handlers_for(self.entries@, id) == handlers_for(
                        old(self).entries@,
                        id,
                    ) + handlers_for(added.take(k as int), id),
            decreases ids@.len() - k,
        {
            let ghost before = self.entries@;
            assert(forall|id: i32|
                #[trigger] handlers_for(before, id) == handlers_for(old(self).entries@, id)
                    + handlers_for(added.take(k as int), id));
            self.entries.push((ids[k], handler));
            k = k + 1;
            proof {
                assert(self.entries@.drop_last() =~= before);
                assert(added.take(k as int).drop_last() =~= added.take(k - 1));
                assert forall|id: i32|
                    #[trigger] handlers_for(self.entries@, id) == handlers_for(
                        old(self).entries@,
                        id,
                    ) + handlers_for(added.take(k as int), id) by {
                    let h0 = handlers_for(old(self).entries@, id);
                    let hk = handlers_for(added.take(k - 1), id);
                    assert(added.take(k as int).last() == (ids@[k - 1], handler));
                    assert(self.entries@.last() == (ids@[k - 1], handler));
                    assert(handlers_for(before, id) == h0 + hk);
                    assert(added.take(k as int).drop_last() =~= added.take(k - 1));
                    if ids[k - 1] == id {
                        assert(h0 + hk.push(handler) =~= (h0 + hk).push(handler));
                    }
                }
            }
        }
        assert(added.take(k as int) =~= added);
    }

    /// The handlers for `id`, in registration order.
    pub fn handlers(&self, id: i32) -> (r: Vec<u64>)
        ensures
            r@ == handlers_for(self.entries(), id),
    {
        let mut r: Vec<u64> = Vec::new();
        let mut i: usize = 0;
        while i < self.entries.len()
            invariant
                i <= self.entries@.len(),
                r@ == handlers_for(self.entries@.take(i as int), id),
            decreases self.entries@.len() - i,
        {
            assert(self.entries@.take(i + 1).drop_last() =~= self.entries@.take(i as int));
            if self.entries[i].0 == id {
                r.push(self.entries[i].1);
            }
            i = i + 1;
        }
        assert(self.entries@.take(i as int) =~= self.entries@);
        r
    }
}

} // verus!
