//! The packets this client sends and reads, with their encoders and decoders.
use vstd::prelude::*;
use vstd::string::StringExecFns;
use vstd::utf8::encode_utf8;
use crate::nbt::{nbt_view, parse_named, Nbt, NBTType};
use crate::packet::{IntoPacket, RawPacket};
use crate::varint::{parse_varint, varint_bytes};
use crate::wire::{
    be16_bytes, parse_string, parse_u32, parse_u64, parse_u8, parse_uuid, string_bytes,
};

verus! {

/// A boolean byte: true exactly when it is 1.
pub open spec fn parse_bool(s: Seq<u8>) -> Option<(bool, Seq<u8>)> {
    match parse_u8(s) {
        Some((b, r)) => Some((b == 1, r)),
        None => None,
    }
}

/// Whether a string fits a VarInt length.
pub open spec fn fits_string(c: Seq<char>) -> bool {
    encode_utf8(c).len() <= i32::MAX
}

/// Whether the UTF-8 length of `s` fits a VarInt.
pub fn fits_varint_length(s: &str) -> (r: bool)
    ensures
        r == fits_string(s@),
{
    let b = s.as_bytes();
    b.len() <= i32::MAX as usize
}

/// Sent first on every connection (id 0).
#[derive(Debug, Clone)]
pub struct HandshakePacket {
    pub server_address: String,
    pub server_port: u16,
    pub next_state: i32,
}

impl HandshakePacket {
    /// A handshake that asks for the server's status.
    pub fn new_ping(server_address: String, server_port: u16) -> (r: HandshakePacket)
        ensures
            r.server_address@ == server_address@,
            r.server_port == server_port,
            r.next_state == 1,
    {
        HandshakePacket { server_address, server_port, next_state: 1 }
    }

    /// A handshake that starts a login.
    pub fn new_login(server_address: String, server_port: u16) -> (r: HandshakePacket)
        ensures
            r.server_address@ == server_address@,
            r.server_port == server_port,
            r.next_state == 2,
    {
        HandshakePacket { server_address, server_port, next_state: 2 }
    }

    /// The packet: protocol version, address, port, next state.
    pub fn to_packet(&self, protocol_version: i32) -> (r: RawPacket)
        requires
            fits_string(self.server_address@),
        ensures
            r.id == 0,
            r.data@ == varint_bytes(protocol_version) + string_bytes(self.server_address@)
                + be16_bytes(self.server_port) + varint_bytes(self.next_state),
    {
        let mut p = RawPacket::empty(0);
        p.write_varint(protocol_version);
        p.write_string(self.server_address.as_str());
        p.write_ushort(self.server_port);
        p.write_varint(self.next_state);
        assert(p.data@ =~= varint_bytes(protocol_version) + string_bytes(self.server_address@)
            + be16_bytes(self.server_port) + varint_bytes(self.next_state));
        p
    }
}

impl IntoPacket for HandshakePacket {
    open spec fn fits(&self) -> bool {
        fits_string(self.server_address@)
    }

    open spec fn packet_of(&self, protocol_version: i32) -> (i32, Seq<u8>) {
        (
            0,
            varint_bytes(protocol_version) + string_bytes(self.server_address@) + be16_bytes(
                self.server_port,
            ) + varint_bytes(self.next_state),
        )
    }

    fn into_packet(self, protocol_version: i32) -> (r: Option<RawPacket>) {
        if !fits_varint_length(self.server_address.as_str()) {
            return None;
        }
        Some(self.to_packet(protocol_version))
    }
}

/// Starts the login (id 0): the user name, without signature data or UUID.
#[derive(Debug, Clone)]
pub struct LoginStartPacket {
    pub username: String,
}

impl LoginStartPacket {
    pub fn new(username: String) -> (r: LoginStartPacket)
        ensures
            r.username@ == username@,
    {
        LoginStartPacket { username }
    }

    /// The packet: user name, then two false flags.
    pub fn to_packet(&self) -> (r: RawPacket)
        requires
            fits_string(self.username@),
        ensures
            r.id == 0,
            r.data@ == string_bytes(self.username@) + seq![0u8, 0u8],
    {
        let mut p = RawPacket::empty(0);
        p.write_string(self.username.as_str());
        p.write_bool(false);
        p.write_bool(false);
        assert(p.data@ =~= string_bytes(self.username@) + seq![0u8, 0u8]);
        p
    }
}

impl IntoPacket for LoginStartPacket {
    open spec fn fits(&self) -> bool {
        fits_string(self.username@)
    }

    open spec fn packet_of(&self, protocol_version: i32) -> (i32, Seq<u8>) {
        (0, string_bytes(self.username@) + seq![0u8, 0u8])
    }

    fn into_packet(self, protocol_version: i32) -> (r: Option<RawPacket>) {
        if !fits_varint_length(self.username.as_str()) {
            return None;
        }
        Some(self.to_packet())
    }
}

/// A packet with an id and no data.
pub struct EmptyPacket(pub i32);

impl IntoPacket for EmptyPacket {
    open spec fn fits(&self) -> bool {
        true
    }

    open spec fn packet_of(&self, protocol_version: i32) -> (i32, Seq<u8>) {
        (self.0, Seq::empty())
    }

    fn into_packet(self, protocol_version: i32) -> (r: Option<RawPacket>) {
        Some(RawPacket::empty(self.0))
    }
}

/// One property of a login success packet.
#[derive(Debug, Clone)]
pub struct LoginSuccessProperty {
    pub name: String,
    pub value: String,
    pub signature: Option<String>,
}

/// Sent by the server when the login succeeds (id 2).
#[derive(Debug, Clone)]
pub struct LoginSuccessPacket {
    pub uuid: u128,
    pub username: String,
    pub properties: Vec<LoginSuccessProperty>,
}

pub open spec fn property_view(p: LoginSuccessProperty) -> (Seq<char>, Seq<char>, Option<Seq<char>>) {
    (
        p.name@,
        p.value@,
        match p.signature {
            Some(s) => Some(s@),
            None => None,
        },
    )
}

pub open spec fn properties_view(s: Seq<LoginSuccessProperty>) -> Seq<
    (Seq<char>, Seq<char>, Option<Seq<char>>),
>
    decreases s.len(),
{
    if s.len() == 0 {
        Seq::empty()
    } else {
        properties_view(s.drop_last()).push(property_view(s.last()))
    }
}

pub open spec fn strings_view(s: Seq<String>) -> Seq<Seq<char>>
    decreases s.len(),
{
    if s.len() == 0 {
        Seq::empty()
    } else {
        strings_view(s.drop_last()).push(s.last()@)
    }
}

pub open spec fn login_success_view(p: LoginSuccessPacket) -> (
    u128,
    Seq<char>,
    Seq<(Seq<char>, Seq<char>, Option<Seq<char>>)>,
) {
    (p.uuid, p.username@, properties_view(p.properties@))
}

/// One property: name, value, a flag, and the signature when the flag is set.
pub open spec fn parse_property(s: Seq<u8>) -> Option<
    ((Seq<char>, Seq<char>, Option<Seq<char>>), Seq<u8>),
> {
    match parse_string(s) {
        Some((name, r1)) => match parse_string(r1) {
            Some((value, r2)) => match parse_bool(r2) {
                Some((has_sig, r3)) => if has_sig {
                    match parse_string(r3) {
                        Some((sig, r4)) => Some(((name, value, Some(sig)), r4)),
                        None => None,
                    }
                } else {
                    Some(((name, value, None), r3))
                },
                None => None,
            },
            None => None,
        },
        None => None,
    }
}

/// `n` properties.
pub open spec fn parse_properties(s: Seq<u8>, n: nat) -> Option<
    (Seq<(Seq<char>, Seq<char>, Option<Seq<char>>)>, Seq<u8>),
>
    decreases n,
{
    if n == 0 {
        Some((Seq::empty(), s))
    } else {
        match parse_property(s) {
            Some((p, r)) => match parse_properties(r, (n - 1) as nat) {
                Some((ps, r2)) => Some((seq![p] + ps, r2)),
                None => None,
            },
            None => None,
        }
    }
}

/// A login success body: UUID, user name, a VarInt count and the properties.
pub open spec fn parse_login_success(s: Seq<u8>) -> Option<
    (u128, Seq<char>, Seq<(Seq<char>, Seq<char>, Option<Seq<char>>)>),
> {
    match parse_uuid(s) {
        Some((uuid, r1)) => match parse_string(r1) {
            Some((name, r2)) => match parse_varint(r2) {
                Some((n, r3)) => if n < 0 {
                    None
                } else {
                    match parse_properties(r3, n as nat) {
                        Some((ps, _r4)) => Some((uuid, name, ps)),
                        None => None,
                    }
                },
                None => None,
            },
            None => None,
        },
        None => None,
    }
}

fn read_property(packet: &mut RawPacket) -> (r: Option<LoginSuccessProperty>)
    ensures
        final(packet).id == old(packet).id,
        match parse_property(old(packet).data@) {
            Some((p, rest)) => r matches Some(q) && property_view(q) == p && final(packet).data@
                == rest,
            None => r is None,
        },
{
    let name = match packet.try_read_string() {
        Some(t) => t,
        None => return None,
    };
    let value = match packet.try_read_string() {
        Some(t) => t,
        None => return None,
    };
    let has_sig = match packet.try_read_byte() {
        Some(b) => b == 1,
        None => return None,
    };
    let signature = if has_sig {
        match packet.try_read_string() {
            Some(t) => Some(t),
            None => return None,
        }
    } else {
        None
    };
    Some(LoginSuccessProperty { name, value, signature })
}

#[verifier::rlimit(50)]
fn read_properties(packet: &mut RawPacket, n: i32) -> (r: Option<Vec<LoginSuccessProperty>>)
    requires
        n >= 0,
    ensures
        final(packet).id == old(packet).id,
        match parse_properties(old(packet).data@, n as nat) {
            Some((ps, rest)) => r matches Some(v) && properties_view(v@) == ps && final(packet).data@ == rest,
            None => r is None,
        },
{
    let ghost s0 = packet.data@;
    let mut properties: Vec<LoginSuccessProperty> = Vec::new();
    let mut k: i32 = 0;
    while k < n
        invariant
            packet.id == old(packet).id,
            s0 == old(packet).data@,
            0 <= k <= n,
            match parse_properties(packet.data@, (n - k) as nat) {
                Some((ps, r)) => parse_properties(s0, n as nat) == Some(
                    (properties_view(properties@) + ps, r),
                ),
                None => parse_properties(s0, n as nat) is None,
            },
        decreases n - k,
    {
        let ghost cur = packet.data@;
        let q = match read_property(packet) {
            Some(q) => q,
            None => return None,
        };
        let ghost before = properties@;
        let ghost m = (n - k) as nat;
        assert(parse_properties(cur, m) == match parse_properties(packet.data@, (m - 1) as nat) {
            Some((ps, r2)) => Some((seq![property_view(q)] + ps, r2)),
            None => None,
        });
        properties.push(q);
        k = k + 1;
        proof {
            assert(properties@.drop_last() =~= before);
            let pv = properties_view(before);
            match parse_properties(packet.data@, (n - k) as nat) {
                Some((ps, r)) => {
                    assert(pv + (seq![property_view(q)] + ps) =~= pv.push(property_view(q)) + ps);
                },
                None => {},
            }
        }
    }
    assert(properties_view(properties@) + Seq::empty() =~= properties_view(properties@));
    Some(properties)
}

impl LoginSuccessPacket {
    /// Decodes a login success body; `None` when it is malformed.
    pub fn decode(packet: RawPacket) -> (r: Option<LoginSuccessPacket>)
        ensures
            match parse_login_success(packet.data@) {
                Some(v) => r matches Some(p) && login_success_view(p) == v,
                None => r is None,
            },
    {
        let mut packet = packet;
        let uuid = match packet.try_read_uuid() {
            Some(u) => u,
            None => return None,
        };
        let username = match packet.try_read_string() {
            Some(t) => t,
            None => return None,
        };
        let n = match packet.try_read_varint() {
            Some(n) => n,
            None => return None,
        };
        if n < 0 {
            return None;
        }
        let properties = match read_properties(&mut packet, n) {
            Some(v) => v,
            None => return None,
        };
        Some(LoginSuccessPacket { uuid, username, properties })
    }
}

/// The location of the last death; not decoded by this client.
#[derive(Debug, Clone)]
pub struct Location {
    pub world: Option<String>,
    pub x_bits: u64,
    pub y_bits: u64,
    pub z_bits: u64,
}

impl Location {
    /// The origin, with no world (all coordinates are +0.0).
    pub fn zero() -> (r: Location)
        ensures
            r.world is None,
            r.x_bits == 0 && r.y_bits == 0 && r.z_bits == 0,
    {
        Location { world: None, x_bits: 0, y_bits: 0, z_bits: 0 }
    }
}

/// Sent by the server when the player joins the world (id 0x25).
#[derive(Debug)]
pub struct LoginPlayPacket {
    pub id: i32,
    pub is_hardcore: bool,
    pub gamemode: u8,
    pub previous_gamemode: i8,
    pub dimension_count: i32,
    pub dimension_names: Vec<String>,
    pub nbt_registry_codec: NBTType,
    pub dimension_type: String,
    pub dimension_name: String,
    pub hashed_seed: u64,
    pub max_players: i32,
    pub view_distance: i32,
    pub simulation_distance: i32,
    pub reduced_debug_info: bool,
    pub enable_respawn_screen: bool,
    pub is_debug: bool,
    pub is_flat: bool,
    pub death_location: Option<Location>,
}

/// The mathematical value of a join-game packet.
pub struct LoginPlayModel {
    pub id: i32,
    pub is_hardcore: bool,
    pub gamemode: u8,
    pub previous_gamemode: i8,
    pub dimension_names: Seq<Seq<char>>,
    pub registry_codec: Nbt,
    pub dimension_type: Seq<char>,
    pub dimension_name: Seq<char>,
    pub hashed_seed: u64,
    pub max_players: i32,
    pub view_distance: i32,
    pub simulation_distance: i32,
    pub flags: Seq<bool>,
    pub has_death_location: bool,
}

pub open spec fn login_play_view(p: LoginPlayPacket) -> LoginPlayModel {
    LoginPlayModel {
        id: p.id,
        is_hardcore: p.is_hardcore,
        gamemode: p.gamemode,
        previous_gamemode: p.previous_gamemode,
        dimension_names: strings_view(p.dimension_names@),
        registry_codec: nbt_view(p.nbt_registry_codec),
        dimension_type: p.dimension_type@,
        dimension_name: p.dimension_name@,
        hashed_seed: p.hashed_seed,
        max_players: p.max_players,
        view_distance: p.view_distance,
        simulation_distance: p.simulation_distance,
        flags: seq![
            p.reduced_debug_info,
            p.enable_respawn_screen,
            p.is_debug,
            p.is_flat,
        ],
        has_death_location: p.death_location is Some,
    }
}

/// `n` strings.
pub open spec fn parse_strings(s: Seq<u8>, n: nat) -> Option<(Seq<Seq<char>>, Seq<u8>)>
    decreases n,
{
    if n == 0 {
        Some((Seq::empty(), s))
    } else {
        match parse_string(s) {
            Some((c, r)) => match parse_strings(r, (n - 1) as nat) {
                Some((cs, r2)) => Some((seq![c] + cs, r2)),
                None => None,
            },
            None => None,
        }
    }
}

/// `n` boolean bytes.
pub open spec fn parse_bools(s: Seq<u8>, n: nat) -> Option<(Seq<bool>, Seq<u8>)>
    decreases n,
{
    if n == 0 {
        Some((Seq::empty(), s))
    } else {
        match parse_bool(s) {
            Some((b, r)) => match parse_bools(r, (n - 1) as nat) {
                Some((bs, r2)) => Some((seq![b] + bs, r2)),
                None => None,
            },
            None => None,
        }
    }
}

/// Entity id, hardcore flag, game mode, previous game mode.
pub open spec fn parse_login_play_head(s: Seq<u8>) -> Option<((i32, bool, u8, i8), Seq<u8>)> {
    match parse_u32(s) {
        Some((id, r1)) => match parse_bool(r1) {
            Some((hardcore, r2)) => match parse_u8(r2) {
                Some((gamemode, r3)) => match parse_u8(r3) {
                    Some((prev, r4)) => Some(((id as i32, hardcore, gamemode, prev as i8), r4)),
                    None => None,
                },
                None => None,
            },
            None => None,
        },
        None => None,
    }
}

/// A VarInt count and that many dimension names.
pub open spec fn parse_dimensions(s: Seq<u8>) -> Option<((i32, Seq<Seq<char>>), Seq<u8>)> {
    match parse_varint(s) {
        Some((count, r)) => if count < 0 {
            None
        } else {
            match parse_strings(r, count as nat) {
                Some((names, r2)) => Some(((count, names), r2)),
                None => None,
            }
        },
        None => None,
    }
}

/// Dimension type and name, hashed seed, and three VarInts.
pub open spec fn parse_login_play_world(s: Seq<u8>) -> Option<
    ((Seq<char>, Seq<char>, u64, i32, i32, i32), Seq<u8>),
> {
    match parse_string(s) {
        Some((dim_type, r1)) => match parse_string(r1) {
            Some((dim_name, r2)) => match parse_u64(r2) {
                Some((seed, r3)) => match parse_varint(r3) {
                    Some((max_players, r4)) => match parse_varint(r4) {
                        Some((view, r5)) => match parse_varint(r5) {
                            Some((sim, r6)) => Some(
                                ((dim_type, dim_name, seed, max_players, view, sim), r6),
                            ),
                            None => None,
                        },
                        None => None,
                    },
                    None => None,
                },
                None => None,
            },
            None => None,
        },
        None => None,
    }
}

/// A join-game body. The death location, when flagged, is not decoded.
pub open spec fn parse_login_play(s: Seq<u8>) -> Option<LoginPlayModel> {
    match parse_login_play_head(s) {
        Some(((id, hardcore, gamemode, prev), r1)) => match parse_dimensions(r1) {
            Some(((_count, names), r2)) => match parse_named(r2) {
                Some((codec, r3)) => match parse_login_play_world(r3) {
                    Some(((dt, dn, seed, mp, vd, sd), r4)) => match parse_bools(r4, 5) {
                        Some((flags, _r5)) => Some(
                            LoginPlayModel {
                                id,
                                is_hardcore: hardcore,
                                gamemode,
                                previous_gamemode: prev,
                                dimension_names: names,
                                registry_codec: codec,
                                dimension_type: dt,
                                dimension_name: dn,
                                hashed_seed: seed,
                                max_players: mp,
                                view_distance: vd,
                                simulation_distance: sd,
                                flags: flags.take(4),
                                has_death_location: flags[4],
                            },
                        ),
                        None => None,
                    },
                    None => None,
                },
                None => None,
            },
            None => None,
        },
        None => None,
    }
}

fn read_bool(packet: &mut RawPacket) -> (r: Option<bool>)
    ensures
        final(packet).id == old(packet).id,
        match parse_bool(old(packet).data@) {
            Some((b, rest)) => r == Some(b) && final(packet).data@ == rest,
            None => r is None,
        },
{
    match packet.try_read_byte() {
        Some(b) => Some(b == 1),
        None => None,
    }
}

fn read_login_play_head(packet: &mut RawPacket) -> (r: Option<(i32, bool, u8, i8)>)
    ensures
        final(packet).id == old(packet).id,
        match parse_login_play_head(old(packet).data@) {
            Some((h, rest)) => r == Some(h) && final(packet).data@ == rest,
            None => r is None,
        },
{
    let id = match packet.try_read_uint() {
        Some(v) => v as i32,
        None => return None,
    };
    let is_hardcore = match read_bool(packet) {
        Some(b) => b,
        None => return None,
    };
    let gamemode = match packet.try_read_byte() {
        Some(b) => b,
        None => return None,
    };
    let previous_gamemode = match packet.try_read_byte() {
        Some(b) => b as i8,
        None => return None,
    };
    Some((id, is_hardcore, gamemode, previous_gamemode))
}

fn read_dimensions(packet: &mut RawPacket) -> (r: Option<(i32, Vec<String>)>)
    ensures
        final(packet).id == old(packet).id,
        match parse_dimensions(old(packet).data@) {
            Some(((count, names), rest)) => r matches Some((c, v)) && c == count && strings_view(
                v@,
            ) == names && final(packet).data@ == rest,
            None => r is None,
        },
{
    let count = match packet.try_read_varint() {
        Some(n) => n,
        None => return None,
    };
    if count < 0 {
        return None;
    }
    let ghost s0 = packet.data@;
    let mut names: Vec<String> = Vec::new();
    let mut k: i32 = 0;
    while k < count
        invariant
            packet.id == old(packet).id,
            0 <= k <= count,
            parse_dimensions(old(packet).data@) == match parse_strings(s0, count as nat) {
                Some((cs, r)) => Some(((count, cs), r)),
                None => None,
            },
            match parse_strings(packet.data@, (count - k) as nat) {
                Some((cs, r)) => parse_strings(s0, count as nat) == Some(
                    (strings_view(names@) + cs, r),
                ),
                None => parse_strings(s0, count as nat) is None,
            },
        decreases count - k,
    {
        let name = match packet.try_read_string() {
            Some(t) => t,
            None => return None,
        };
        let ghost before = names@;
        names.push(name);
        k = k + 1;
        proof {
            assert(names@.drop_last() =~= before);
            let nv = strings_view(before);
            match parse_strings(packet.data@, (count - k) as nat) {
                Some((cs, r)) => {
                    assert(nv + (seq![name@] + cs) =~= nv.push(name@) + cs);
                },
                None => {},
            }
        }
    }
    assert(strings_view(names@) + Seq::empty() =~= strings_view(names@));
    Some((count, names))
}

fn read_login_play_world(packet: &mut RawPacket) -> (r: Option<
    (String, String, u64, i32, i32, i32),
>)
    ensures
        final(packet).id == old(packet).id,
        match parse_login_play_world(old(packet).data@) {
            Some(((dt, dn, seed, mp, vd, sd), rest)) => r matches Some(
                (a, b, c, d, e, f),
            ) && a@ == dt && b@ == dn && c == seed && d == mp && e == vd && f == sd && final(packet).data@ == rest,
            None => r is None,
        },
{
    let dimension_type = match packet.try_read_string() {
        Some(t) => t,
        None => return None,
    };
    let dimension_name = match packet.try_read_string() {
        Some(t) => t,
        None => return None,
    };
    let hashed_seed = match packet.try_read_ulong() {
        Some(v) => v,
        None => return None,
    };
    let max_players = match packet.try_read_varint() {
        Some(v) => v,
        None => return None,
    };
    let view_distance = match packet.try_read_varint() {
        Some(v) => v,
        None => return None,
    };
    let simulation_distance = match packet.try_read_varint() {
        Some(v) => v,
        None => return None,
    };
    Some((dimension_type, dimension_name, hashed_seed, max_players, view_distance, simulation_distance))
}

fn read_flags(packet: &mut RawPacket) -> (r: Option<(bool, bool, bool, bool, bool)>)
    ensures
        final(packet).id == old(packet).id,
        match parse_bools(old(packet).data@, 5) {
            Some((flags, rest)) => r matches Some((a, b, c, d, e)) && flags == seq![a, b, c, d, e]
                && final(packet).data@ == rest,
            None => r is None,
        },
{
    let ghost s0 = packet.data@;
    reveal_with_fuel(parse_bools, 6);
    let a = match read_bool(packet) {
        Some(b) => b,
        None => return None,
    };
    let b = match read_bool(packet) {
        Some(b) => b,
        None => return None,
    };
    let c = match read_bool(packet) {
        Some(b) => b,
        None => return None,
    };
    let d = match read_bool(packet) {
        Some(b) => b,
        None => return None,
    };
    let e = match read_bool(packet) {
        Some(b) => b,
        None => return None,
    };
    assert(seq![e] + Seq::<bool>::empty() =~= seq![e]);
    assert(seq![d] + seq![e] =~= seq![d, e]);
    assert(seq![c] + seq![d, e] =~= seq![c, d, e]);
    assert(seq![b] + seq![c, d, e] =~= seq![b, c, d, e]);
    assert(seq![a] + seq![b, c, d, e] =~= seq![a, b, c, d, e]);
    Some((a, b, c, d, e))
}

impl LoginPlayPacket {
    /// Decodes a join-game body; `None` when it is malformed.
    #[verifier::rlimit(80)]
    pub fn decode(packet: RawPacket) -> (r: Option<LoginPlayPacket>)
        ensures
            match parse_login_play(packet.data@) {
                Some(m) => r matches Some(p) && login_play_view(p) == m,
                None => r is None,
            },
    {
        let mut packet = packet;
        let (id, is_hardcore, gamemode, previous_gamemode) = match read_login_play_head(
            &mut packet,
        ) {
            Some(h) => h,
            None => return None,
        };
        let (dimension_count, dimension_names) = match read_dimensions(&mut packet) {
            Some(d) => d,
            None => return None,
        };
        let nbt_registry_codec = match NBTType::from_packet(&mut packet) {
            Ok(t) => t,
            Err(_) => return None,
        };
        let (
            dimension_type,
            dimension_name,
            hashed_seed,
            max_players,
            view_distance,
            simulation_distance,
        ) = match read_login_play_world(&mut packet) {
            Some(w) => w,
            None => return None,
        };
        let (reduced_debug_info, enable_respawn_screen, is_debug, is_flat, has_death_location) =
            match read_flags(&mut packet) {
            Some(f) => f,
            None => return None,
        };
        let death_location = if has_death_location {
            Some(Location::zero())
        } else {
            None
        };
        let r = LoginPlayPacket {
            id,
            is_hardcore,
            gamemode,
            previous_gamemode,
            dimension_count,
            dimension_names,
            nbt_registry_codec,
            dimension_type,
            dimension_name,
            hashed_seed,
            max_players,
            view_distance,
            simulation_distance,
            reduced_debug_info,
            enable_respawn_screen,
            is_debug,
            is_flat,
            death_location,
        };
        assert(seq![reduced_debug_info, enable_respawn_screen, is_debug, is_flat, has_death_location].take(4)
            =~= seq![reduced_debug_info, enable_respawn_screen, is_debug, is_flat]);
        Some(r)
    }
}

/// An inventory slot: present flag, then item id, count and NBT when present.
#[derive(Debug)]
pub struct Slot {
    pub present: bool,
    pub item_id: Option<i32>,
    pub item_count: Option<u8>,
    pub nbt: Option<NBTType>,
}

pub open spec fn parse_slot(s: Seq<u8>) -> Option<(Option<(i32, u8, Nbt)>, Seq<u8>)> {
    match parse_bool(s) {
        Some((present, r1)) => if !present {
            Some((None, r1))
        } else {
            match parse_u32(r1) {
                Some((id, r2)) => match parse_u8(r2) {
                    Some((count, r3)) => match parse_named(r3) {
                        Some((t, r4)) => Some((Some((id as i32, count, t)), r4)),
                        None => None,
                    },
                    None => None,
                },
                None => None,
            }
        },
        None => None,
    }
}

impl Slot {
    /// Reads a slot.
    pub fn from_packet(packet: &mut RawPacket) -> (r: Result<Slot, String>)
        ensures
            final(packet).id == old(packet).id,
            match parse_slot(old(packet).data@) {
                Some((None, rest)) => r matches Ok(slot) && !slot.present && slot.item_id is None
                    && slot.item_count is None && slot.nbt is None && final(packet).data@ == rest,
                Some((Some((id, count, t)), rest)) => r matches Ok(slot) && slot.present
                    && slot.item_id == Some(id) && slot.item_count == Some(count) && (
                slot.nbt matches Some(u) && nbt_view(u) == t) && final(packet).data@ == rest,
                None => r is Err,
            },
    {
        let present = match read_bool(packet) {
            Some(b) => b,
            None => return Err(String::from_str("malformed slot")),
        };
        if !present {
            return Ok(Slot { present, item_id: None, item_count: None, nbt: None });
        }
        let item_id = match packet.try_read_uint() {
            Some(v) => v as i32,
            None => return Err(String::from_str("malformed slot")),
        };
        let item_count = match packet.try_read_byte() {
            Some(b) => b,
            None => return Err(String::from_str("malformed slot")),
        };
        let nbt = match NBTType::from_packet(packet) {
            Ok(t) => t,
            Err(e) => return Err(e),
        };
        Ok(Slot { present, item_id: Some(item_id), item_count: Some(item_count), nbt: Some(nbt) })
    }
}

} // verus!
