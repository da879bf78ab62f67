//! A client library for the length-prefixed, VarInt-tagged Minecraft Java
//! Edition wire protocol (1.19 family): typed value codec, NBT trees, frames
//! with optional zlib compression, the login state machine, packet handler
//! registries and an event dispatcher with one-shot and persistent subscribers.
pub mod varint;
pub mod wire;
pub mod packet;
pub mod error;
pub mod frame;
pub mod nbt;
pub mod packets;
pub mod status;
pub mod handler;
pub mod events;
pub mod client;
