//! The server status a client reads before it logs in.
use vstd::prelude::*;

verus! {

/// The server's answer to a status request.
#[derive(Debug)]
pub struct StatusResponse {
    pub version: Version,
    pub players: Players,
    pub description: Description,
    pub favicon: Option<String>,
    pub enforces_secure_chat: Option<bool>,
}

/// The server's version name and protocol number.
#[derive(Debug)]
pub struct Version {
    pub name: String,
    pub protocol: i32,
}

/// Player counts and a sample of who is online.
#[derive(Debug)]
pub struct Players {
    pub max: i32,
    pub online: i32,
    pub sample: Option<Vec<Player>>,
}

#[derive(Debug)]
pub struct Player {
    pub name: String,
    pub id: String,
}

/// The message of the day.
#[derive(Debug)]
pub struct Description {
    pub text: String,
}

impl StatusResponse {
    /// The protocol number that the login carries forward.
    pub fn protocol_version(&self) -> (r: i32)
        ensures
            r == self.version.protocol,
    {
        self.version.protocol
    }
}

} // verus!
