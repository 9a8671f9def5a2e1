//! Messages of the online play protocol, as the library sees them. Their
//! JSON form is given by copies of these types in the server program.

use vstd::prelude::*;

verus! {

/// A message from a client.
#[derive(Debug)]
pub enum ClientMsg {
    /// Create a room. `name` is the display name for guests; authenticated
    /// users play under their account name instead.
    Create { name: Option<String> },
    Join { room: String, name: Option<String> },
    Move { from: u8, to: u8 },
    Resign,
    Ping,
}

#[derive(Debug, Clone, Copy, PartialEq, Eq, Structural)]
pub struct MovePayload {
    pub from: u8,
    pub to: u8,
}

#[derive(Debug, Clone)]
pub struct SeatPayload {
    pub name: String,
    /// "user" for authenticated accounts, "guest" for self-declared names.
    pub kind: &'static str,
}

#[derive(Debug, Clone)]
pub struct SeatsPayload {
    pub red: Option<SeatPayload>,
    pub black: Option<SeatPayload>,
}

impl Default for SeatsPayload {
    fn default() -> (s: Self)
        ensures
            s.red is None,
            s.black is None,
    {
        SeatsPayload { red: None, black: None }
    }
}

} // verus!
