//! A connected player and the stage that its connection has reached.

use vstd::prelude::*;

verus! {

/// The stages of a connection, in the order the protocol goes through them.
#[derive(Clone, Copy, Debug, PartialEq, Eq, Structural)]
pub enum ConnectionState {
    Handshake,
    Status,
    Login,
    Configuration,
    Play,
}

impl Default for ConnectionState {
    fn default() -> (s: Self)
        ensures
            s == ConnectionState::Handshake,
    {
        ConnectionState::Handshake
    }
}

/// A player on one connection.
#[derive(Clone, Debug)]
pub struct Player {
    pub name: String,
    pub uuid: [u8; 16],
    pub state: ConnectionState,
    pub entity_id: u32,
}

impl Player {
    /// The player of a fresh connection: no name, a zero UUID, at the
    /// handshake, with entity id 0.
    pub open spec fn is_fresh(&self) -> bool {
        &&& self.name@ == Seq::<char>::empty()
        &&& self.uuid@ == Seq::new(16, |i: int| 0u8)
        &&& self.state == ConnectionState::Handshake
        &&& self.entity_id == 0
    }
}

impl Default for Player {
    fn default() -> (p: Self)
        ensures
            p.is_fresh(),
    {
        let p = Player { name: String::new(), uuid: [0u8; 16], state: ConnectionState::Handshake, entity_id: 0 };
        assert(p.uuid@ =~= Seq::new(16, |i: int| 0u8));
        p
    }
}

} // verus!
