//! Conditions that end the local session.

use crate::world::NetIdentifier;
use vstd::prelude::*;

verus! {

/// A condition the session cannot go on from. What to do about it is left
/// to the caller.
#[derive(Debug, Clone, Copy, PartialEq, Eq)]
pub enum FatalError {
    /// A message was to be sent and there is no connection to send it on.
    NoServerConnection,
    /// A player was to be kicked that the roster does not hold.
    UnknownPlayer { player_number: usize },
    /// The game was started while this client had no connection id.
    NotConnected,
    /// The game was started with fewer entities than the roster has
    /// players.
    MissingEntities { players: usize, entities: usize },
    /// The game was started with a roster that does not hold this client.
    PlayerNotFound { connection_id: NetIdentifier },
    /// A batch of world updates begins before the frames the buffer still
    /// keeps.
    StaleUpdate { first_incoming_frame: u64, first_available_frame: Option<u64> },
}

} // verus!
