//! Client-side synchronisation of a frame-indexed multiplayer simulation.
//!
//! Once per engine tick, [`ClientNetworkSystem::run`] takes what the
//! transport has delivered since the last tick and brings the client's state
//! up to date: it looks after the one connection to the server, routes each
//! message to the state it concerns, merges the server's world updates into
//! frame buffers, and decides whether the simulation has to halt for the
//! network or for other players. Messages for the server are left in an
//! outbox for the transport to send.
//!
//! Every function states what it does over a mathematical model of the
//! state, and is proved to do it. The modules, from the ground up:
//!
//! - [`frames`]: the frame buffer, a bounded window of per-frame slots;
//! - [`world`]: what the server reports and what the client keeps of it;
//! - [`reconcile`]: merging world updates and discarding walk actions;
//! - [`state`], [`messages`], [`client`]: connection, room, game, and what
//!   client and server say to each other;
//! - [`lifecycle`], [`dispatch`], [`pacing`]: the parts of a tick;
//! - [`system`]: the tick.

pub mod client;
pub mod dispatch;
pub mod error;
pub mod frames;
pub mod lifecycle;
pub mod messages;
pub mod monster_movement;
pub mod pacing;
pub mod reconcile;
pub mod state;
pub mod system;
pub mod world;

pub use error::FatalError;
pub use monster_movement::MonsterMovementSystem;
pub use system::ClientNetworkSystem;
