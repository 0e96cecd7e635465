//! What the client knows about its connection, its room and the game.

use crate::world::NetIdentifier;
use vstd::prelude::*;

verus! {

/// Number of nanoseconds in a second.
pub const NANOS_PER_SECOND: u64 = 1_000_000_000;

/// A reading of a clock: seconds and nanoseconds since the clock's origin.
#[derive(Debug, Clone, Copy, PartialEq, Eq)]
pub struct Timestamp {
    pub secs: u64,
    pub nanos: u32,
}

impl Timestamp {
    /// The reading in nanoseconds.
    pub open spec fn as_nanos(self) -> int {
        self.secs * NANOS_PER_SECOND + self.nanos
    }

    /// Whether less than a second lies between `earlier` and this reading.
    /// A reading that is not after `earlier` counts as no time passed.
    pub open spec fn within_a_second_of(self, earlier: Timestamp) -> bool {
        self.as_nanos() - earlier.as_nanos() < NANOS_PER_SECOND
    }

    /// Computes [`Timestamp::within_a_second_of`].
    pub fn is_within_a_second_of(&self, earlier: &Timestamp) -> (within: bool)
        ensures
            within == self.within_a_second_of(*earlier),
    {
        let second: u128 = 1_000_000_000;
        assert(self.secs * second <= 0xffff_ffff_ffff_ffff * 1_000_000_000
            && earlier.secs * second <= 0xffff_ffff_ffff_ffff * 1_000_000_000)
            by (nonlinear_arith)
            requires
                second == 1_000_000_000,
                self.secs <= 0xffff_ffff_ffff_ffff,
                earlier.secs <= 0xffff_ffff_ffff_ffff,
        ;
        let now: u128 = self.secs as u128 * second + self.nanos as u128;
        let then: u128 = earlier.secs as u128 * second + earlier.nanos as u128;
        now < then + second
    }
}

/// Address of the machine at the other end.
#[derive(Debug, Clone, Copy, PartialEq, Eq)]
pub enum IpAddress {
    V4(u32),
    V6(u128),
}

/// Address and port of the server.
#[derive(Debug, Clone, Copy, PartialEq, Eq)]
pub struct PeerAddress {
    pub ip: IpAddress,
    pub port: u16,
}

/// Why a connection came to an end.
#[derive(Debug, Clone, Copy, PartialEq, Eq)]
pub enum DisconnectReason {
    GameIsStarted,
    RoomIsFull,
    Kick,
    Closed,
    ServerCrashed(i32),
}

/// Where the client stands with the room's server.
#[derive(Debug, Clone, Copy, PartialEq, Eq)]
pub enum ConnectionStatus {
    Disconnected(Option<DisconnectReason>),
    /// Waiting for the server's handshake since the given reading of the
    /// monotonic clock.
    Connecting(Timestamp),
    /// The server knows this client under the given connection id.
    Connected(NetIdentifier),
    Disconnecting,
    ConnectionFailed(Option<DisconnectReason>),
}

impl ConnectionStatus {
    /// Whether there is no connection and none is being made.
    pub open spec fn spec_is_not_connected(&self) -> bool {
        *self is Disconnected || *self is ConnectionFailed
    }

    /// The id the server gave this client, while connected.
    pub open spec fn spec_connection_id(&self) -> Option<NetIdentifier> {
        match *self {
            ConnectionStatus::Connected(id) => Some(id),
            _ => None,
        }
    }

    #[verifier::when_used_as_spec(spec_is_not_connected)]
    pub fn is_not_connected(&self) -> (b: bool)
        ensures
            b == self.spec_is_not_connected(),
    {
        match self {
            ConnectionStatus::Disconnected(_) => true,
            ConnectionStatus::ConnectionFailed(_) => true,
            _ => false,
        }
    }

    pub fn is_connecting(&self) -> (b: bool)
        ensures
            b == (*self is Connecting),
    {
        match self {
            ConnectionStatus::Connecting(_) => true,
            _ => false,
        }
    }

    pub fn is_connected(&self) -> (b: bool)
        ensures
            b == (*self is Connected),
    {
        match self {
            ConnectionStatus::Connected(_) => true,
            _ => false,
        }
    }

    #[verifier::when_used_as_spec(spec_connection_id)]
    pub fn connection_id(&self) -> (id: Option<NetIdentifier>)
        ensures
            id == self.spec_connection_id(),
    {
        match self {
            ConnectionStatus::Connected(id) => Some(*id),
            _ => None,
        }
    }
}

/// The client's one connection to the server.
#[derive(Debug, Clone, Copy, PartialEq, Eq)]
pub struct NetConnectionModel {
    pub id: NetIdentifier,
    /// Tells the messages of this connection from those of an earlier one.
    pub session_id: NetIdentifier,
    pub addr: PeerAddress,
    /// Set once the client has said goodbye.
    pub disconnected: bool,
}

impl NetConnectionModel {
    pub fn new(id: NetIdentifier, session_id: NetIdentifier, addr: PeerAddress) -> (model: Self)
        ensures
            model == (NetConnectionModel { id, session_id, addr, disconnected: false }),
    {
        NetConnectionModel { id, session_id, addr, disconnected: false }
    }
}

/// The room this client hosts or has joined.
#[derive(Debug, Clone, PartialEq, Eq)]
pub struct MultiplayerRoomState {
    pub nickname: String,
    pub is_active: bool,
    pub is_host: bool,
    pub has_started: bool,
    pub has_sent_start_message: bool,
    pub has_sent_join_message: bool,
    pub pending_disconnecting: bool,
    pub server_addr: PeerAddress,
    pub connection_status: ConnectionStatus,
    /// Entity of this client's player, once the game has started.
    pub player_net_id: NetIdentifier,
}

/// Model of a [`MultiplayerRoomState`].
#[verifier::ext_equal]
pub struct RoomView {
    pub nickname: Seq<char>,
    pub is_active: bool,
    pub is_host: bool,
    pub has_started: bool,
    pub has_sent_start_message: bool,
    pub has_sent_join_message: bool,
    pub pending_disconnecting: bool,
    pub server_addr: PeerAddress,
    pub connection_status: ConnectionStatus,
    pub player_net_id: NetIdentifier,
}

impl View for MultiplayerRoomState {
    type V = RoomView;

    open spec fn view(&self) -> RoomView {
        RoomView {
            nickname: self.nickname@,
            is_active: self.is_active,
            is_host: self.is_host,
            has_started: self.has_started,
            has_sent_start_message: self.has_sent_start_message,
            has_sent_join_message: self.has_sent_join_message,
            pending_disconnecting: self.pending_disconnecting,
            server_addr: self.server_addr,
            connection_status: self.connection_status,
            player_net_id: self.player_net_id,
        }
    }
}

impl MultiplayerRoomState {
    /// A room that is not active yet, for a client that is not connected.
    pub fn new(nickname: String, server_addr: PeerAddress) -> (room: Self)
        ensures
            room@ == (RoomView {
                nickname: nickname@,
                is_active: false,
                is_host: false,
                has_started: false,
                has_sent_start_message: false,
                has_sent_join_message: false,
                pending_disconnecting: false,
                server_addr,
                connection_status: ConnectionStatus::Disconnected(None),
                player_net_id: 0,
            }),
    {
        MultiplayerRoomState {
            nickname,
            is_active: false,
            is_host: false,
            has_started: false,
            has_sent_start_message: false,
            has_sent_join_message: false,
            pending_disconnecting: false,
            server_addr,
            connection_status: ConnectionStatus::Disconnected(None),
            player_net_id: 0,
        }
    }
}

/// A player of the room.
#[derive(Debug, Clone, Copy, PartialEq, Eq)]
pub struct MultiplayerRoomPlayer {
    pub connection_id: NetIdentifier,
    pub entity_net_id: NetIdentifier,
}

/// The game that the room plays.
#[derive(Debug, Clone, PartialEq, Eq)]
pub struct MultiplayerGameState {
    pub is_playing: bool,
    pub players: Vec<MultiplayerRoomPlayer>,
    /// Halt: other players lag and this client has used up what it received.
    pub waiting_for_players: bool,
    /// Id of the latest pause or unpause notice that was applied.
    pub waiting_for_players_pause_id: NetIdentifier,
    /// Players the server reported as lagging.
    pub lagging_players: Vec<NetIdentifier>,
    /// Halt: this client has run ahead of what the server confirmed.
    pub waiting_network: bool,
    pub is_disconnected: bool,
}

/// Model of a [`MultiplayerGameState`].
#[verifier::ext_equal]
pub struct GameView {
    pub is_playing: bool,
    pub players: Seq<MultiplayerRoomPlayer>,
    pub waiting_for_players: bool,
    pub waiting_for_players_pause_id: NetIdentifier,
    pub lagging_players: Seq<NetIdentifier>,
    pub waiting_network: bool,
    pub is_disconnected: bool,
}

impl View for MultiplayerGameState {
    type V = GameView;

    open spec fn view(&self) -> GameView {
        GameView {
            is_playing: self.is_playing,
            players: self.players@,
            waiting_for_players: self.waiting_for_players,
            waiting_for_players_pause_id: self.waiting_for_players_pause_id,
            lagging_players: self.lagging_players@,
            waiting_network: self.waiting_network,
            is_disconnected: self.is_disconnected,
        }
    }
}

impl MultiplayerGameState {
    /// A game that nobody plays yet.
    pub fn new() -> (game: Self)
        ensures
            game@ == (GameView {
                is_playing: false,
                players: Seq::empty(),
                waiting_for_players: false,
                waiting_for_players_pause_id: 0,
                lagging_players: Seq::empty(),
                waiting_network: false,
                is_disconnected: false,
            }),
    {
        MultiplayerGameState {
            is_playing: false,
            players: Vec::new(),
            waiting_for_players: false,
            waiting_for_players_pause_id: 0,
            lagging_players: Vec::new(),
            waiting_network: false,
            is_disconnected: false,
        }
    }
}

/// How far the server's stream of world updates has been taken in.
#[derive(Debug, Clone, Copy, PartialEq, Eq)]
pub struct LastAcknowledgedUpdate {
    /// Id of the latest batch that was taken in.
    pub id: NetIdentifier,
    /// Highest frame that any batch taken in has reported.
    pub frame_number: u64,
}

/// What the game engine is doing.
#[derive(Debug, Clone, Copy, PartialEq, Eq)]
pub enum GameEngineState {
    Loading,
    Menu,
    Playing,
    Quit,
}

impl GameEngineState {
    pub fn is_playing(&self) -> (b: bool)
        ensures
            b == (*self is Playing),
    {
        match self {
            GameEngineState::Playing => true,
            _ => false,
        }
    }
}

} // verus!
