//! Everything the network tick reads and writes, in one place.

use crate::frames::{FrameWindow, FramedUpdates};
use crate::messages::{OutgoingMessage, OutgoingView};
use crate::frames::views;
use crate::state::{
    GameEngineState, GameView, LastAcknowledgedUpdate, MultiplayerGameState, MultiplayerRoomState,
    NetConnectionModel, RoomView, Timestamp,
};
use crate::world::{
    PlayerActionUpdates, PlayerActionsView, ReceivedServerWorldUpdate, ReceivedUpdateView,
    SpawnActions,
};
use vstd::prelude::*;

verus! {

/// What a tick is told about the engine and the clocks.
#[derive(Debug, Clone, Copy, PartialEq, Eq)]
pub struct TickContext {
    pub game_engine_state: GameEngineState,
    /// Frames the engine has run.
    pub engine_frame_number: u64,
    /// Frame of the simulation.
    pub game_frame_number: u64,
    /// Frames since the game began, halts included.
    pub game_frame_number_absolute: u64,
    /// Time since the Unix epoch.
    pub unix_time: Timestamp,
    /// Reading of a clock that never goes back.
    pub monotonic_time: Timestamp,
}

/// The state that the network tick owns while it runs.
#[derive(Debug, PartialEq)]
pub struct ClientWorld<W, C, L, M, S> {
    /// The connection to the server; there is at most one.
    pub connection: Option<NetConnectionModel>,
    pub room: MultiplayerRoomState,
    pub game: MultiplayerGameState,
    pub last_acknowledged_update: LastAcknowledgedUpdate,
    /// What the server reported, by frame.
    pub framed_updates: FramedUpdates<ReceivedServerWorldUpdate<W, C, L, M>>,
    /// What this client's player did, by frame.
    pub player_actions_updates: FramedUpdates<PlayerActionUpdates<W, C, L>>,
    /// What appeared in the world, by frame.
    pub spawn_actions: FramedUpdates<SpawnActions<S>>,
    /// The state the engine is asked to go to.
    pub new_game_engine_state: GameEngineState,
    /// Messages for the transport to send, oldest first.
    pub outbox: Vec<OutgoingMessage>,
}

/// Model of a [`ClientWorld`].
#[verifier::ext_equal]
pub struct WorldView<W, C, L, M, S> {
    pub connection: Option<NetConnectionModel>,
    pub room: RoomView,
    pub game: GameView,
    pub last_acknowledged_update: LastAcknowledgedUpdate,
    pub framed_updates: FrameWindow<ReceivedUpdateView<W, C, L, M>>,
    pub player_actions_updates: FrameWindow<PlayerActionsView<W, C, L>>,
    pub spawn_actions: FrameWindow<Seq<S>>,
    pub new_game_engine_state: GameEngineState,
    pub outbox: Seq<OutgoingView>,
}

impl<W, C, L, M, S> View for ClientWorld<W, C, L, M, S> {
    type V = WorldView<W, C, L, M, S>;

    open spec fn view(&self) -> WorldView<W, C, L, M, S> {
        WorldView {
            connection: self.connection,
            room: self.room@,
            game: self.game@,
            last_acknowledged_update: self.last_acknowledged_update,
            framed_updates: self.framed_updates@,
            player_actions_updates: self.player_actions_updates@,
            spawn_actions: self.spawn_actions@,
            new_game_engine_state: self.new_game_engine_state,
            outbox: views(self.outbox@),
        }
    }
}

impl<W, C, L, M, S> ClientWorld<W, C, L, M, S> {
    /// A world with no connection, a fresh game, empty buffers that keep
    /// `limit` frames each, and nothing to send. There is no such world for a
    /// limit of 0.
    pub fn new(room: MultiplayerRoomState, limit: usize) -> (world: Option<Self>)
        ensures
            limit == 0 <==> world is None,
            world matches Some(w) ==> w@ == (WorldView::<W, C, L, M, S> {
                connection: None,
                room: room@,
                game: GameView {
                    is_playing: false,
                    players: Seq::empty(),
                    waiting_for_players: false,
                    waiting_for_players_pause_id: 0,
                    lagging_players: Seq::empty(),
                    waiting_network: false,
                    is_disconnected: false,
                },
                last_acknowledged_update: LastAcknowledgedUpdate { id: 0, frame_number: 0 },
                framed_updates: FrameWindow::fresh(limit as nat),
                player_actions_updates: FrameWindow::fresh(limit as nat),
                spawn_actions: FrameWindow::fresh(limit as nat),
                new_game_engine_state: GameEngineState::Loading,
                outbox: Seq::empty(),
            }),
    {
        let framed_updates = match FramedUpdates::new(limit) {
            Some(buffer) => buffer,
            None => {
                return None;
            },
        };
        let player_actions_updates = match FramedUpdates::new(limit) {
            Some(buffer) => buffer,
            None => {
                return None;
            },
        };
        let spawn_actions = match FramedUpdates::new(limit) {
            Some(buffer) => buffer,
            None => {
                return None;
            },
        };
        let world = ClientWorld {
            connection: None,
            room,
            game: MultiplayerGameState::new(),
            last_acknowledged_update: LastAcknowledgedUpdate { id: 0, frame_number: 0 },
            framed_updates,
            player_actions_updates,
            spawn_actions,
            new_game_engine_state: GameEngineState::Loading,
            outbox: Vec::new(),
        };
        assert(world@.outbox =~= Seq::empty());
        Some(world)
    }
}

} // verus!
