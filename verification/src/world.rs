//! What the server reports about the world, frame by frame, and what the
//! client keeps of it.
//!
//! The payload of an action is opaque here: the types are generic in the
//! walk (`W`), cast (`C`), look (`L`), mob (`M`) and spawn (`S`) payloads.

use crate::frames::FramedUpdate;
use vstd::prelude::*;

verus! {

/// Identifier the server and its clients use for connections, sessions and
/// entities.
pub type NetIdentifier = u64;

/// Number of frames the client stays behind the server's stream.
pub const INTERPOLATION_FRAME_DELAY: u64 = 10;

/// An action of one entity.
#[derive(Debug, Clone, PartialEq)]
pub struct NetUpdate<A> {
    pub entity_net_id: NetIdentifier,
    pub data: A,
}

/// An action that a client issued under an id of its own choosing.
#[derive(Debug, Clone, PartialEq)]
pub struct ClientActionUpdate<A> {
    pub client_action_id: NetIdentifier,
    pub action: A,
}

/// Player actions of one frame, by kind.
#[derive(Debug, Clone, PartialEq)]
pub struct ReceivedPlayerUpdate<W, C, L> {
    pub player_walk_actions_updates: Vec<NetUpdate<W>>,
    pub player_cast_actions_updates: Vec<NetUpdate<C>>,
    pub player_look_actions_updates: Vec<NetUpdate<L>>,
}

/// Model of a [`ReceivedPlayerUpdate`].
#[verifier::ext_equal]
pub struct PlayerUpdateView<W, C, L> {
    pub walk: Seq<NetUpdate<W>>,
    pub cast: Seq<NetUpdate<C>>,
    pub look: Seq<NetUpdate<L>>,
}

impl<W, C, L> PlayerUpdateView<W, C, L> {
    /// No action of any kind.
    pub open spec fn empty() -> Self {
        PlayerUpdateView { walk: Seq::empty(), cast: Seq::empty(), look: Seq::empty() }
    }
}

impl<W, C, L> View for ReceivedPlayerUpdate<W, C, L> {
    type V = PlayerUpdateView<W, C, L>;

    open spec fn view(&self) -> PlayerUpdateView<W, C, L> {
        PlayerUpdateView {
            walk: self.player_walk_actions_updates@,
            cast: self.player_cast_actions_updates@,
            look: self.player_look_actions_updates@,
        }
    }
}

impl<W, C, L> ReceivedPlayerUpdate<W, C, L> {
    /// An update without actions.
    pub fn new() -> (update: Self)
        ensures
            update@ == PlayerUpdateView::<W, C, L>::empty(),
    {
        ReceivedPlayerUpdate {
            player_walk_actions_updates: Vec::new(),
            player_cast_actions_updates: Vec::new(),
            player_look_actions_updates: Vec::new(),
        }
    }
}

/// One frame of an `UpdateWorld` batch.
#[derive(Debug, Clone, PartialEq)]
pub struct ServerWorldUpdate<W, C, L, M, S> {
    pub frame_number: u64,
    pub player_updates: ReceivedPlayerUpdate<W, C, L>,
    pub mob_actions_updates: Vec<NetUpdate<M>>,
    pub spawn_actions: Vec<S>,
}

/// Model of a [`ServerWorldUpdate`].
#[verifier::ext_equal]
pub struct ServerWorldUpdateView<W, C, L, M, S> {
    pub frame_number: u64,
    pub player_updates: PlayerUpdateView<W, C, L>,
    pub mob_actions_updates: Seq<NetUpdate<M>>,
    pub spawn_actions: Seq<S>,
}

impl<W, C, L, M, S> View for ServerWorldUpdate<W, C, L, M, S> {
    type V = ServerWorldUpdateView<W, C, L, M, S>;

    open spec fn view(&self) -> ServerWorldUpdateView<W, C, L, M, S> {
        ServerWorldUpdateView {
            frame_number: self.frame_number,
            player_updates: self.player_updates@,
            mob_actions_updates: self.mob_actions_updates@,
            spawn_actions: self.spawn_actions@,
        }
    }
}

/// What the client has received from the server for one frame.
#[derive(Debug, Clone, PartialEq)]
pub struct ReceivedServerWorldUpdate<W, C, L, M> {
    /// Actions of the entities this client controls.
    pub controlled_player_updates: ReceivedPlayerUpdate<W, C, L>,
    /// Actions of all other players.
    pub player_updates: ReceivedPlayerUpdate<W, C, L>,
    pub mob_actions_updates: Vec<NetUpdate<M>>,
}

/// Model of a [`ReceivedServerWorldUpdate`].
#[verifier::ext_equal]
pub struct ReceivedUpdateView<W, C, L, M> {
    pub controlled_player_updates: PlayerUpdateView<W, C, L>,
    pub player_updates: PlayerUpdateView<W, C, L>,
    pub mob_actions_updates: Seq<NetUpdate<M>>,
}

impl<W, C, L, M> View for ReceivedServerWorldUpdate<W, C, L, M> {
    type V = ReceivedUpdateView<W, C, L, M>;

    open spec fn view(&self) -> ReceivedUpdateView<W, C, L, M> {
        ReceivedUpdateView {
            controlled_player_updates: self.controlled_player_updates@,
            player_updates: self.player_updates@,
            mob_actions_updates: self.mob_actions_updates@,
        }
    }
}

impl<W, C, L, M> FramedUpdate for ReceivedServerWorldUpdate<W, C, L, M> {
    open spec fn blank() -> ReceivedUpdateView<W, C, L, M> {
        ReceivedUpdateView {
            controlled_player_updates: PlayerUpdateView::empty(),
            player_updates: PlayerUpdateView::empty(),
            mob_actions_updates: Seq::empty(),
        }
    }

    fn new_update() -> (slot: Self) {
        ReceivedServerWorldUpdate {
            controlled_player_updates: ReceivedPlayerUpdate::new(),
            player_updates: ReceivedPlayerUpdate::new(),
            mob_actions_updates: Vec::new(),
        }
    }
}

/// Entities that appear in one frame.
#[derive(Debug, Clone, PartialEq)]
pub struct SpawnActions<S> {
    pub spawn_actions: Vec<S>,
}

impl<S> View for SpawnActions<S> {
    type V = Seq<S>;

    open spec fn view(&self) -> Seq<S> {
        self.spawn_actions@
    }
}

impl<S> FramedUpdate for SpawnActions<S> {
    open spec fn blank() -> Seq<S> {
        Seq::empty()
    }

    fn new_update() -> (slot: Self) {
        SpawnActions { spawn_actions: Vec::new() }
    }
}

/// Actions that this client's own player took in one frame, not yet
/// confirmed by the server.
#[derive(Debug, Clone, PartialEq)]
pub struct PlayerActionUpdates<W, C, L> {
    pub walk_action_updates: Vec<NetUpdate<ClientActionUpdate<W>>>,
    pub cast_action_updates: Vec<NetUpdate<ClientActionUpdate<C>>>,
    pub look_action_updates: Vec<NetUpdate<L>>,
}

/// Model of a [`PlayerActionUpdates`].
#[verifier::ext_equal]
pub struct PlayerActionsView<W, C, L> {
    pub walk: Seq<NetUpdate<ClientActionUpdate<W>>>,
    pub cast: Seq<NetUpdate<ClientActionUpdate<C>>>,
    pub look: Seq<NetUpdate<L>>,
}

impl<W, C, L> View for PlayerActionUpdates<W, C, L> {
    type V = PlayerActionsView<W, C, L>;

    open spec fn view(&self) -> PlayerActionsView<W, C, L> {
        PlayerActionsView {
            walk: self.walk_action_updates@,
            cast: self.cast_action_updates@,
            look: self.look_action_updates@,
        }
    }
}

impl<W, C, L> FramedUpdate for PlayerActionUpdates<W, C, L> {
    open spec fn blank() -> PlayerActionsView<W, C, L> {
        PlayerActionsView { walk: Seq::empty(), cast: Seq::empty(), look: Seq::empty() }
    }

    fn new_update() -> (slot: Self) {
        PlayerActionUpdates {
            walk_action_updates: Vec::new(),
            cast_action_updates: Vec::new(),
            look_action_updates: Vec::new(),
        }
    }
}

} // verus!
