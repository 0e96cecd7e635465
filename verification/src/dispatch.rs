//! Routing of what the transport delivers to the state it concerns.

use crate::client::{ClientWorld, TickContext, WorldView};
use crate::error::FatalError;
use crate::frames::{lemma_reserved, views, FramedUpdate};
use crate::lifecycle::{
    join_request, join_requests, lemma_join_requests_of_sent, send_message_reliable,
    send_message_unreliable, sent,
};
use crate::messages::{
    ClientMessagePayload, ClientPayloadView, Delivery, NetEvent, NetEventView, ServerMessage,
    ServerMessagePayload, ServerPayloadView,
};
use crate::reconcile::{
    apply_world_updates, discard_walk_actions, is_stale, lemma_discard_keeps_the_window,
    lemma_sorted_by_frame, sort_by_frame,
    sorted_by_frame,
    spawn_merged, stale_error, walk_actions_discarded, world_merged,
};
use crate::state::{
    ConnectionStatus, DisconnectReason, GameEngineState, GameView, LastAcknowledgedUpdate,
    MultiplayerRoomPlayer, NetConnectionModel, RoomView, Timestamp,
};
use crate::world::{
    NetIdentifier, ReceivedServerWorldUpdate, ServerWorldUpdate, ServerWorldUpdateView,
    SpawnActions,
};
use vstd::prelude::*;

verus! {

/// A world and, where handling an event failed, the reason.
#[verifier::ext_equal]
pub struct Outcome<W, C, L, M, S> {
    pub world: WorldView<W, C, L, M, S>,
    pub error: Option<FatalError>,
}

impl<W, C, L, M, S> Outcome<W, C, L, M, S> {
    /// The outcome of a step that cannot fail.
    pub open spec fn ok(world: WorldView<W, C, L, M, S>) -> Self {
        Outcome { world, error: None }
    }

    /// The outcome as the result of a call.
    pub open spec fn result(self) -> Result<(), FatalError> {
        match self.error {
            Some(error) => Err(error),
            None => Ok(()),
        }
    }
}

/// The world after the server's handshake: the client asks to join if it
/// has not yet, is connected under the id the server gave it, and hosts the
/// room or not as the server says.
pub open spec fn handshake_received<W, C, L, M, S>(
    world: WorldView<W, C, L, M, S>,
    connection: NetConnectionModel,
    now: Timestamp,
    net_id: NetIdentifier,
    is_host: bool,
) -> WorldView<W, C, L, M, S> {
    WorldView {
        room: RoomView {
            has_sent_join_message: true,
            connection_status: ConnectionStatus::Connected(net_id),
            is_host,
            ..world.room
        },
        outbox: if world.room.has_sent_join_message {
            world.outbox
        } else {
            sent(world.outbox, connection, Delivery::Reliable, join_request(world.room, now))
        },
        ..world
    }
}

/// Handles the server's handshake.
pub fn receive_handshake<W, C, L, M, S>(
    world: &mut ClientWorld<W, C, L, M, S>,
    connection: &NetConnectionModel,
    now: Timestamp,
    net_id: NetIdentifier,
    is_host: bool,
)
    ensures
        final(world)@ == handshake_received(old(world)@, *connection, now, net_id, is_host),
{
    if !world.room.has_sent_join_message {
        world.room.has_sent_join_message = true;
        let payload = ClientMessagePayload::JoinRoom {
            sent_at: now,
            nickname: world.room.nickname.clone(),
        };
        send_message_reliable(&mut world.outbox, connection, payload);
    }
    world.room.connection_status = ConnectionStatus::Connected(net_id);
    world.room.is_host = is_host;
}

/// The world with a new roster.
pub open spec fn roster_replaced<W, C, L, M, S>(
    world: WorldView<W, C, L, M, S>,
    players: Seq<MultiplayerRoomPlayer>,
) -> WorldView<W, C, L, M, S> {
    WorldView { game: GameView { players, ..world.game }, ..world }
}

/// Replaces the roster.
pub fn replace_roster<W, C, L, M, S>(
    world: &mut ClientWorld<W, C, L, M, S>,
    players: Vec<MultiplayerRoomPlayer>,
)
    ensures
        final(world)@ == roster_replaced(old(world)@, players@),
{
    world.game.players = players;
}

/// Whether the roster holds a player with this connection.
pub open spec fn has_connection(
    players: Seq<MultiplayerRoomPlayer>,
    connection_id: NetIdentifier,
) -> bool {
    exists|i: int| 0 <= i < players.len() && (#[trigger] players[i]).connection_id == connection_id
}

/// The entity given to the last player of the roster with this connection;
/// `otherwise` if there is no such player.
pub open spec fn own_entity(
    players: Seq<MultiplayerRoomPlayer>,
    entities: Seq<NetIdentifier>,
    connection_id: NetIdentifier,
    otherwise: NetIdentifier,
) -> NetIdentifier
    decreases players.len(),
{
    if players.len() == 0 {
        otherwise
    } else if players.last().connection_id == connection_id {
        entities[players.len() - 1]
    } else {
        own_entity(players.drop_last(), entities, connection_id, otherwise)
    }
}

/// Why a game cannot start with these entities, if it cannot.
pub open spec fn start_game_error<W, C, L, M, S>(
    world: WorldView<W, C, L, M, S>,
    entities: Seq<NetIdentifier>,
) -> Option<FatalError> {
    match world.room.connection_status {
        ConnectionStatus::Connected(connection_id) => {
            if entities.len() < world.game.players.len() {
                Some(
                    FatalError::MissingEntities {
                        players: world.game.players.len() as usize,
                        entities: entities.len() as usize,
                    },
                )
            } else if !has_connection(world.game.players, connection_id) {
                Some(FatalError::PlayerNotFound { connection_id })
            } else {
                None
            }
        },
        _ => Some(FatalError::NotConnected),
    }
}

/// The world after the game has started: each player of the roster has
/// the entity at its place in the list, this client knows its own, nothing
/// of the server's stream is taken in yet, and the engine is asked to play.
pub open spec fn game_started<W, C, L, M, S>(
    world: WorldView<W, C, L, M, S>,
    entities: Seq<NetIdentifier>,
) -> WorldView<W, C, L, M, S> {
    let players = world.game.players;
    WorldView {
        room: RoomView {
            player_net_id: own_entity(
                players,
                entities,
                world.room.connection_status.spec_connection_id().unwrap(),
                world.room.player_net_id,
            ),
            ..world.room
        },
        game: GameView {
            is_playing: true,
            players: Seq::new(
                players.len(),
                |i: int|
                    MultiplayerRoomPlayer {
                        connection_id: players[i].connection_id,
                        entity_net_id: entities[i],
                    },
            ),
            ..world.game
        },
        last_acknowledged_update: LastAcknowledgedUpdate { id: 0, frame_number: 0 },
        new_game_engine_state: GameEngineState::Playing,
        ..world
    }
}

/// What the start of a game leads to.
pub open spec fn start_game_outcome<W, C, L, M, S>(
    world: WorldView<W, C, L, M, S>,
    entities: Seq<NetIdentifier>,
) -> Outcome<W, C, L, M, S> {
    match start_game_error(world, entities) {
        Some(error) => Outcome { world, error: Some(error) },
        None => Outcome::ok(game_started(world, entities)),
    }
}

/// Starts the game with the entities that the server assigned, one for each
/// player of the roster in order. Nothing changes where the game cannot
/// start.
pub fn start_game<W, C, L, M, S>(
    world: &mut ClientWorld<W, C, L, M, S>,
    entity_net_ids: Vec<NetIdentifier>,
) -> (result: Result<(), FatalError>)
    ensures
        result == start_game_outcome(old(world)@, entity_net_ids@).result(),
        final(world)@ == start_game_outcome(old(world)@, entity_net_ids@).world,
{
    let ghost players = world.game.players@;
    let ghost entities = entity_net_ids@;
    let connection_id = match world.room.connection_status.connection_id() {
        Some(id) => id,
        None => {
            return Err(FatalError::NotConnected);
        },
    };
    let count = world.game.players.len();
    if entity_net_ids.len() < count {
        return Err(FatalError::MissingEntities { players: count, entities: entity_net_ids.len() });
    }
    let mut found = false;
    let mut own = world.room.player_net_id;
    let mut i: usize = 0;
    assert(players.take(0) =~= Seq::empty());
    while i < count
        invariant
            i <= count,
            count == players.len(),
            count <= entities.len(),
            players == world.game.players@,
            entities == entity_net_ids@,
            found == has_connection(players.take(i as int), connection_id),
            own == own_entity(
                players.take(i as int),
                entities,
                connection_id,
                old(world).room.player_net_id,
            ),
        decreases count - i,
    {
        let ghost before = players.take(i as int);
        let ghost after = players.take(i + 1);
        assert(after.drop_last() =~= before);
        assert(after.last() == players[i as int]);
        if world.game.players[i].connection_id == connection_id {
            found = true;
            own = entity_net_ids[i];
            assert(after[i as int].connection_id == connection_id);
        } else {
            proof {
                if has_connection(before, connection_id) {
                    let j = choose|j: int|
                        0 <= j < before.len() && (#[trigger] before[j]).connection_id
                            == connection_id;
                    assert(after[j] == before[j]);
                }
                if has_connection(after, connection_id) {
                    let j = choose|j: int|
                        0 <= j < after.len() && (#[trigger] after[j]).connection_id == connection_id;
                    assert(before[j] == after[j]);
                }
            }
        }
        i = i + 1;
    }
    assert(players.take(count as int) =~= players);
    if !found {
        return Err(FatalError::PlayerNotFound { connection_id });
    }
    let mut k: usize = 0;
    while k < count
        invariant
            k <= count,
            count == players.len(),
            count <= entities.len(),
            entities == entity_net_ids@,
            world.game.players@.len() == count,
            forall|j: int|
                0 <= j < count ==> #[trigger] world.game.players@[j] == (if j < k {
                    MultiplayerRoomPlayer {
                        connection_id: players[j].connection_id,
                        entity_net_id: entities[j],
                    }
                } else {
                    players[j]
                }),
            world.game.is_playing == old(world).game.is_playing,
            world.game.waiting_for_players == old(world).game.waiting_for_players,
            world.game.waiting_for_players_pause_id == old(world).game.waiting_for_players_pause_id,
            world.game.lagging_players == old(world).game.lagging_players,
            world.game.waiting_network == old(world).game.waiting_network,
            world.game.is_disconnected == old(world).game.is_disconnected,
            world.connection == old(world).connection,
            world.room == old(world).room,
            world.last_acknowledged_update == old(world).last_acknowledged_update,
            world.framed_updates == old(world).framed_updates,
            world.player_actions_updates == old(world).player_actions_updates,
            world.spawn_actions == old(world).spawn_actions,
            world.new_game_engine_state == old(world).new_game_engine_state,
            world.outbox == old(world).outbox,
        decreases count - k,
    {
        let player = world.game.players[k];
        world.game.players.set(
            k,
            MultiplayerRoomPlayer {
                connection_id: player.connection_id,
                entity_net_id: entity_net_ids[k],
            },
        );
        k = k + 1;
    }
    world.room.player_net_id = own;
    world.last_acknowledged_update = LastAcknowledgedUpdate { id: 0, frame_number: 0 };
    world.game.is_playing = true;
    world.new_game_engine_state = GameEngineState::Playing;
    assert(world@.game.players =~= game_started(old(world)@, entities).game.players);
    Ok(())
}

/// The larger of two frames.
pub open spec fn later(a: u64, b: u64) -> u64 {
    if a >= b {
        a
    } else {
        b
    }
}

/// The highest frame that a batch in order reports; 0 for an empty one.
pub open spec fn last_frame<W, C, L, M, S>(batch: Seq<ServerWorldUpdateView<W, C, L, M, S>>) -> u64 {
    if batch.len() > 0 {
        batch.last().frame_number
    } else {
        0
    }
}

/// What a batch of world updates leads to. It is acknowledged in any
/// case. A batch with an id above the last one taken in is taken in: put in
/// order, noted as the last one, the buffers grown to reach the highest frame
/// known or simulated, and merged. A stale batch fails at the merge.
pub open spec fn world_update_outcome<W, C, L, M, S>(
    world: WorldView<W, C, L, M, S>,
    connection: NetConnectionModel,
    game_frame_number: u64,
    id: NetIdentifier,
    updates: Seq<ServerWorldUpdateView<W, C, L, M, S>>,
) -> Outcome<W, C, L, M, S> {
    let acknowledged = WorldView {
        outbox: sent(
            world.outbox,
            connection,
            Delivery::Unreliable,
            ClientPayloadView::AcknowledgeWorldUpdate(id),
        ),
        ..world
    };
    if world.last_acknowledged_update.id < id {
        let batch = sorted_by_frame(updates);
        let frame_number = later(world.last_acknowledged_update.frame_number, last_frame(batch));
        let reach = later(frame_number, game_frame_number);
        let framed_updates = world.framed_updates.reserved(
            reach,
            ReceivedServerWorldUpdate::<W, C, L, M>::blank(),
        );
        let spawn_actions = world.spawn_actions.reserved(reach, SpawnActions::<S>::blank());
        let absorbed = WorldView {
            last_acknowledged_update: LastAcknowledgedUpdate { id, frame_number },
            framed_updates,
            spawn_actions,
            ..acknowledged
        };
        if is_stale(framed_updates, batch) {
            Outcome { world: absorbed, error: Some(stale_error(framed_updates, batch)) }
        } else {
            Outcome::ok(
                WorldView {
                    framed_updates: world_merged(
                        framed_updates,
                        batch,
                        seq![world.room.player_net_id],
                    ),
                    spawn_actions: spawn_merged(spawn_actions, batch),
                    ..absorbed
                },
            )
        }
    } else {
        Outcome::ok(acknowledged)
    }
}

/// Handles a batch of world updates.
pub fn receive_world_update<W, C, L, M, S>(
    world: &mut ClientWorld<W, C, L, M, S>,
    connection: &NetConnectionModel,
    game_frame_number: u64,
    id: NetIdentifier,
    updates: Vec<ServerWorldUpdate<W, C, L, M, S>>,
) -> (result: Result<(), FatalError>)
    ensures
        result == world_update_outcome(
            old(world)@,
            *connection,
            game_frame_number,
            id,
            views(updates@),
        ).result(),
        final(world)@ == world_update_outcome(
            old(world)@,
            *connection,
            game_frame_number,
            id,
            views(updates@),
        ).world,
{
    send_message_unreliable(
        &mut world.outbox,
        connection,
        ClientMessagePayload::AcknowledgeWorldUpdate(id),
    );
    if world.last_acknowledged_update.id < id {
        let updates = sort_by_frame(updates);
        let count = updates.len();
        let last = if count > 0 {
            assert(views(updates@).last() == updates@[count - 1]@);
            updates[count - 1].frame_number
        } else {
            0
        };
        let frame_number = if world.last_acknowledged_update.frame_number >= last {
            world.last_acknowledged_update.frame_number
        } else {
            last
        };
        world.last_acknowledged_update = LastAcknowledgedUpdate { id, frame_number };
        let reach = if frame_number >= game_frame_number {
            frame_number
        } else {
            game_frame_number
        };
        world.framed_updates.reserve_updates(reach);
        world.spawn_actions.reserve_updates(reach);
        let mut controlled: Vec<NetIdentifier> = Vec::new();
        controlled.push(world.room.player_net_id);
        assert(controlled@ =~= seq![world.room.player_net_id]);
        apply_world_updates(
            controlled,
            &mut world.framed_updates,
            &mut world.spawn_actions,
            updates,
        )
    } else {
        Ok(())
    }
}

/// The world after the server has discarded walk actions of this client.
pub open spec fn walk_actions_dropped<W, C, L, M, S>(
    world: WorldView<W, C, L, M, S>,
    ids: Seq<NetIdentifier>,
) -> WorldView<W, C, L, M, S> {
    WorldView {
        player_actions_updates: walk_actions_discarded(world.player_actions_updates, ids),
        ..world
    }
}

/// The world after a notice that players lag. A notice that is not newer
/// than the last one applied changes nothing.
pub open spec fn pause_noted<W, C, L, M, S>(
    world: WorldView<W, C, L, M, S>,
    id: NetIdentifier,
    players: Seq<NetIdentifier>,
) -> WorldView<W, C, L, M, S> {
    if world.game.waiting_for_players_pause_id < id {
        WorldView {
            game: GameView {
                waiting_for_players_pause_id: id,
                lagging_players: players,
                ..world.game
            },
            ..world
        }
    } else {
        world
    }
}

/// Takes note that players lag. Whether to halt is decided at the end of
/// the tick.
pub fn note_pause<W, C, L, M, S>(
    world: &mut ClientWorld<W, C, L, M, S>,
    id: NetIdentifier,
    players: Vec<NetIdentifier>,
)
    ensures
        final(world)@ == pause_noted(old(world)@, id, players@),
{
    if world.game.waiting_for_players_pause_id < id {
        world.game.waiting_for_players_pause_id = id;
        world.game.lagging_players = players;
    }
}

/// The world after a notice that nobody lags any more. A notice older
/// than the last one applied changes nothing.
pub open spec fn unpause_noted<W, C, L, M, S>(
    world: WorldView<W, C, L, M, S>,
    id: NetIdentifier,
) -> WorldView<W, C, L, M, S> {
    if world.game.waiting_for_players_pause_id <= id {
        WorldView {
            game: GameView {
                waiting_for_players: false,
                waiting_for_players_pause_id: id,
                lagging_players: Seq::empty(),
                ..world.game
            },
            ..world
        }
    } else {
        world
    }
}

/// Takes note that nobody lags any more.
pub fn note_unpause<W, C, L, M, S>(world: &mut ClientWorld<W, C, L, M, S>, id: NetIdentifier)
    ensures
        final(world)@ == unpause_noted(old(world)@, id),
{
    if world.game.waiting_for_players_pause_id <= id {
        world.game.waiting_for_players = false;
        world.game.waiting_for_players_pause_id = id;
        world.game.lagging_players.clear();
    }
}

/// The world after the server has ended the connection. A client that is
/// not connected anyway, or that is closing down by its own decision, keeps
/// its status.
pub open spec fn peer_disconnected<W, C, L, M, S>(
    world: WorldView<W, C, L, M, S>,
    reason: DisconnectReason,
) -> WorldView<W, C, L, M, S> {
    if world.room.connection_status.spec_is_not_connected() || world.room.connection_status
        is Disconnecting {
        world
    } else {
        WorldView {
            room: RoomView {
                connection_status: ConnectionStatus::Disconnected(Some(reason)),
                ..world.room
            },
            ..world
        }
    }
}

/// Handles the server's goodbye.
pub fn receive_disconnect<W, C, L, M, S>(
    world: &mut ClientWorld<W, C, L, M, S>,
    reason: DisconnectReason,
)
    ensures
        final(world)@ == peer_disconnected(old(world)@, reason),
{
    if !world.room.connection_status.is_not_connected() {
        let is_shutting_down_by_host = match world.room.connection_status {
            ConnectionStatus::Disconnecting => true,
            _ => false,
        };
        if !is_shutting_down_by_host {
            world.room.connection_status = ConnectionStatus::Disconnected(Some(reason));
        }
    }
}

/// Whether the loss of the transport's connection at `now` is passed over:
/// the client is not connected anyway, or it began to connect less than a
/// second ago and the loss is that of an earlier attempt.
pub open spec fn ignores_connection_loss(status: ConnectionStatus, now: Timestamp) -> bool {
    match status {
        ConnectionStatus::Connecting(started_at) => now.within_a_second_of(started_at),
        _ => status.spec_is_not_connected(),
    }
}

/// The world after the transport has lost its connection.
pub open spec fn connection_lost<W, C, L, M, S>(
    world: WorldView<W, C, L, M, S>,
    now: Timestamp,
) -> WorldView<W, C, L, M, S> {
    if ignores_connection_loss(world.room.connection_status, now) {
        world
    } else {
        WorldView {
            room: RoomView {
                connection_status: ConnectionStatus::ConnectionFailed(None),
                ..world.room
            },
            ..world
        }
    }
}

/// Handles the loss of the transport's connection.
pub fn lose_connection<W, C, L, M, S>(world: &mut ClientWorld<W, C, L, M, S>, now: Timestamp)
    ensures
        final(world)@ == connection_lost(old(world)@, now),
{
    let is_not_connected = match world.room.connection_status {
        ConnectionStatus::Connecting(started_at) => now.is_within_a_second_of(&started_at),
        _ => world.room.connection_status.is_not_connected(),
    };
    if !is_not_connected {
        world.room.connection_status = ConnectionStatus::ConnectionFailed(None);
    }
}

/// Whether an event is passed over without a trace:
/// - anything while there is no connection;
/// - anything but a handshake or the loss of the connection, once this
///   side has closed the connection;
/// - a message from another session;
/// - a message of the lobby while the game is on.
pub open spec fn is_dropped<W, C, L, M, S>(
    world: WorldView<W, C, L, M, S>,
    event: NetEventView<W, C, L, M, S>,
) -> bool {
    match world.connection {
        None => true,
        Some(connection) => match event {
            NetEventView::Message { session_id, payload } => {
                ||| connection.disconnected && !(payload is Handshake)
                ||| session_id != connection.session_id
                ||| world.game.is_playing && payload.is_lobby()
            },
            NetEventView::Disconnected => false,
            NetEventView::Connected => connection.disconnected,
        },
    }
}

/// What an event leads to.
pub open spec fn dispatched<W, C, L, M, S>(
    world: WorldView<W, C, L, M, S>,
    tick: TickContext,
    event: NetEventView<W, C, L, M, S>,
) -> Outcome<W, C, L, M, S> {
    if is_dropped(world, event) {
        Outcome::ok(world)
    } else {
        let connection = world.connection.unwrap();
        match event {
            NetEventView::Message { session_id, payload } => match payload {
                ServerPayloadView::Heartbeat => Outcome::ok(world),
                ServerPayloadView::Ping(_) => Outcome::ok(world),
                ServerPayloadView::Pong { .. } => Outcome::ok(world),
                ServerPayloadView::Handshake { net_id, is_host } => Outcome::ok(
                    handshake_received(world, connection, tick.unix_time, net_id, is_host),
                ),
                ServerPayloadView::UpdateRoomPlayers(players) => Outcome::ok(
                    roster_replaced(world, players),
                ),
                ServerPayloadView::StartGame(entities) => start_game_outcome(world, entities),
                ServerPayloadView::UpdateWorld { id, updates } => world_update_outcome(
                    world,
                    connection,
                    tick.game_frame_number,
                    id,
                    updates,
                ),
                ServerPayloadView::DiscardWalkActions(ids) => Outcome::ok(
                    walk_actions_dropped(world, ids),
                ),
                ServerPayloadView::PauseWaitingForPlayers { id, players } => Outcome::ok(
                    pause_noted(world, id, players),
                ),
                ServerPayloadView::UnpauseWaitingForPlayers(id) => Outcome::ok(
                    unpause_noted(world, id),
                ),
                ServerPayloadView::Disconnect(reason) => Outcome::ok(
                    peer_disconnected(world, reason),
                ),
            },
            NetEventView::Disconnected => Outcome::ok(connection_lost(world, tick.monotonic_time)),
            NetEventView::Connected => Outcome::ok(world),
        }
    }
}

/// Handles one event of the transport.
pub fn dispatch_event<W, C, L, M, S>(
    world: &mut ClientWorld<W, C, L, M, S>,
    tick: &TickContext,
    event: NetEvent<W, C, L, M, S>,
) -> (result: Result<(), FatalError>)
    ensures
        result == dispatched(old(world)@, *tick, event@).result(),
        final(world)@ == dispatched(old(world)@, *tick, event@).world,
{
    let connection = match world.connection {
        Some(connection) => connection,
        None => {
            return Ok(());
        },
    };
    match event {
        NetEvent::Message(ServerMessage { session_id, payload }) => {
            if session_id != connection.session_id {
                return Ok(());
            }
            match payload {
                ServerMessagePayload::Handshake { net_id, is_host } => {
                    if !world.game.is_playing {
                        receive_handshake(world, &connection, tick.unix_time, net_id, is_host);
                    }
                    Ok(())
                },
                other => {
                    if connection.disconnected {
                        return Ok(());
                    }
                    match other {
                        ServerMessagePayload::Heartbeat => Ok(()),
                        ServerMessagePayload::Ping(_) => Ok(()),
                        ServerMessagePayload::Pong { .. } => Ok(()),
                        ServerMessagePayload::Handshake { .. } => Ok(()),
                        ServerMessagePayload::UpdateRoomPlayers(players) => {
                            if !world.game.is_playing {
                                replace_roster(world, players);
                            }
                            Ok(())
                        },
                        ServerMessagePayload::StartGame(entity_net_ids) => {
                            if !world.game.is_playing {
                                start_game(world, entity_net_ids)
                            } else {
                                Ok(())
                            }
                        },
                        ServerMessagePayload::UpdateWorld { id, updates } => receive_world_update(
                            world,
                            &connection,
                            tick.game_frame_number,
                            id,
                            updates,
                        ),
                        ServerMessagePayload::DiscardWalkActions(ids) => {
                            discard_walk_actions(&mut world.player_actions_updates, ids);
                            Ok(())
                        },
                        ServerMessagePayload::PauseWaitingForPlayers { id, players } => {
                            note_pause(world, id, players);
                            Ok(())
                        },
                        ServerMessagePayload::UnpauseWaitingForPlayers(id) => {
                            note_unpause(world, id);
                            Ok(())
                        },
                        ServerMessagePayload::Disconnect(reason) => {
                            receive_disconnect(world, reason);
                            Ok(())
                        },
                    }
                },
            }
        },
        NetEvent::Disconnected => {
            lose_connection(world, tick.monotonic_time);
            Ok(())
        },
        NetEvent::Connected => Ok(()),
    }
}

/// What a queue of events leads to, handled in the order of arrival up to
/// the first one that fails.
pub open spec fn dispatched_all<W, C, L, M, S>(
    world: WorldView<W, C, L, M, S>,
    tick: TickContext,
    events: Seq<NetEventView<W, C, L, M, S>>,
) -> Outcome<W, C, L, M, S>
    decreases events.len(),
{
    if events.len() == 0 {
        Outcome::ok(world)
    } else {
        let before = dispatched_all(world, tick, events.drop_last());
        if before.error is Some {
            before
        } else {
            dispatched(before.world, tick, events.last())
        }
    }
}

/// Handles the events of the transport in the order they arrived. The
/// first failure ends the run.
pub fn dispatch_events<W, C, L, M, S>(
    world: &mut ClientWorld<W, C, L, M, S>,
    tick: &TickContext,
    events: Vec<NetEvent<W, C, L, M, S>>,
) -> (result: Result<(), FatalError>)
    ensures
        result == dispatched_all(old(world)@, *tick, views(events@)).result(),
        final(world)@ == dispatched_all(old(world)@, *tick, views(events@)).world,
{
    let ghost queue = views(events@);
    let count = events.len();
    let mut i: usize = 0;
    assert(queue.take(0) =~= Seq::empty());
    for event in it: events
        invariant
            i == it.index(),
            it.seq() == events@,
            count == events@.len(),
            queue == views(events@),
            dispatched_all(old(world)@, *tick, queue.take(i as int)).error is None,
            world@ == dispatched_all(old(world)@, *tick, queue.take(i as int)).world,
    {
        assert(queue.take(i + 1).drop_last() =~= queue.take(i as int));
        assert(queue.take(i + 1).last() == event@);
        let ghost rest = queue.skip(i + 1);
        match dispatch_event(world, tick, event) {
            Ok(()) => {},
            Err(error) => {
                proof {
                    lemma_dispatch_stops(old(world)@, *tick, queue.take(i + 1), rest);
                    assert(queue.take(i + 1) + rest =~= queue);
                }
                return Err(error);
            },
        }
        i = i + 1;
    }
    assert(queue.take(i as int) =~= queue);
    Ok(())
}

/// Once handling has failed, what arrives later changes nothing.
pub proof fn lemma_dispatch_stops<W, C, L, M, S>(
    world: WorldView<W, C, L, M, S>,
    tick: TickContext,
    events: Seq<NetEventView<W, C, L, M, S>>,
    later_events: Seq<NetEventView<W, C, L, M, S>>,
)
    requires
        dispatched_all(world, tick, events).error is Some,
    ensures
        dispatched_all(world, tick, events + later_events) == dispatched_all(world, tick, events),
    decreases later_events.len(),
{
    if later_events.len() == 0 {
        assert(events + later_events =~= events);
    } else {
        lemma_dispatch_stops(world, tick, events, later_events.drop_last());
        assert((events + later_events).drop_last() =~= events + later_events.drop_last());
    }
}

/// Handling events neither opens nor drops nor changes the connection.
pub proof fn lemma_dispatch_keeps_connection<W, C, L, M, S>(
    world: WorldView<W, C, L, M, S>,
    tick: TickContext,
    events: Seq<NetEventView<W, C, L, M, S>>,
)
    ensures
        dispatched_all(world, tick, events).world.connection == world.connection,
    decreases events.len(),
{
    if events.len() > 0 {
        lemma_dispatch_keeps_connection(world, tick, events.drop_last());
    }
}

/// A batch of world updates that arrives a second time is acknowledged
/// again and changes nothing else: buffers and the note of what was taken in
/// stay as the first arrival left them.
pub proof fn lemma_world_update_is_idempotent<W, C, L, M, S>(
    world: WorldView<W, C, L, M, S>,
    connection: NetConnectionModel,
    game_frame_number: u64,
    id: NetIdentifier,
    updates: Seq<ServerWorldUpdateView<W, C, L, M, S>>,
)
    ensures
        ({
            let once = world_update_outcome(world, connection, game_frame_number, id, updates);
            let twice = world_update_outcome(once.world, connection, game_frame_number, id, updates);
            &&& twice.error is None
            &&& twice.world == (WorldView {
                outbox: sent(
                    once.world.outbox,
                    connection,
                    Delivery::Unreliable,
                    ClientPayloadView::AcknowledgeWorldUpdate(id),
                ),
                ..once.world
            })
        }),
{
}

/// After a batch of world updates, the id noted as taken in is the larger
/// of the one noted before and the batch's own: it never goes down.
pub proof fn lemma_world_update_raises_id<W, C, L, M, S>(
    world: WorldView<W, C, L, M, S>,
    connection: NetConnectionModel,
    game_frame_number: u64,
    id: NetIdentifier,
    updates: Seq<ServerWorldUpdateView<W, C, L, M, S>>,
)
    ensures
        world_update_outcome(
            world,
            connection,
            game_frame_number,
            id,
            updates,
        ).world.last_acknowledged_update.id == later(world.last_acknowledged_update.id, id),
        world_update_outcome(
            world,
            connection,
            game_frame_number,
            id,
            updates,
        ).world.last_acknowledged_update.frame_number
            >= world.last_acknowledged_update.frame_number,
{
}

/// The largest id among the batches of world updates that a queue holds
/// for the session `session_id`, and `floor` if none is larger.
pub open spec fn largest_id<W, C, L, M, S>(
    events: Seq<NetEventView<W, C, L, M, S>>,
    session_id: NetIdentifier,
    floor: NetIdentifier,
) -> NetIdentifier
    decreases events.len(),
{
    if events.len() == 0 {
        floor
    } else {
        let before = largest_id(events.drop_last(), session_id, floor);
        match events.last() {
            NetEventView::Message {
                session_id: session,
                payload: ServerPayloadView::UpdateWorld { id, .. },
            } => if session == session_id {
                later(before, id)
            } else {
                before
            },
            _ => before,
        }
    }
}

/// While the game is played on a connection that is open on this side,
/// over any queue of events that are all handled, whatever else arrives
/// between the batches of world updates, the id noted as taken in ends up as
/// the largest id received in the session, or stays where it was if that is
/// larger: it never goes down.
pub proof fn lemma_acknowledged_id_is_largest<W, C, L, M, S>(
    world: WorldView<W, C, L, M, S>,
    tick: TickContext,
    events: Seq<NetEventView<W, C, L, M, S>>,
)
    requires
        world.connection is Some,
        !world.connection.unwrap().disconnected,
        world.game.is_playing,
        dispatched_all(world, tick, events).error is None,
    ensures
        dispatched_all(world, tick, events).world.last_acknowledged_update.id == largest_id(
            events,
            world.connection.unwrap().session_id,
            world.last_acknowledged_update.id,
        ),
        dispatched_all(world, tick, events).world.last_acknowledged_update.id
            >= world.last_acknowledged_update.id,
        dispatched_all(world, tick, events).world.game.is_playing,
    decreases events.len(),
{
    if events.len() > 0 {
        let earlier = events.drop_last();
        lemma_dispatch_keeps_connection(world, tick, earlier);
        lemma_acknowledged_id_is_largest(world, tick, earlier);
    }
}

/// A message from another session than the connection's leaves no trace.
pub proof fn lemma_other_session_is_ignored<W, C, L, M, S>(
    world: WorldView<W, C, L, M, S>,
    tick: TickContext,
    session_id: NetIdentifier,
    payload: ServerPayloadView<W, C, L, M, S>,
)
    requires
        world.connection matches Some(connection) ==> session_id != connection.session_id,
    ensures
        dispatched(world, tick, NetEventView::Message { session_id, payload }) == Outcome::ok(world),
{
}

/// Whether an event is a message from another session than `session_id`.
pub open spec fn is_from_other_session<W, C, L, M, S>(
    event: NetEventView<W, C, L, M, S>,
    session_id: NetIdentifier,
) -> bool {
    event matches NetEventView::Message { session_id: other, .. } && other != session_id
}

/// A queue of events without the messages from other sessions than
/// `session_id`.
pub open spec fn of_session<W, C, L, M, S>(
    events: Seq<NetEventView<W, C, L, M, S>>,
    session_id: NetIdentifier,
) -> Seq<NetEventView<W, C, L, M, S>>
    decreases events.len(),
{
    if events.len() == 0 {
        events
    } else if is_from_other_session(events.last(), session_id) {
        of_session(events.drop_last(), session_id)
    } else {
        of_session(events.drop_last(), session_id).push(events.last())
    }
}

/// Messages from other sessions, wherever they stand in the queue, make no
/// difference to what the queue leads to.
pub proof fn lemma_other_sessions_make_no_difference<W, C, L, M, S>(
    world: WorldView<W, C, L, M, S>,
    tick: TickContext,
    events: Seq<NetEventView<W, C, L, M, S>>,
)
    requires
        world.connection is Some,
    ensures
        dispatched_all(world, tick, events) == dispatched_all(
            world,
            tick,
            of_session(events, world.connection.unwrap().session_id),
        ),
    decreases events.len(),
{
    if events.len() > 0 {
        let session_id = world.connection.unwrap().session_id;
        let earlier = events.drop_last();
        lemma_other_sessions_make_no_difference(world, tick, earlier);
        lemma_dispatch_keeps_connection(world, tick, earlier);
        if !is_from_other_session(events.last(), session_id) {
            assert(of_session(events, session_id).drop_last() =~= of_session(earlier, session_id));
        }
    }
}

/// After a batch of world updates is taken in and merged, the mark of the
/// world buffer stands within the frames that the buffer holds. The spawn
/// buffer's mark is the first frame of the batch, and stands within the spawn
/// buffer where that buffer holds the same frames as the world buffer, which
/// it goes on doing.
pub proof fn lemma_mark_is_in_window<W, C, L, M, S>(
    world: WorldView<W, C, L, M, S>,
    connection: NetConnectionModel,
    game_frame_number: u64,
    id: NetIdentifier,
    updates: Seq<ServerWorldUpdateView<W, C, L, M, S>>,
)
    requires
        world.framed_updates.wf(),
        world.spawn_actions.wf(),
        world.last_acknowledged_update.id < id,
        updates.len() > 0,
        world_update_outcome(world, connection, game_frame_number, id, updates).error is None,
    ensures
        world_update_outcome(
            world,
            connection,
            game_frame_number,
            id,
            updates,
        ).world.framed_updates.mark_in_window(),
        world_update_outcome(
            world,
            connection,
            game_frame_number,
            id,
            updates,
        ).world.spawn_actions.oldest_updated_frame == sorted_by_frame(updates)[0].frame_number,
        world.spawn_actions.same_frames_as(world.framed_updates) ==> {
            let after = world_update_outcome(
                world,
                connection,
                game_frame_number,
                id,
                updates,
            ).world;
            &&& after.spawn_actions.same_frames_as(after.framed_updates)
            &&& after.spawn_actions.mark_in_window()
        },
{
    let batch = sorted_by_frame(updates);
    lemma_sorted_by_frame(updates);
    let frame_number = later(world.last_acknowledged_update.frame_number, last_frame(batch));
    let reach = later(frame_number, game_frame_number);
    lemma_reserved(world.framed_updates, reach, ReceivedServerWorldUpdate::<W, C, L, M>::blank());
    lemma_reserved(world.spawn_actions, reach, SpawnActions::<S>::blank());
    assert(batch[0].frame_number <= batch[batch.len() - 1].frame_number);
}

/// A discard of walk actions leaves the mark of the buffer of own actions
/// within the frames that the buffer holds, if it stood there; where the
/// discard moves the mark, it moves it down to a frame that the buffer holds.
pub proof fn lemma_discard_marks_within_the_window<W, C, L, M, S>(
    world: WorldView<W, C, L, M, S>,
    ids: Seq<NetIdentifier>,
)
    ensures
        world.player_actions_updates.mark_in_window() ==> walk_actions_dropped(
            world,
            ids,
        ).player_actions_updates.mark_in_window(),
        walk_actions_dropped(world, ids).player_actions_updates.oldest_updated_frame
            != world.player_actions_updates.oldest_updated_frame ==> walk_actions_dropped(
            world,
            ids,
        ).player_actions_updates.mark_in_window(),
        walk_actions_dropped(world, ids).player_actions_updates.oldest_updated_frame
            <= world.player_actions_updates.oldest_updated_frame,
{
    lemma_discard_keeps_the_window(world.player_actions_updates, ids);
}

/// Once the client has asked to join, handling events sends no further
/// request to join.
pub proof fn lemma_dispatch_joins_once<W, C, L, M, S>(
    world: WorldView<W, C, L, M, S>,
    tick: TickContext,
    events: Seq<NetEventView<W, C, L, M, S>>,
)
    requires
        world.room.has_sent_join_message,
    ensures
        dispatched_all(world, tick, events).world.room.has_sent_join_message,
        join_requests(dispatched_all(world, tick, events).world.outbox) == join_requests(
            world.outbox,
        ),
    decreases events.len(),
{
    if events.len() > 0 {
        lemma_dispatch_joins_once(world, tick, events.drop_last());
        let before = dispatched_all(world, tick, events.drop_last());
        if before.error is None && !is_dropped(before.world, events.last()) {
            let connection = before.world.connection.unwrap();
            match events.last() {
                NetEventView::Message {
                    payload: ServerPayloadView::UpdateWorld { id, .. },
                    ..
                } => {
                    lemma_join_requests_of_sent(
                        before.world.outbox,
                        connection,
                        Delivery::Unreliable,
                        ClientPayloadView::AcknowledgeWorldUpdate(id),
                    );
                },
                _ => {},
            }
        }
    }
}

} // verus!
