//! The network tick: one pass over everything that happened since the
//! last one.

use crate::client::{ClientWorld, TickContext, WorldView};
use crate::dispatch::{
    dispatch_events, dispatched_all, largest_id, lemma_acknowledged_id_is_largest,
    lemma_dispatch_joins_once, lemma_dispatch_keeps_connection,
};
use crate::error::FatalError;
use crate::frames::views;
use crate::lifecycle::{
    announce_start, connection_opened, following_session_id, join_requests, leave_if_asked, left,
    lemma_join_requests_of_sent, note_server_exit, open_connection, opens_connection,
    send_message_reliable, sent, server_exit_noted, start_announced, start_is_due,
};
use crate::messages::{ClientMessagePayload, ClientPayloadView, Delivery, NetEvent, NetEventView};
use crate::pacing::{
    await_players, beat, heartbeat_is_due, network_paced, pace_network, players_awaited,
};
use crate::state::{GameView, NetConnectionModel};
use crate::world::NetIdentifier;
use vstd::prelude::*;

verus! {

/// What the user asked of the network through the interface.
#[derive(Debug, Clone, Copy, PartialEq, Eq)]
pub enum UiNetworkCommand {
    Host,
    Connect,
    /// Remove the player at this place of the roster from the room.
    Kick { player_number: usize },
    Start,
    Leave,
    Reset,
}

/// Drives the client's side of the protocol, tick by tick.
#[derive(Debug, Clone, Copy, PartialEq, Eq)]
pub struct ClientNetworkSystem {
    /// Session id that the next connection gets.
    pub session_id_autoinc: NetIdentifier,
    /// Engine frame of the last heartbeat.
    pub last_heartbeat_frame: u64,
}

/// A system, a world and, where the tick failed, the reason.
#[verifier::ext_equal]
pub struct TickOutcome<W, C, L, M, S> {
    pub system: ClientNetworkSystem,
    pub world: WorldView<W, C, L, M, S>,
    pub error: Option<FatalError>,
    /// Whether the tick got as far as the events and took them off the
    /// queue.
    pub drained: bool,
}

impl<W, C, L, M, S> TickOutcome<W, C, L, M, S> {
    /// The outcome as the result of a call.
    pub open spec fn result(self) -> Result<(), FatalError> {
        match self.error {
            Some(error) => Err(error),
            None => Ok(()),
        }
    }
}

/// The connection to the server, which a message for it needs.
pub fn server_connection<W, C, L, M, S>(world: &ClientWorld<W, C, L, M, S>) -> (connection: Result<
    NetConnectionModel,
    FatalError,
>)
    ensures
        connection == (match world@.connection {
            Some(model) => Ok::<NetConnectionModel, FatalError>(model),
            None => Err::<NetConnectionModel, FatalError>(FatalError::NoServerConnection),
        }),
{
    match world.connection {
        Some(model) => Ok(model),
        None => Err(FatalError::NoServerConnection),
    }
}

/// Why a command of the user cannot be carried out, if it cannot.
pub open spec fn ui_command_error<W, C, L, M, S>(
    world: WorldView<W, C, L, M, S>,
    command: UiNetworkCommand,
) -> Option<FatalError> {
    match command {
        UiNetworkCommand::Kick { player_number } => {
            if world.connection is None {
                Some(FatalError::NoServerConnection)
            } else if player_number >= world.game.players.len() {
                Some(FatalError::UnknownPlayer { player_number })
            } else {
                None
            }
        },
        _ => None,
    }
}

/// The world after a command of the user that can be carried out. A kick
/// is passed on to the server; the other commands are not the network's
/// business.
pub open spec fn ui_command_processed<W, C, L, M, S>(
    world: WorldView<W, C, L, M, S>,
    command: UiNetworkCommand,
) -> WorldView<W, C, L, M, S> {
    match command {
        UiNetworkCommand::Kick { player_number } => WorldView {
            outbox: sent(
                world.outbox,
                world.connection.unwrap(),
                Delivery::Reliable,
                ClientPayloadView::Kick {
                    kicked_connection_id: world.game.players[player_number as int].connection_id,
                },
            ),
            ..world
        },
        _ => world,
    }
}

/// Carries out a command of the user that can be carried out: a kick
/// needs a connection and a player at the given place of the roster.
pub fn process_ui_network_command<W, C, L, M, S>(
    ui_network_command: UiNetworkCommand,
    world: &mut ClientWorld<W, C, L, M, S>,
)
    requires
        ui_command_error(old(world)@, ui_network_command) is None,
    ensures
        final(world)@ == ui_command_processed(old(world)@, ui_network_command),
{
    match ui_network_command {
        UiNetworkCommand::Kick { player_number } => {
            match world.connection {
                Some(connection) => {
                    let kicked_connection_id = world.game.players[player_number].connection_id;
                    send_message_reliable(
                        &mut world.outbox,
                        &connection,
                        ClientMessagePayload::Kick { kicked_connection_id },
                    );
                },
                None => {},
            }
        },
        _ => {},
    }
}

/// Carries out a command of the user if it can be carried out, and says
/// why not if it cannot. Nothing changes where it cannot.
pub fn submit_ui_network_command<W, C, L, M, S>(
    ui_network_command: UiNetworkCommand,
    world: &mut ClientWorld<W, C, L, M, S>,
) -> (result: Result<(), FatalError>)
    ensures
        result == (match ui_command_error(old(world)@, ui_network_command) {
            Some(error) => Err::<(), FatalError>(error),
            None => Ok::<(), FatalError>(()),
        }),
        final(world)@ == (if ui_command_error(old(world)@, ui_network_command) is Some {
            old(world)@
        } else {
            ui_command_processed(old(world)@, ui_network_command)
        }),
{
    match ui_network_command {
        UiNetworkCommand::Kick { player_number } => {
            match server_connection(world) {
                Ok(_) => {},
                Err(error) => {
                    return Err(error);
                },
            }
            if player_number >= world.game.players.len() {
                return Err(FatalError::UnknownPlayer { player_number });
            }
        },
        _ => {},
    }
    process_ui_network_command(ui_network_command, world);
    Ok(())
}

/// The system and the world after the part of a tick that comes once the
/// events are handled: a heartbeat where one is due, and the two halts.
pub open spec fn paced<W, C, L, M, S>(
    system: ClientNetworkSystem,
    world: WorldView<W, C, L, M, S>,
    tick: TickContext,
) -> TickOutcome<W, C, L, M, S> {
    let connection = world.connection.unwrap();
    let due = heartbeat_is_due(system.last_heartbeat_frame, tick.engine_frame_number, connection);
    let beaten = if due {
        WorldView {
            outbox: sent(world.outbox, connection, Delivery::Reliable, ClientPayloadView::Heartbeat),
            ..world
        }
    } else {
        world
    };
    TickOutcome {
        system: if due {
            ClientNetworkSystem { last_heartbeat_frame: tick.engine_frame_number, ..system }
        } else {
            system
        },
        world: network_paced(players_awaited(beaten, tick.game_frame_number), tick),
        error: None,
        drained: true,
    }
}

/// The system and the world after the part of a tick that needs a
/// connection: a pending request to leave, the events, and the pacing. With
/// no connection, a game that is being played is marked as cut off and the
/// events stay on the queue.
pub open spec fn exchanged<W, C, L, M, S>(
    system: ClientNetworkSystem,
    world: WorldView<W, C, L, M, S>,
    tick: TickContext,
    events: Seq<NetEventView<W, C, L, M, S>>,
) -> TickOutcome<W, C, L, M, S> {
    if world.connection is None {
        TickOutcome {
            system,
            world: if world.game.is_playing && tick.game_engine_state is Playing {
                WorldView { game: GameView { is_disconnected: true, ..world.game }, ..world }
            } else {
                world
            },
            error: None,
            drained: false,
        }
    } else {
        let handled = dispatched_all(left(world), tick, events);
        if handled.error is Some {
            TickOutcome { system, world: handled.world, error: handled.error, drained: true }
        } else {
            paced(system, handled.world, tick)
        }
    }
}

/// The world after the user's command, if there is one, is carried out.
pub open spec fn commanded<W, C, L, M, S>(
    world: WorldView<W, C, L, M, S>,
    ui_command: Option<UiNetworkCommand>,
) -> WorldView<W, C, L, M, S> {
    match ui_command {
        Some(command) => ui_command_processed(world, command),
        None => world,
    }
}

/// The world after a connection is opened under the system's next session
/// id, where one is due.
pub open spec fn connected<W, C, L, M, S>(
    system: ClientNetworkSystem,
    world: WorldView<W, C, L, M, S>,
    tick: TickContext,
) -> WorldView<W, C, L, M, S> {
    if opens_connection(world) {
        connection_opened(world, system.session_id_autoinc, tick.unix_time)
    } else {
        world
    }
}

/// The system and the world after a tick.
///
/// In order: the user's command; with the room not active, the connection
/// is dropped and the tick is over; a connection is opened where one is due;
/// the start of a hosted game is announced; the end of the hosted server
/// process is noted; then follows what needs a connection. The first failure
/// ends the tick. A tick that ends before it gets to the events leaves them
/// on the queue.
pub open spec fn ticked<W, C, L, M, S>(
    system: ClientNetworkSystem,
    world: WorldView<W, C, L, M, S>,
    tick: TickContext,
    ui_command: Option<UiNetworkCommand>,
    server_exit_code: Option<i32>,
    events: Seq<NetEventView<W, C, L, M, S>>,
) -> TickOutcome<W, C, L, M, S> {
    if ui_command is Some && ui_command_error(world, ui_command.unwrap()) is Some {
        TickOutcome {
            system,
            world,
            error: ui_command_error(world, ui_command.unwrap()),
            drained: false,
        }
    } else {
        let commanded = commanded(world, ui_command);
        if !commanded.room.is_active {
            TickOutcome {
                system,
                world: WorldView { connection: None, ..commanded },
                error: None,
                drained: false,
            }
        } else {
            let opened = connected(system, commanded, tick);
            let advanced = if opens_connection(commanded) {
                ClientNetworkSystem {
                    session_id_autoinc: following_session_id(system.session_id_autoinc),
                    ..system
                }
            } else {
                system
            };
            if start_is_due(opened.room) && opened.connection is None {
                TickOutcome {
                    system: advanced,
                    world: opened,
                    error: Some(FatalError::NoServerConnection),
                    drained: false,
                }
            } else {
                let announced = if start_is_due(opened.room) {
                    start_announced(opened)
                } else {
                    opened
                };
                exchanged(advanced, server_exit_noted(announced, server_exit_code), tick, events)
            }
        }
    }
}

impl Default for ClientNetworkSystem {
    fn default() -> (system: Self)
        ensures
            system == (ClientNetworkSystem { session_id_autoinc: 0, last_heartbeat_frame: 0 }),
    {
        ClientNetworkSystem { session_id_autoinc: 0, last_heartbeat_frame: 0 }
    }
}

impl ClientNetworkSystem {
    /// A system that has handed out no session and sent no heartbeat.
    pub fn new() -> (system: Self)
        ensures
            system == (ClientNetworkSystem { session_id_autoinc: 0, last_heartbeat_frame: 0 }),
    {
        ClientNetworkSystem { session_id_autoinc: 0, last_heartbeat_frame: 0 }
    }

    /// Hands out the session id for the next connection. The ids count up
    /// and start over at 0 after the largest.
    pub fn next_session_id(&mut self) -> (id: NetIdentifier)
        ensures
            id == old(self).session_id_autoinc,
            *final(self) == (ClientNetworkSystem {
                session_id_autoinc: following_session_id(old(self).session_id_autoinc),
                ..*old(self)
            }),
    {
        let id = self.session_id_autoinc;
        self.session_id_autoinc = self.session_id_autoinc.wrapping_add(1);
        id
    }

    /// Runs one tick: carries out the user's command, looks after the
    /// connection, handles what the transport delivered, in order, and
    /// decides on heartbeat and halts. Messages for the server are left in
    /// the world's outbox. The events are taken off the queue once the tick
    /// gets to them; a tick that ends before leaves the queue as it is.
    pub fn run<W, C, L, M, S>(
        &mut self,
        world: &mut ClientWorld<W, C, L, M, S>,
        tick: &TickContext,
        ui_command: Option<UiNetworkCommand>,
        server_exit_code: Option<i32>,
        events: &mut Vec<NetEvent<W, C, L, M, S>>,
    ) -> (result: Result<(), FatalError>)
        ensures
            result == ticked(
                *old(self),
                old(world)@,
                *tick,
                ui_command,
                server_exit_code,
                views(old(events)@),
            ).result(),
            *final(self) == ticked(
                *old(self),
                old(world)@,
                *tick,
                ui_command,
                server_exit_code,
                views(old(events)@),
            ).system,
            final(world)@ == ticked(
                *old(self),
                old(world)@,
                *tick,
                ui_command,
                server_exit_code,
                views(old(events)@),
            ).world,
            final(events)@ == (if ticked(
                *old(self),
                old(world)@,
                *tick,
                ui_command,
                server_exit_code,
                views(old(events)@),
            ).drained {
                Seq::empty()
            } else {
                old(events)@
            }),
    {
        match ui_command {
            Some(command) => {
                match submit_ui_network_command(command, world) {
                    Ok(()) => {},
                    Err(error) => {
                        return Err(error);
                    },
                }
            },
            None => {},
        }
        if !world.room.is_active {
            world.connection = None;
            return Ok(());
        }
        let is_joining = world.room.connection_status.is_connected()
            || world.room.connection_status.is_connecting() && !world.room.is_host;
        if world.connection.is_none() && is_joining {
            let session_id = self.next_session_id();
            open_connection(world, session_id, tick.unix_time);
        }
        match announce_start(world) {
            Ok(()) => {},
            Err(error) => {
                return Err(error);
            },
        }
        note_server_exit(world, server_exit_code);
        self.exchange(world, tick, events)
    }

    /// The part of a tick that needs a connection: carries out a pending
    /// request to leave, takes the events off the queue and handles them, and
    /// sets the pace. With no connection, marks a game that is being played as
    /// cut off and leaves the queue as it is.
    pub fn exchange<W, C, L, M, S>(
        &mut self,
        world: &mut ClientWorld<W, C, L, M, S>,
        tick: &TickContext,
        events: &mut Vec<NetEvent<W, C, L, M, S>>,
    ) -> (result: Result<(), FatalError>)
        ensures
            result == exchanged(*old(self), old(world)@, *tick, views(old(events)@)).result(),
            *final(self) == exchanged(*old(self), old(world)@, *tick, views(old(events)@)).system,
            final(world)@ == exchanged(*old(self), old(world)@, *tick, views(old(events)@)).world,
            final(events)@ == (if exchanged(
                *old(self),
                old(world)@,
                *tick,
                views(old(events)@),
            ).drained {
                Seq::empty()
            } else {
                old(events)@
            }),
    {
        if world.connection.is_none() {
            if world.game.is_playing && tick.game_engine_state.is_playing() {
                world.game.is_disconnected = true;
            }
            return Ok(());
        }
        leave_if_asked(world);
        let mut queue: Vec<NetEvent<W, C, L, M, S>> = Vec::new();
        core::mem::swap(events, &mut queue);
        proof {
            lemma_dispatch_keeps_connection(world@, *tick, views(queue@));
        }
        match dispatch_events(world, tick, queue) {
            Ok(()) => {},
            Err(error) => {
                return Err(error);
            },
        }
        self.pace(world, tick);
        Ok(())
    }

    /// The end of a tick: sends a heartbeat where one is due and decides
    /// the two halts. Does nothing without a connection.
    pub fn pace<W, C, L, M, S>(&mut self, world: &mut ClientWorld<W, C, L, M, S>, tick: &TickContext)
        ensures
            old(world)@.connection is Some ==> {
                &&& *final(self) == paced(*old(self), old(world)@, *tick).system
                &&& final(world)@ == paced(*old(self), old(world)@, *tick).world
            },
            old(world)@.connection is None ==> {
                &&& *final(self) == *old(self)
                &&& final(world)@ == old(world)@
            },
    {
        match world.connection {
            Some(connection) => {
                if beat(world, &connection, self.last_heartbeat_frame, tick.engine_frame_number) {
                    self.last_heartbeat_frame = tick.engine_frame_number;
                }
                await_players(world, tick.game_frame_number);
                pace_network(world, tick);
            },
            None => {},
        }
    }
}

/// A tick that finds the room not active ends with no connection.
pub proof fn lemma_inactive_room_has_no_connection<W, C, L, M, S>(
    system: ClientNetworkSystem,
    world: WorldView<W, C, L, M, S>,
    tick: TickContext,
    ui_command: Option<UiNetworkCommand>,
    server_exit_code: Option<i32>,
    events: Seq<NetEventView<W, C, L, M, S>>,
)
    requires
        !world.room.is_active,
        ticked(system, world, tick, ui_command, server_exit_code, events).error is None,
    ensures
        ticked(system, world, tick, ui_command, server_exit_code, events).world.connection is None,
{
}

/// Setting the pace sends no request to join.
proof fn lemma_pace_joins_once<W, C, L, M, S>(
    system: ClientNetworkSystem,
    world: WorldView<W, C, L, M, S>,
    tick: TickContext,
)
    ensures
        paced(system, world, tick).world.room == world.room,
        join_requests(paced(system, world, tick).world.outbox) == join_requests(world.outbox),
{
    lemma_join_requests_of_sent(
        world.outbox,
        world.connection.unwrap(),
        Delivery::Reliable,
        ClientPayloadView::Heartbeat,
    );
}

/// Once the client has asked to join, the part of a tick that needs a
/// connection sends no further request to join.
proof fn lemma_exchange_joins_once<W, C, L, M, S>(
    system: ClientNetworkSystem,
    world: WorldView<W, C, L, M, S>,
    tick: TickContext,
    events: Seq<NetEventView<W, C, L, M, S>>,
)
    requires
        world.room.has_sent_join_message,
    ensures
        exchanged(system, world, tick, events).world.room.has_sent_join_message,
        join_requests(exchanged(system, world, tick, events).world.outbox) == join_requests(
            world.outbox,
        ),
{
    if world.connection is Some {
        let gone = left(world);
        if world.room.pending_disconnecting {
            lemma_join_requests_of_sent(
                world.outbox,
                world.connection.unwrap(),
                Delivery::Reliable,
                ClientPayloadView::Disconnect,
            );
        }
        assert(join_requests(gone.outbox) == join_requests(world.outbox));
        lemma_dispatch_joins_once(gone, tick, events);
        let handled = dispatched_all(gone, tick, events);
        if handled.error is None {
            lemma_pace_joins_once(system, handled.world, tick);
        }
    }
}

/// Carrying out the user's command sends no request to join and leaves
/// the room as it is.
proof fn lemma_command_joins_once<W, C, L, M, S>(
    world: WorldView<W, C, L, M, S>,
    ui_command: Option<UiNetworkCommand>,
)
    ensures
        commanded(world, ui_command).room == world.room,
        join_requests(commanded(world, ui_command).outbox) == join_requests(world.outbox),
{
    match ui_command {
        Some(UiNetworkCommand::Kick { player_number }) => {
            lemma_join_requests_of_sent(
                world.outbox,
                world.connection.unwrap(),
                Delivery::Reliable,
                ClientPayloadView::Kick {
                    kicked_connection_id: world.game.players[player_number as int].connection_id,
                },
            );
        },
        _ => {},
    }
}

/// Announcing the start of a hosted game sends no request to join.
proof fn lemma_announce_joins_once<W, C, L, M, S>(world: WorldView<W, C, L, M, S>)
    ensures
        start_announced(world).room.has_sent_join_message == world.room.has_sent_join_message,
        join_requests(start_announced(world).outbox) == join_requests(world.outbox),
{
    lemma_join_requests_of_sent(
        world.outbox,
        world.connection.unwrap(),
        Delivery::Reliable,
        ClientPayloadView::StartHostedGame,
    );
}

/// A client asks to join once: after it has asked, no tick sends another
/// request to join.
pub proof fn lemma_join_is_requested_once<W, C, L, M, S>(
    system: ClientNetworkSystem,
    world: WorldView<W, C, L, M, S>,
    tick: TickContext,
    ui_command: Option<UiNetworkCommand>,
    server_exit_code: Option<i32>,
    events: Seq<NetEventView<W, C, L, M, S>>,
)
    requires
        world.room.has_sent_join_message,
    ensures
        ticked(
            system,
            world,
            tick,
            ui_command,
            server_exit_code,
            events,
        ).world.room.has_sent_join_message,
        join_requests(
            ticked(system, world, tick, ui_command, server_exit_code, events).world.outbox,
        ) == join_requests(world.outbox),
{
    lemma_command_joins_once(world, ui_command);
    let commanded = commanded(world, ui_command);
    let opened = connected(system, commanded, tick);
    assert(opened.outbox == commanded.outbox);
    assert(opened.room == commanded.room);
    lemma_announce_joins_once(opened);
    let announced = if start_is_due(opened.room) {
        start_announced(opened)
    } else {
        opened
    };
    let noted = server_exit_noted(announced, server_exit_code);
    assert(noted.outbox == announced.outbox);
    assert(noted.room.has_sent_join_message);
    let advanced = ClientNetworkSystem {
        session_id_autoinc: following_session_id(system.session_id_autoinc),
        ..system
    };
    lemma_exchange_joins_once(system, noted, tick, events);
    lemma_exchange_joins_once(advanced, noted, tick, events);
}

/// Over a tick that ends without a failure, in an active room, while the
/// game is played on a connection that is open on this side and with no
/// request to leave pending, the id noted as taken in ends up as the largest
/// id that a batch of world updates of the session carried, or stays where it
/// was if that is larger.
pub proof fn lemma_tick_acknowledges_the_largest_id<W, C, L, M, S>(
    system: ClientNetworkSystem,
    world: WorldView<W, C, L, M, S>,
    tick: TickContext,
    ui_command: Option<UiNetworkCommand>,
    server_exit_code: Option<i32>,
    events: Seq<NetEventView<W, C, L, M, S>>,
)
    requires
        world.room.is_active,
        world.connection is Some,
        !world.connection.unwrap().disconnected,
        !world.room.pending_disconnecting,
        world.game.is_playing,
        ticked(system, world, tick, ui_command, server_exit_code, events).error is None,
    ensures
        ticked(
            system,
            world,
            tick,
            ui_command,
            server_exit_code,
            events,
        ).world.last_acknowledged_update.id == largest_id(
            events,
            world.connection.unwrap().session_id,
            world.last_acknowledged_update.id,
        ),
{
    let commanded = commanded(world, ui_command);
    let opened = connected(system, commanded, tick);
    assert(opened == commanded);
    let announced = if start_is_due(opened.room) {
        start_announced(opened)
    } else {
        opened
    };
    let noted = server_exit_noted(announced, server_exit_code);
    assert(left(noted) == noted);
    assert(noted.connection == world.connection);
    assert(noted.game == world.game);
    assert(noted.last_acknowledged_update == world.last_acknowledged_update);
    lemma_acknowledged_id_is_largest(noted, tick, events);
    lemma_dispatch_keeps_connection(noted, tick, events);
}

} // verus!
