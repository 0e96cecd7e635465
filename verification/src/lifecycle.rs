//! The life of the client's connection: opening it, greeting the server,
//! starting a hosted game, and closing down.

use crate::client::{ClientWorld, WorldView};
use crate::error::FatalError;
use crate::frames::views;
use crate::messages::{
    ClientMessagePayload, ClientPayloadView, Delivery, OutgoingMessage, OutgoingView,
};
use crate::state::{
    ConnectionStatus, DisconnectReason, NetConnectionModel, RoomView, Timestamp,
};
use crate::world::NetIdentifier;
use vstd::prelude::*;

verus! {

/// The outbox with one more message for the server behind `connection`.
pub open spec fn sent(
    outbox: Seq<OutgoingView>,
    connection: NetConnectionModel,
    delivery: Delivery,
    payload: ClientPayloadView,
) -> Seq<OutgoingView> {
    outbox.push(
        OutgoingView { delivery, addr: connection.addr, session_id: connection.session_id, payload },
    )
}

/// Queues a message for the server behind `connection`.
pub fn send_message(
    outbox: &mut Vec<OutgoingMessage>,
    connection: &NetConnectionModel,
    delivery: Delivery,
    payload: ClientMessagePayload,
)
    ensures
        views(final(outbox)@) == sent(views(old(outbox)@), *connection, delivery, payload@),
{
    let message = OutgoingMessage {
        delivery,
        addr: connection.addr,
        session_id: connection.session_id,
        payload,
    };
    outbox.push(message);
    assert(views(outbox@) =~= sent(views(old(outbox)@), *connection, delivery, payload@));
}

/// Queues a message that must arrive, and in order.
pub fn send_message_reliable(
    outbox: &mut Vec<OutgoingMessage>,
    connection: &NetConnectionModel,
    payload: ClientMessagePayload,
)
    ensures
        views(final(outbox)@) == sent(views(old(outbox)@), *connection, Delivery::Reliable, payload@),
{
    send_message(outbox, connection, Delivery::Reliable, payload)
}

/// Queues a message that may get lost.
pub fn send_message_unreliable(
    outbox: &mut Vec<OutgoingMessage>,
    connection: &NetConnectionModel,
    payload: ClientMessagePayload,
)
    ensures
        views(final(outbox)@) == sent(
            views(old(outbox)@),
            *connection,
            Delivery::Unreliable,
            payload@,
        ),
{
    send_message(outbox, connection, Delivery::Unreliable, payload)
}

/// The session id after `id`: one more, and 0 after the largest.
pub open spec fn following_session_id(id: NetIdentifier) -> NetIdentifier {
    if id == u64::MAX {
        0
    } else {
        (id + 1) as u64
    }
}

/// The request to join that a client with this room state sends at `now`.
pub open spec fn join_request(room: RoomView, now: Timestamp) -> ClientPayloadView {
    ClientPayloadView::JoinRoom { sent_at: now, nickname: room.nickname }
}

/// Whether the client is on its way into a room: it is connected, or it is
/// connecting to a room that it does not host.
pub open spec fn is_joining(room: RoomView) -> bool {
    room.connection_status is Connected || (room.connection_status is Connecting && !room.is_host)
}

/// Whether this tick opens a connection: the room is active, there is no
/// connection yet, and the client is on its way in.
pub open spec fn opens_connection<W, C, L, M, S>(world: WorldView<W, C, L, M, S>) -> bool {
    world.room.is_active && world.connection is None && is_joining(world.room)
}

/// The world after a connection is opened under `session_id`. A client
/// that does not host the room asks to join right away, once.
pub open spec fn connection_opened<W, C, L, M, S>(
    world: WorldView<W, C, L, M, S>,
    session_id: NetIdentifier,
    now: Timestamp,
) -> WorldView<W, C, L, M, S> {
    let model = NetConnectionModel {
        id: 0,
        session_id,
        addr: world.room.server_addr,
        disconnected: false,
    };
    if !world.room.is_host && !world.room.has_sent_join_message {
        WorldView {
            connection: Some(model),
            room: RoomView { has_sent_join_message: true, ..world.room },
            outbox: sent(world.outbox, model, Delivery::Reliable, join_request(world.room, now)),
            ..world
        }
    } else {
        WorldView { connection: Some(model), ..world }
    }
}

/// Opens the connection under `session_id`.
pub fn open_connection<W, C, L, M, S>(
    world: &mut ClientWorld<W, C, L, M, S>,
    session_id: NetIdentifier,
    now: Timestamp,
)
    ensures
        final(world)@ == connection_opened(old(world)@, session_id, now),
{
    let model = NetConnectionModel::new(0, session_id, world.room.server_addr);
    if !world.room.is_host && !world.room.has_sent_join_message {
        world.room.has_sent_join_message = true;
        let payload = ClientMessagePayload::JoinRoom {
            sent_at: now,
            nickname: world.room.nickname.clone(),
        };
        send_message_reliable(&mut world.outbox, &model, payload);
    }
    world.connection = Some(model);
}

/// Whether a hosted game is to be announced: the host has started it and
/// has not said so yet.
pub open spec fn start_is_due(room: RoomView) -> bool {
    room.is_host && room.has_started && !room.has_sent_start_message
}

/// The world after the host has announced the start of the game.
pub open spec fn start_announced<W, C, L, M, S>(world: WorldView<W, C, L, M, S>) -> WorldView<
    W,
    C,
    L,
    M,
    S,
> {
    WorldView {
        room: RoomView { has_sent_start_message: true, ..world.room },
        outbox: sent(
            world.outbox,
            world.connection.unwrap(),
            Delivery::Reliable,
            ClientPayloadView::StartHostedGame,
        ),
        ..world
    }
}

/// Tells the server, once, that the host has started the game. With
/// nobody to tell, the session cannot go on.
pub fn announce_start<W, C, L, M, S>(world: &mut ClientWorld<W, C, L, M, S>) -> (result: Result<
    (),
    FatalError,
>)
    ensures
        !start_is_due(old(world)@.room) ==> {
            &&& result is Ok
            &&& final(world)@ == old(world)@
        },
        start_is_due(old(world)@.room) && old(world)@.connection is None ==> {
            &&& result == Err::<(), FatalError>(FatalError::NoServerConnection)
            &&& final(world)@ == old(world)@
        },
        start_is_due(old(world)@.room) && old(world)@.connection is Some ==> {
            &&& result is Ok
            &&& final(world)@ == start_announced(old(world)@)
        },
{
    if world.room.is_host && world.room.has_started && !world.room.has_sent_start_message {
        match world.connection {
            None => {
                return Err(FatalError::NoServerConnection);
            },
            Some(connection) => {
                world.room.has_sent_start_message = true;
                send_message_reliable(
                    &mut world.outbox,
                    &connection,
                    ClientMessagePayload::StartHostedGame,
                );
            },
        }
    }
    Ok(())
}

/// The status that the end of a hosted server process leaves: a clean exit
/// closes the room, any other exit is a crash.
pub open spec fn status_after_exit(code: i32) -> ConnectionStatus {
    if code == 0 {
        ConnectionStatus::Disconnected(Some(DisconnectReason::Closed))
    } else {
        ConnectionStatus::Disconnected(Some(DisconnectReason::ServerCrashed(code)))
    }
}

/// The world after the hosted server process was seen to have ended, if
/// it has.
pub open spec fn server_exit_noted<W, C, L, M, S>(
    world: WorldView<W, C, L, M, S>,
    exit_code: Option<i32>,
) -> WorldView<W, C, L, M, S> {
    match exit_code {
        Some(code) => WorldView {
            room: RoomView { connection_status: status_after_exit(code), ..world.room },
            ..world
        },
        None => world,
    }
}

/// Takes note of the end of the hosted server process.
pub fn note_server_exit<W, C, L, M, S>(world: &mut ClientWorld<W, C, L, M, S>, exit_code: Option<i32>)
    ensures
        final(world)@ == server_exit_noted(old(world)@, exit_code),
{
    match exit_code {
        Some(code) => {
            if code == 0 {
                world.room.connection_status = ConnectionStatus::Disconnected(
                    Some(DisconnectReason::Closed),
                );
            } else {
                world.room.connection_status = ConnectionStatus::Disconnected(
                    Some(DisconnectReason::ServerCrashed(code)),
                );
            }
        },
        None => {},
    }
}

/// The world after a pending request to leave is carried out: the server
/// is told, the connection is marked as closed from this side, and a client
/// that does not host the room is disconnected at once.
pub open spec fn left<W, C, L, M, S>(world: WorldView<W, C, L, M, S>) -> WorldView<W, C, L, M, S> {
    let connection = world.connection.unwrap();
    if world.connection is Some && world.room.pending_disconnecting {
        WorldView {
            connection: Some(NetConnectionModel { disconnected: true, ..connection }),
            room: RoomView {
                pending_disconnecting: false,
                connection_status: if world.room.is_host {
                    world.room.connection_status
                } else {
                    ConnectionStatus::Disconnected(Some(DisconnectReason::Closed))
                },
                ..world.room
            },
            outbox: sent(world.outbox, connection, Delivery::Reliable, ClientPayloadView::Disconnect),
            ..world
        }
    } else {
        world
    }
}

/// Carries out a pending request to leave the room.
pub fn leave_if_asked<W, C, L, M, S>(world: &mut ClientWorld<W, C, L, M, S>)
    ensures
        final(world)@ == left(old(world)@),
{
    match world.connection {
        Some(connection) => {
            if world.room.pending_disconnecting {
                world.room.pending_disconnecting = false;
                send_message_reliable(&mut world.outbox, &connection, ClientMessagePayload::Disconnect);
                world.connection = Some(
                    NetConnectionModel {
                        id: connection.id,
                        session_id: connection.session_id,
                        addr: connection.addr,
                        disconnected: true,
                    },
                );
                if !world.room.is_host {
                    world.room.connection_status = ConnectionStatus::Disconnected(
                        Some(DisconnectReason::Closed),
                    );
                }
            }
        },
        None => {},
    }
}

/// Whether a message asks to join.
pub open spec fn is_join_request() -> spec_fn(OutgoingView) -> bool {
    |message: OutgoingView| message.payload is JoinRoom
}

/// The requests to join among the messages of an outbox, in order.
pub open spec fn join_requests(outbox: Seq<OutgoingView>) -> Seq<OutgoingView> {
    outbox.filter(is_join_request())
}

/// A message that is queued adds to the requests to join if it is one, and
/// leaves them as they are if it is not.
pub proof fn lemma_join_requests_of_sent(
    outbox: Seq<OutgoingView>,
    connection: NetConnectionModel,
    delivery: Delivery,
    payload: ClientPayloadView,
)
    ensures
        join_requests(sent(outbox, connection, delivery, payload)) == (if payload is JoinRoom {
            join_requests(outbox).push(
                OutgoingView {
                    delivery,
                    addr: connection.addr,
                    session_id: connection.session_id,
                    payload,
                },
            )
        } else {
            join_requests(outbox)
        }),
{
    reveal(Seq::filter);
    let after = sent(outbox, connection, delivery, payload);
    assert(after.drop_last() =~= outbox);
}

} // verus!
