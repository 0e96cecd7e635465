//! What client and server say to each other.

use crate::frames::views;
use crate::state::{DisconnectReason, MultiplayerRoomPlayer, PeerAddress, Timestamp};
use crate::world::{NetIdentifier, ServerWorldUpdate, ServerWorldUpdateView};
use vstd::prelude::*;

verus! {

/// What a client tells the server.
#[derive(Debug, Clone, PartialEq, Eq)]
pub enum ClientMessagePayload {
    JoinRoom { sent_at: Timestamp, nickname: String },
    StartHostedGame,
    Heartbeat,
    AcknowledgeWorldUpdate(NetIdentifier),
    Kick { kicked_connection_id: NetIdentifier },
    Disconnect,
}

/// Model of a [`ClientMessagePayload`].
#[verifier::ext_equal]
pub enum ClientPayloadView {
    JoinRoom { sent_at: Timestamp, nickname: Seq<char> },
    StartHostedGame,
    Heartbeat,
    AcknowledgeWorldUpdate(NetIdentifier),
    Kick { kicked_connection_id: NetIdentifier },
    Disconnect,
}

impl View for ClientMessagePayload {
    type V = ClientPayloadView;

    open spec fn view(&self) -> ClientPayloadView {
        match *self {
            ClientMessagePayload::JoinRoom { sent_at, nickname } => ClientPayloadView::JoinRoom {
                sent_at,
                nickname: nickname@,
            },
            ClientMessagePayload::StartHostedGame => ClientPayloadView::StartHostedGame,
            ClientMessagePayload::Heartbeat => ClientPayloadView::Heartbeat,
            ClientMessagePayload::AcknowledgeWorldUpdate(id) => ClientPayloadView::AcknowledgeWorldUpdate(
                id,
            ),
            ClientMessagePayload::Kick { kicked_connection_id } => ClientPayloadView::Kick {
                kicked_connection_id,
            },
            ClientMessagePayload::Disconnect => ClientPayloadView::Disconnect,
        }
    }
}

/// How hard the transport tries to deliver a message.
#[derive(Debug, Clone, Copy, PartialEq, Eq)]
pub enum Delivery {
    /// Delivered, and in the order sent.
    Reliable,
    /// Best effort.
    Unreliable,
}

/// A message on its way to the server.
#[derive(Debug, Clone, PartialEq, Eq)]
pub struct OutgoingMessage {
    pub delivery: Delivery,
    pub addr: PeerAddress,
    pub session_id: NetIdentifier,
    pub payload: ClientMessagePayload,
}

/// Model of an [`OutgoingMessage`].
#[verifier::ext_equal]
pub struct OutgoingView {
    pub delivery: Delivery,
    pub addr: PeerAddress,
    pub session_id: NetIdentifier,
    pub payload: ClientPayloadView,
}

impl View for OutgoingMessage {
    type V = OutgoingView;

    open spec fn view(&self) -> OutgoingView {
        OutgoingView {
            delivery: self.delivery,
            addr: self.addr,
            session_id: self.session_id,
            payload: self.payload@,
        }
    }
}

/// What the server tells a client.
#[derive(Debug, Clone, PartialEq)]
pub enum ServerMessagePayload<W, C, L, M, S> {
    Heartbeat,
    Ping(NetIdentifier),
    Pong { ping_id: NetIdentifier, frame_number: u64 },
    Handshake { net_id: NetIdentifier, is_host: bool },
    UpdateRoomPlayers(Vec<MultiplayerRoomPlayer>),
    StartGame(Vec<NetIdentifier>),
    UpdateWorld { id: NetIdentifier, updates: Vec<ServerWorldUpdate<W, C, L, M, S>> },
    DiscardWalkActions(Vec<NetIdentifier>),
    PauseWaitingForPlayers { id: NetIdentifier, players: Vec<NetIdentifier> },
    UnpauseWaitingForPlayers(NetIdentifier),
    Disconnect(DisconnectReason),
}

/// Model of a [`ServerMessagePayload`].
#[verifier::ext_equal]
pub enum ServerPayloadView<W, C, L, M, S> {
    Heartbeat,
    Ping(NetIdentifier),
    Pong { ping_id: NetIdentifier, frame_number: u64 },
    Handshake { net_id: NetIdentifier, is_host: bool },
    UpdateRoomPlayers(Seq<MultiplayerRoomPlayer>),
    StartGame(Seq<NetIdentifier>),
    UpdateWorld { id: NetIdentifier, updates: Seq<ServerWorldUpdateView<W, C, L, M, S>> },
    DiscardWalkActions(Seq<NetIdentifier>),
    PauseWaitingForPlayers { id: NetIdentifier, players: Seq<NetIdentifier> },
    UnpauseWaitingForPlayers(NetIdentifier),
    Disconnect(DisconnectReason),
}

impl<W, C, L, M, S> ServerPayloadView<W, C, L, M, S> {
    /// Whether the payload belongs to the time before the game starts.
    pub open spec fn is_lobby(self) -> bool {
        self is Handshake || self is UpdateRoomPlayers || self is StartGame
    }
}

impl<W, C, L, M, S> View for ServerMessagePayload<W, C, L, M, S> {
    type V = ServerPayloadView<W, C, L, M, S>;

    open spec fn view(&self) -> ServerPayloadView<W, C, L, M, S> {
        match *self {
            ServerMessagePayload::Heartbeat => ServerPayloadView::Heartbeat,
            ServerMessagePayload::Ping(id) => ServerPayloadView::Ping(id),
            ServerMessagePayload::Pong { ping_id, frame_number } => ServerPayloadView::Pong {
                ping_id,
                frame_number,
            },
            ServerMessagePayload::Handshake { net_id, is_host } => ServerPayloadView::Handshake {
                net_id,
                is_host,
            },
            ServerMessagePayload::UpdateRoomPlayers(players) => ServerPayloadView::UpdateRoomPlayers(
                players@,
            ),
            ServerMessagePayload::StartGame(ids) => ServerPayloadView::StartGame(ids@),
            ServerMessagePayload::UpdateWorld { id, updates } => ServerPayloadView::UpdateWorld {
                id,
                updates: views(updates@),
            },
            ServerMessagePayload::DiscardWalkActions(ids) => ServerPayloadView::DiscardWalkActions(
                ids@,
            ),
            ServerMessagePayload::PauseWaitingForPlayers {
                id,
                players,
            } => ServerPayloadView::PauseWaitingForPlayers { id, players: players@ },
            ServerMessagePayload::UnpauseWaitingForPlayers(
                id,
            ) => ServerPayloadView::UnpauseWaitingForPlayers(id),
            ServerMessagePayload::Disconnect(reason) => ServerPayloadView::Disconnect(reason),
        }
    }
}

/// A payload from the server, with the session it was sent in.
#[derive(Debug, Clone, PartialEq)]
pub struct ServerMessage<W, C, L, M, S> {
    pub session_id: NetIdentifier,
    pub payload: ServerMessagePayload<W, C, L, M, S>,
}

/// Something the transport reports.
#[derive(Debug, Clone, PartialEq)]
pub enum NetEvent<W, C, L, M, S> {
    Message(ServerMessage<W, C, L, M, S>),
    Connected,
    Disconnected,
}

/// Model of a [`NetEvent`].
#[verifier::ext_equal]
pub enum NetEventView<W, C, L, M, S> {
    Message { session_id: NetIdentifier, payload: ServerPayloadView<W, C, L, M, S> },
    Connected,
    Disconnected,
}

impl<W, C, L, M, S> View for NetEvent<W, C, L, M, S> {
    type V = NetEventView<W, C, L, M, S>;

    open spec fn view(&self) -> NetEventView<W, C, L, M, S> {
        match *self {
            NetEvent::Message(message) => NetEventView::Message {
                session_id: message.session_id,
                payload: message.payload@,
            },
            NetEvent::Connected => NetEventView::Connected,
            NetEvent::Disconnected => NetEventView::Disconnected,
        }
    }
}

} // verus!
