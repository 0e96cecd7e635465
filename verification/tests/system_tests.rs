use client_sync::client::{ClientWorld, TickContext};
use client_sync::error::FatalError;
use client_sync::lifecycle::{
    announce_start, leave_if_asked, note_server_exit, open_connection, send_message,
    send_message_reliable, send_message_unreliable,
};
use client_sync::messages::{
    ClientMessagePayload, Delivery, NetEvent, OutgoingMessage, ServerMessage, ServerMessagePayload,
};
use client_sync::monster_movement::MonsterMovementSystem;
use client_sync::pacing::{
    await_players, beat, pace_network, HEARTBEAT_FRAME_INTERVAL, PAUSE_FRAME_THRESHOLD,
};
use client_sync::state::{
    ConnectionStatus, DisconnectReason, GameEngineState, IpAddress, LastAcknowledgedUpdate,
    MultiplayerGameState, MultiplayerRoomPlayer, MultiplayerRoomState, NetConnectionModel,
    PeerAddress, Timestamp,
};
use client_sync::system::{
    process_ui_network_command, server_connection, submit_ui_network_command,
    ClientNetworkSystem, UiNetworkCommand,
};

type World = ClientWorld<u32, u32, u32, u32, u32>;
type Event = NetEvent<u32, u32, u32, u32, u32>;

fn addr() -> PeerAddress {
    PeerAddress { ip: IpAddress::V6(1), port: 3455 }
}

fn at(secs: u64, nanos: u32) -> Timestamp {
    Timestamp { secs, nanos }
}

/// A joiner in an active room that began to connect at second 100 of the
/// monotonic clock and has no connection yet.
fn joiner() -> World {
    let mut room = MultiplayerRoomState::new(String::from("Al"), addr());
    room.is_active = true;
    room.connection_status = ConnectionStatus::Connecting(at(100, 0));
    ClientWorld::new(room, 64).expect("a limit above zero")
}

/// A client that plays: connected as 2 in session 0, with the join sent.
fn player() -> World {
    let mut world = joiner();
    world.connection = Some(NetConnectionModel::new(0, 0, addr()));
    world.room.has_sent_join_message = true;
    world.room.connection_status = ConnectionStatus::Connected(2);
    world.game.is_playing = true;
    world
}

fn tick() -> TickContext {
    TickContext {
        game_engine_state: GameEngineState::Menu,
        engine_frame_number: 0,
        game_frame_number: 0,
        game_frame_number_absolute: 0,
        unix_time: at(1_700_000_000, 250),
        monotonic_time: at(100, 500),
    }
}

fn playing(game_frame_number: u64, game_frame_number_absolute: u64) -> TickContext {
    TickContext {
        game_engine_state: GameEngineState::Playing,
        game_frame_number,
        game_frame_number_absolute,
        ..tick()
    }
}

fn outgoing(session_id: u64, delivery: Delivery, payload: ClientMessagePayload) -> OutgoingMessage {
    OutgoingMessage { delivery, addr: addr(), session_id, payload }
}

fn join_request(session_id: u64) -> OutgoingMessage {
    outgoing(
        session_id,
        Delivery::Reliable,
        ClientMessagePayload::JoinRoom { sent_at: at(1_700_000_000, 250), nickname: String::from("Al") },
    )
}

fn message(session_id: u64, payload: ServerMessagePayload<u32, u32, u32, u32, u32>) -> Event {
    NetEvent::Message(ServerMessage { session_id, payload })
}

fn run(system: &mut ClientNetworkSystem, world: &mut World, tick: &TickContext) -> Result<(), FatalError> {
    system.run(world, tick, None, None, &mut vec![])
}

#[test]
fn the_movement_system_has_a_name() {
    assert_eq!(MonsterMovementSystem, MonsterMovementSystem);
}

#[test]
fn session_ids_count_up_from_zero() {
    let mut system = ClientNetworkSystem::new();
    assert_eq!(system.next_session_id(), 0);
    assert_eq!(system.next_session_id(), 1);
    assert_eq!(system.session_id_autoinc, 2);
    assert_eq!(system.last_heartbeat_frame, 0);
}

#[test]
fn session_ids_start_over_after_the_largest() {
    let mut system = ClientNetworkSystem { session_id_autoinc: u64::MAX, last_heartbeat_frame: 3 };
    assert_eq!(system.next_session_id(), u64::MAX);
    assert_eq!(system.session_id_autoinc, 0);
    assert_eq!(system.last_heartbeat_frame, 3);
}

#[test]
fn a_joiner_in_an_active_room_connects_and_asks_to_join() {
    let mut system = ClientNetworkSystem::new();
    let mut world = joiner();
    assert_eq!(run(&mut system, &mut world, &tick()), Ok(()));
    assert_eq!(world.connection, Some(NetConnectionModel { id: 0, session_id: 0, addr: addr(), disconnected: false }));
    assert_eq!(world.outbox, vec![join_request(0)]);
    assert_eq!(world.outbox[0].delivery, Delivery::Reliable);
    assert!(world.room.has_sent_join_message);
    assert_eq!(world.room.connection_status, ConnectionStatus::Connecting(at(100, 0)));
    assert_eq!(system.session_id_autoinc, 1);

    assert_eq!(run(&mut system, &mut world, &tick()), Ok(()));
    assert_eq!(world.outbox, vec![join_request(0)]);
    assert_eq!(system.session_id_autoinc, 1);
    assert_eq!(world.room.connection_status, ConnectionStatus::Connecting(at(100, 0)));
}

#[test]
fn a_handshake_in_the_same_tick_connects_the_joiner() {
    let mut system = ClientNetworkSystem { session_id_autoinc: 4, last_heartbeat_frame: 0 };
    let mut world = joiner();
    let events = vec![message(4, ServerMessagePayload::Handshake { net_id: 7, is_host: false })];
    assert_eq!(system.run(&mut world, &tick(), None, None, &mut { events }), Ok(()));
    assert_eq!(world.room.connection_status, ConnectionStatus::Connected(7));
    assert_eq!(world.outbox, vec![join_request(4)]);
    assert_eq!(system.session_id_autoinc, 5);
}

#[test]
fn a_join_that_was_sent_is_not_sent_again_with_a_new_connection() {
    let mut system = ClientNetworkSystem::new();
    let mut world = joiner();
    world.room.has_sent_join_message = true;
    assert_eq!(run(&mut system, &mut world, &tick()), Ok(()));
    assert!(world.connection.is_some());
    assert_eq!(world.outbox, vec![]);
}

#[test]
fn a_host_that_connects_opens_no_connection_of_its_own() {
    let mut system = ClientNetworkSystem::new();
    let mut world = joiner();
    world.room.is_host = true;
    assert_eq!(run(&mut system, &mut world, &tick()), Ok(()));
    assert_eq!(world.connection, None);
    assert_eq!(world.outbox, vec![]);
    assert_eq!(system.session_id_autoinc, 0);
}

#[test]
fn a_connected_host_without_a_connection_gets_one_and_sends_no_join() {
    let mut system = ClientNetworkSystem::new();
    let mut world = joiner();
    world.room.is_host = true;
    world.room.connection_status = ConnectionStatus::Connected(1);
    assert_eq!(run(&mut system, &mut world, &tick()), Ok(()));
    assert_eq!(world.connection, Some(NetConnectionModel::new(0, 0, addr())));
    assert_eq!(world.outbox, vec![]);
    assert!(!world.room.has_sent_join_message);
}

#[test]
fn a_client_that_is_not_on_its_way_in_opens_no_connection() {
    for status in [
        ConnectionStatus::Disconnected(None),
        ConnectionStatus::Disconnecting,
        ConnectionStatus::ConnectionFailed(None),
    ] {
        let mut system = ClientNetworkSystem::new();
        let mut world = joiner();
        world.room.connection_status = status;
        assert_eq!(run(&mut system, &mut world, &tick()), Ok(()));
        assert_eq!(world.connection, None);
        assert_eq!(system.session_id_autoinc, 0);
    }
}

#[test]
fn a_room_that_is_not_active_has_no_connection() {
    let mut system = ClientNetworkSystem::new();
    let mut world = player();
    world.room.is_active = false;
    world.room.pending_disconnecting = true;
    let events = vec![message(0, ServerMessagePayload::Disconnect(DisconnectReason::Kick))];
    assert_eq!(system.run(&mut world, &playing(50, 50), None, Some(1), &mut { events }), Ok(()));
    assert_eq!(world.connection, None);
    assert_eq!(world.outbox, vec![]);
    assert!(world.room.pending_disconnecting);
    assert_eq!(world.room.connection_status, ConnectionStatus::Connected(2));
    assert!(!world.game.is_disconnected);
    assert!(!world.game.waiting_network);
}

#[test]
fn the_opening_of_a_connection_can_be_asked_for_directly() {
    let mut world = joiner();
    open_connection(&mut world, 9, at(3, 4));
    assert_eq!(world.connection, Some(NetConnectionModel::new(0, 9, addr())));
    assert_eq!(
        world.outbox,
        vec![outgoing(
            9,
            Delivery::Reliable,
            ClientMessagePayload::JoinRoom { sent_at: at(3, 4), nickname: String::from("Al") }
        )]
    );
}

#[test]
fn a_host_announces_the_start_of_its_game_once() {
    let mut system = ClientNetworkSystem::new();
    let mut world = player();
    world.game.is_playing = false;
    world.room.is_host = true;
    world.room.has_started = true;
    assert_eq!(run(&mut system, &mut world, &tick()), Ok(()));
    assert!(world.room.has_sent_start_message);
    assert_eq!(world.outbox, vec![outgoing(0, Delivery::Reliable, ClientMessagePayload::StartHostedGame)]);
    assert_eq!(run(&mut system, &mut world, &tick()), Ok(()));
    assert_eq!(world.outbox.len(), 1);
}

#[test]
fn a_start_is_not_announced_by_a_joiner_or_before_the_game_has_started() {
    let mut world = player();
    world.room.has_started = true;
    assert_eq!(announce_start(&mut world), Ok(()));
    assert_eq!(world.outbox, vec![]);
    world.room.is_host = true;
    world.room.has_started = false;
    assert_eq!(announce_start(&mut world), Ok(()));
    assert_eq!(world.outbox, vec![]);
    assert!(!world.room.has_sent_start_message);
}

#[test]
fn a_start_with_nobody_to_tell_is_fatal() {
    let mut system = ClientNetworkSystem::new();
    let mut world = joiner();
    world.room.is_host = true;
    world.room.has_started = true;
    assert_eq!(run(&mut system, &mut world, &tick()), Err(FatalError::NoServerConnection));
    assert!(!world.room.has_sent_start_message);
    assert_eq!(world.outbox, vec![]);
}

#[test]
fn the_end_of_the_server_process_closes_the_room() {
    let mut world = player();
    note_server_exit(&mut world, None);
    assert_eq!(world.room.connection_status, ConnectionStatus::Connected(2));
    note_server_exit(&mut world, Some(0));
    assert_eq!(world.room.connection_status, ConnectionStatus::Disconnected(Some(DisconnectReason::Closed)));
    note_server_exit(&mut world, Some(-11));
    assert_eq!(
        world.room.connection_status,
        ConnectionStatus::Disconnected(Some(DisconnectReason::ServerCrashed(-11)))
    );
    let mut system = ClientNetworkSystem::new();
    let mut world = player();
    assert_eq!(system.run(&mut world, &tick(), None, Some(3), &mut vec![]), Ok(()));
    assert_eq!(
        world.room.connection_status,
        ConnectionStatus::Disconnected(Some(DisconnectReason::ServerCrashed(3)))
    );
}

#[test]
fn a_game_without_a_connection_is_cut_off() {
    let mut system = ClientNetworkSystem::new();
    let mut world = player();
    world.connection = None;
    world.room.connection_status = ConnectionStatus::Disconnected(None);
    world.game.lagging_players = vec![1];
    world.room.pending_disconnecting = true;
    assert_eq!(run(&mut system, &mut world, &playing(50, 50)), Ok(()));
    assert!(world.game.is_disconnected);
    assert!(!world.game.waiting_network);
    assert!(!world.game.waiting_for_players);
    assert!(world.room.pending_disconnecting);
    assert_eq!(world.outbox, vec![]);
}

#[test]
fn a_game_is_cut_off_only_while_it_is_played() {
    let mut system = ClientNetworkSystem::new();
    let mut world = player();
    world.connection = None;
    world.room.connection_status = ConnectionStatus::Disconnected(None);
    assert_eq!(run(&mut system, &mut world, &tick()), Ok(()));
    assert!(!world.game.is_disconnected);
    world.game.is_playing = false;
    assert_eq!(run(&mut system, &mut world, &playing(50, 50)), Ok(()));
    assert!(!world.game.is_disconnected);
}

#[test]
fn a_joiner_that_leaves_is_disconnected_at_once() {
    let mut system = ClientNetworkSystem { session_id_autoinc: 1, last_heartbeat_frame: 0 };
    let mut world = player();
    world.room.pending_disconnecting = true;
    let events = vec![
        message(0, ServerMessagePayload::PauseWaitingForPlayers { id: 1, players: vec![3] }),
        message(0, ServerMessagePayload::Disconnect(DisconnectReason::Kick)),
    ];
    assert_eq!(system.run(&mut world, &tick(), None, None, &mut { events }), Ok(()));
    assert!(!world.room.pending_disconnecting);
    assert_eq!(world.connection.map(|c| c.disconnected), Some(true));
    assert_eq!(world.room.connection_status, ConnectionStatus::Disconnected(Some(DisconnectReason::Closed)));
    assert_eq!(world.outbox, vec![outgoing(0, Delivery::Reliable, ClientMessagePayload::Disconnect)]);
    assert_eq!(world.game.lagging_players, vec![]);
}

#[test]
fn a_host_that_leaves_keeps_its_status() {
    let mut world = player();
    world.room.is_host = true;
    world.room.connection_status = ConnectionStatus::Disconnecting;
    world.room.pending_disconnecting = true;
    leave_if_asked(&mut world);
    assert_eq!(world.room.connection_status, ConnectionStatus::Disconnecting);
    assert_eq!(world.connection.map(|c| c.disconnected), Some(true));
    assert_eq!(world.outbox.len(), 1);
    leave_if_asked(&mut world);
    assert_eq!(world.outbox.len(), 1);
}

#[test]
fn nobody_leaves_without_being_asked_or_without_a_connection() {
    let mut world = player();
    leave_if_asked(&mut world);
    assert_eq!(world, self::player());
    let mut world = joiner();
    world.room.pending_disconnecting = true;
    leave_if_asked(&mut world);
    assert!(world.room.pending_disconnecting);
    assert_eq!(world.outbox, vec![]);
}

#[test]
fn messages_carry_the_session_and_the_address_of_the_connection() {
    let connection = NetConnectionModel::new(3, 8, addr());
    let mut outbox = vec![];
    send_message_reliable(&mut outbox, &connection, ClientMessagePayload::Heartbeat);
    send_message_unreliable(&mut outbox, &connection, ClientMessagePayload::AcknowledgeWorldUpdate(2));
    send_message(&mut outbox, &connection, Delivery::Reliable, ClientMessagePayload::Disconnect);
    assert_eq!(
        outbox,
        vec![
            outgoing(8, Delivery::Reliable, ClientMessagePayload::Heartbeat),
            outgoing(8, Delivery::Unreliable, ClientMessagePayload::AcknowledgeWorldUpdate(2)),
            outgoing(8, Delivery::Reliable, ClientMessagePayload::Disconnect),
        ]
    );
}

#[test]
fn a_heartbeat_is_sent_when_more_than_ten_frames_have_passed() {
    assert_eq!(HEARTBEAT_FRAME_INTERVAL, 10);
    let mut system = ClientNetworkSystem { session_id_autoinc: 1, last_heartbeat_frame: 5 };
    let mut world = player();
    let at_frame = |engine_frame_number| TickContext { engine_frame_number, ..tick() };
    assert_eq!(run(&mut system, &mut world, &at_frame(15)), Ok(()));
    assert_eq!(world.outbox, vec![]);
    assert_eq!(system.last_heartbeat_frame, 5);
    assert_eq!(run(&mut system, &mut world, &at_frame(16)), Ok(()));
    assert_eq!(world.outbox, vec![outgoing(0, Delivery::Reliable, ClientMessagePayload::Heartbeat)]);
    assert_eq!(system.last_heartbeat_frame, 16);
    assert_eq!(run(&mut system, &mut world, &at_frame(26)), Ok(()));
    assert_eq!(world.outbox.len(), 1);
    assert_eq!(run(&mut system, &mut world, &at_frame(27)), Ok(()));
    assert_eq!(world.outbox.len(), 2);
    assert_eq!(system.last_heartbeat_frame, 27);
}

#[test]
fn no_heartbeat_is_sent_before_the_frame_of_the_last_one_or_on_a_closed_connection() {
    let mut world = player();
    let connection = world.connection.unwrap();
    assert!(!beat(&mut world, &connection, 50, 3));
    assert!(!beat(&mut world, &connection, u64::MAX, 0));
    assert!(beat(&mut world, &connection, 0, u64::MAX));
    assert_eq!(world.outbox.len(), 1);
    let closed = NetConnectionModel { disconnected: true, ..connection };
    assert!(!beat(&mut world, &closed, 0, 100));
    assert_eq!(world.outbox.len(), 1);
}

#[test]
fn a_client_waits_for_lagging_players_once_it_has_used_up_its_frames() {
    let mut world = player();
    world.game.lagging_players = vec![3];
    world.framed_updates.reserve_updates(40);
    await_players(&mut world, 29);
    assert!(!world.game.waiting_for_players);
    await_players(&mut world, 30);
    assert!(world.game.waiting_for_players);
    await_players(&mut world, 31);
    assert!(world.game.waiting_for_players);
    await_players(&mut world, 29);
    assert!(!world.game.waiting_for_players);
}

#[test]
fn with_nothing_received_a_client_waits_for_lagging_players() {
    let mut world = player();
    world.game.lagging_players = vec![3];
    await_players(&mut world, 0);
    assert!(world.game.waiting_for_players);
    world.framed_updates.reserve_updates(5);
    world.game.waiting_for_players = false;
    await_players(&mut world, 0);
    assert!(world.game.waiting_for_players);
}

#[test]
fn without_lagging_players_the_halt_for_them_is_left_as_it_is() {
    let mut world = player();
    world.framed_updates.reserve_updates(40);
    world.game.waiting_for_players = true;
    await_players(&mut world, 0);
    assert!(world.game.waiting_for_players);
    world.game.waiting_for_players = false;
    await_players(&mut world, 90);
    assert!(!world.game.waiting_for_players);
}

fn paced(waiting: bool, tick: &TickContext, last_frame: u64) -> bool {
    let mut world = player();
    world.game.waiting_network = waiting;
    world.last_acknowledged_update = LastAcknowledgedUpdate { id: 1, frame_number: last_frame };
    pace_network(&mut world, tick);
    world.game.waiting_network
}

#[test]
fn a_client_waits_during_the_first_frames_of_a_game() {
    for frame in 0..10 {
        assert!(paced(false, &playing(frame, frame), 100));
        assert!(paced(true, &playing(0, frame), 10));
    }
}

#[test]
fn the_wait_of_the_first_frames_is_lifted_at_the_delay() {
    assert!(!paced(true, &playing(10, 10), 30));
    assert!(!paced(true, &playing(5, 10), 0));
    assert!(!paced(true, &playing(20, 10), 0));
    assert!(paced(true, &playing(21, 10), 0));
    assert!(paced(false, &playing(21, 10), 0));
}

#[test]
fn a_client_starts_to_wait_only_far_ahead_and_goes_on_only_when_caught_up() {
    assert_eq!(PAUSE_FRAME_THRESHOLD, 20);
    for ahead in 0..=45u64 {
        let tick = playing(20 + ahead, 500);
        let started = paced(false, &tick, 30);
        let kept = paced(true, &tick, 30);
        assert_eq!(started, ahead > 20, "ahead by {}", ahead);
        assert_eq!(kept, ahead != 0, "ahead by {}", ahead);
    }
}

#[test]
fn a_client_behind_the_server_is_not_ahead() {
    assert!(!paced(true, &playing(3, 500), 30));
    assert!(!paced(false, &playing(3, 500), 30));
    assert!(!paced(true, &playing(0, 11), 5));
    assert!(paced(true, &playing(1, 11), 5));
    assert!(paced(false, &playing(u64::MAX, 11), 0));
}

#[test]
fn the_halt_for_the_network_is_decided_only_while_the_game_is_played() {
    let mut world = player();
    world.game.waiting_network = true;
    pace_network(&mut world, &tick());
    assert!(world.game.waiting_network);
    let mut world = player();
    world.game.is_playing = false;
    pace_network(&mut world, &playing(90, 90));
    assert!(!world.game.waiting_network);
    pace_network(&mut world, &playing(0, 0));
    assert!(!world.game.waiting_network);
}

#[test]
fn the_two_halts_are_decided_apart() {
    let mut system = ClientNetworkSystem::new();
    let mut world = player();
    world.game.lagging_players = vec![3];
    world.framed_updates.reserve_updates(100);
    world.last_acknowledged_update = LastAcknowledgedUpdate { id: 1, frame_number: 100 };
    assert_eq!(run(&mut system, &mut world, &playing(111, 500)), Ok(()));
    assert!(world.game.waiting_for_players);
    assert!(world.game.waiting_network);
    assert_eq!(run(&mut system, &mut world, &playing(89, 501)), Ok(()));
    assert!(!world.game.waiting_for_players);
    assert!(!world.game.waiting_network);
    assert_eq!(run(&mut system, &mut world, &playing(95, 502)), Ok(()));
    assert!(world.game.waiting_for_players);
    assert!(!world.game.waiting_network);
}

#[test]
fn a_kick_is_passed_on_to_the_server() {
    let mut system = ClientNetworkSystem::new();
    let mut world = player();
    world.game.players = vec![
        MultiplayerRoomPlayer { connection_id: 2, entity_net_id: 0 },
        MultiplayerRoomPlayer { connection_id: 6, entity_net_id: 0 },
    ];
    let command = Some(UiNetworkCommand::Kick { player_number: 1 });
    assert_eq!(system.run(&mut world, &tick(), command, None, &mut vec![]), Ok(()));
    assert_eq!(
        world.outbox,
        vec![outgoing(0, Delivery::Reliable, ClientMessagePayload::Kick { kicked_connection_id: 6 })]
    );
}

#[test]
fn a_kick_that_can_be_carried_out_names_the_player_s_connection() {
    let mut world = player();
    world.game.players = vec![
        MultiplayerRoomPlayer { connection_id: 2, entity_net_id: 0 },
        MultiplayerRoomPlayer { connection_id: 6, entity_net_id: 0 },
    ];
    process_ui_network_command(UiNetworkCommand::Kick { player_number: 0 }, &mut world);
    assert_eq!(submit_ui_network_command(UiNetworkCommand::Kick { player_number: 1 }, &mut world), Ok(()));
    assert_eq!(
        world.outbox,
        vec![
            outgoing(0, Delivery::Reliable, ClientMessagePayload::Kick { kicked_connection_id: 2 }),
            outgoing(0, Delivery::Reliable, ClientMessagePayload::Kick { kicked_connection_id: 6 }),
        ]
    );
}

#[test]
fn a_kick_of_a_player_that_is_not_there_is_fatal() {
    let mut world = player();
    world.game.players = vec![MultiplayerRoomPlayer { connection_id: 2, entity_net_id: 0 }];
    assert_eq!(
        submit_ui_network_command(UiNetworkCommand::Kick { player_number: 1 }, &mut world),
        Err(FatalError::UnknownPlayer { player_number: 1 })
    );
    assert_eq!(world.outbox, vec![]);
    let mut system = ClientNetworkSystem::new();
    world.room.pending_disconnecting = true;
    let command = Some(UiNetworkCommand::Kick { player_number: 7 });
    assert_eq!(
        system.run(&mut world, &tick(), command, None, &mut vec![]),
        Err(FatalError::UnknownPlayer { player_number: 7 })
    );
    assert!(world.room.pending_disconnecting);
}

#[test]
fn a_kick_without_a_connection_is_fatal() {
    let mut world = joiner();
    world.game.players = vec![MultiplayerRoomPlayer { connection_id: 2, entity_net_id: 0 }];
    assert_eq!(
        submit_ui_network_command(UiNetworkCommand::Kick { player_number: 0 }, &mut world),
        Err(FatalError::NoServerConnection)
    );
    assert_eq!(server_connection(&world), Err(FatalError::NoServerConnection));
    assert_eq!(server_connection(&player()), Ok(NetConnectionModel::new(0, 0, addr())));
}

#[test]
fn the_other_commands_are_not_the_network_s_business() {
    for command in [
        UiNetworkCommand::Host,
        UiNetworkCommand::Connect,
        UiNetworkCommand::Start,
        UiNetworkCommand::Leave,
        UiNetworkCommand::Reset,
    ] {
        let mut world = joiner();
        assert_eq!(submit_ui_network_command(command, &mut world), Ok(()));
        assert_eq!(world, self::joiner());
        process_ui_network_command(command, &mut world);
        assert_eq!(world, self::joiner());
    }
}

#[test]
fn a_failure_among_the_events_ends_the_tick() {
    let mut system = ClientNetworkSystem::new();
    let mut world = player();
    world.game.is_playing = false;
    world.room.connection_status = ConnectionStatus::Connecting(at(0, 0));
    world.game.lagging_players = vec![1];
    let events = vec![message(0, ServerMessagePayload::StartGame(vec![]))];
    let tick = TickContext { engine_frame_number: 90, ..playing(50, 50) };
    assert_eq!(system.run(&mut world, &tick, None, None, &mut { events }), Err(FatalError::NotConnected));
    assert_eq!(world.outbox, vec![]);
    assert_eq!(system.last_heartbeat_frame, 0);
    assert!(!world.game.waiting_for_players);
}

#[test]
fn a_tick_goes_from_the_command_to_the_halts() {
    let mut system = ClientNetworkSystem { session_id_autoinc: 7, last_heartbeat_frame: 0 };
    let mut world = joiner();
    world.game.players = vec![MultiplayerRoomPlayer { connection_id: 1, entity_net_id: 0 }];
    world.connection = Some(NetConnectionModel::new(0, 6, addr()));
    world.room.has_sent_join_message = true;
    let events = vec![
        message(6, ServerMessagePayload::Handshake { net_id: 1, is_host: false }),
        message(6, ServerMessagePayload::StartGame(vec![55])),
        message(6, ServerMessagePayload::UpdateWorld { id: 1, updates: vec![] }),
    ];
    let tick = TickContext { engine_frame_number: 11, ..playing(0, 0) };
    let command = Some(UiNetworkCommand::Kick { player_number: 0 });
    assert_eq!(system.run(&mut world, &tick, command, None, &mut { events }), Ok(()));
    assert_eq!(
        world.outbox,
        vec![
            outgoing(6, Delivery::Reliable, ClientMessagePayload::Kick { kicked_connection_id: 1 }),
            outgoing(6, Delivery::Unreliable, ClientMessagePayload::AcknowledgeWorldUpdate(1)),
            outgoing(6, Delivery::Reliable, ClientMessagePayload::Heartbeat),
        ]
    );
    assert_eq!(system, ClientNetworkSystem { session_id_autoinc: 7, last_heartbeat_frame: 11 });
    assert_eq!(world.room.player_net_id, 55);
    assert!(world.game.is_playing);
    assert!(world.game.waiting_network);
    assert_eq!(world.new_game_engine_state, GameEngineState::Playing);
    assert_eq!(world.framed_updates.back_frame(), Some(0));
}

fn some_events() -> Vec<Event> {
    vec![
        message(0, ServerMessagePayload::PauseWaitingForPlayers { id: 1, players: vec![3] }),
        NetEvent::Connected,
    ]
}

#[test]
fn a_tick_that_gets_to_the_events_takes_them_off_the_queue() {
    let mut system = ClientNetworkSystem::new();
    let mut world = player();
    let mut events = some_events();
    assert_eq!(system.run(&mut world, &tick(), None, None, &mut events), Ok(()));
    assert_eq!(events, vec![]);
    assert_eq!(world.game.lagging_players, vec![3]);
}

#[test]
fn a_tick_that_fails_on_an_event_has_taken_the_queue() {
    let mut system = ClientNetworkSystem::new();
    let mut world = player();
    world.game.is_playing = false;
    world.room.connection_status = ConnectionStatus::Disconnecting;
    let mut events = vec![message(0, ServerMessagePayload::StartGame(vec![])), NetEvent::Connected];
    assert_eq!(
        system.run(&mut world, &tick(), None, None, &mut events),
        Err(FatalError::NotConnected)
    );
    assert_eq!(events, vec![]);
}

#[test]
fn a_tick_without_a_connection_leaves_the_events_on_the_queue() {
    let mut system = ClientNetworkSystem::new();
    let mut world = joiner();
    world.room.connection_status = ConnectionStatus::Disconnected(None);
    let mut events = some_events();
    assert_eq!(system.run(&mut world, &tick(), None, None, &mut events), Ok(()));
    assert_eq!(events, some_events());
    assert_eq!(world.game.lagging_players, vec![]);
}

#[test]
fn a_tick_that_ends_early_leaves_the_events_on_the_queue() {
    let mut system = ClientNetworkSystem::new();
    let mut world = player();
    world.room.is_active = false;
    let mut events = some_events();
    assert_eq!(system.run(&mut world, &tick(), None, None, &mut events), Ok(()));
    assert_eq!(events, some_events());

    let mut world = player();
    let command = Some(UiNetworkCommand::Kick { player_number: 0 });
    assert_eq!(
        system.run(&mut world, &tick(), command, None, &mut events),
        Err(FatalError::UnknownPlayer { player_number: 0 })
    );
    assert_eq!(events, some_events());

    let mut world = joiner();
    world.room.connection_status = ConnectionStatus::Disconnected(None);
    world.room.is_host = true;
    world.room.has_started = true;
    assert_eq!(
        system.run(&mut world, &tick(), None, None, &mut events),
        Err(FatalError::NoServerConnection)
    );
    assert_eq!(events, some_events());
}

#[test]
fn a_new_world_is_empty() {
    let room = MultiplayerRoomState::new(String::from("Al"), addr());
    assert!(ClientWorld::<u32, u32, u32, u32, u32>::new(room.clone(), 0).is_none());
    let world: World = ClientWorld::new(room.clone(), 3).unwrap();
    assert_eq!(world.connection, None);
    assert_eq!(world.room, room);
    assert_eq!(world.room.connection_status, ConnectionStatus::Disconnected(None));
    assert!(!world.room.is_active);
    assert_eq!(world.game, MultiplayerGameState::new());
    assert_eq!(world.framed_updates.len(), 0);
    assert_eq!(world.outbox, vec![]);
    assert_eq!(world.new_game_engine_state, GameEngineState::Loading);
    assert!(!GameEngineState::Menu.is_playing());
    assert!(GameEngineState::Playing.is_playing());
}

#[test]
fn a_status_tells_what_it_is() {
    let connected = ConnectionStatus::Connected(4);
    assert!(connected.is_connected() && !connected.is_connecting() && !connected.is_not_connected());
    assert_eq!(connected.connection_id(), Some(4));
    let connecting = ConnectionStatus::Connecting(at(1, 0));
    assert!(connecting.is_connecting() && !connecting.is_connected() && !connecting.is_not_connected());
    assert_eq!(connecting.connection_id(), None);
    assert!(ConnectionStatus::Disconnected(None).is_not_connected());
    assert!(ConnectionStatus::ConnectionFailed(None).is_not_connected());
    assert!(!ConnectionStatus::Disconnecting.is_not_connected());
    assert_eq!(ConnectionStatus::Disconnecting.connection_id(), None);
}
