//! Keeping pace with the server: heartbeats, and the two conditions under
//! which the simulation halts.

use crate::client::{ClientWorld, TickContext, WorldView};
use crate::frames::FrameWindow;
use crate::lifecycle::{send_message_reliable, sent};
use crate::messages::{ClientMessagePayload, ClientPayloadView, Delivery};
use crate::reconcile::{delayed, delayed_frame};
use crate::state::{GameView, NetConnectionModel};
use crate::world::INTERPOLATION_FRAME_DELAY;
use vstd::prelude::*;

verus! {

/// Frames that pass between two heartbeats at the least.
pub const HEARTBEAT_FRAME_INTERVAL: u64 = 10;

/// Frames that the client may run ahead of what the server confirmed
/// before it halts.
pub const PAUSE_FRAME_THRESHOLD: u64 = 20;

/// Whether a heartbeat is due: the connection is open on this side and more
/// than the interval has passed since the last one.
pub open spec fn heartbeat_is_due(
    last_heartbeat_frame: u64,
    engine_frame_number: u64,
    connection: NetConnectionModel,
) -> bool {
    engine_frame_number - last_heartbeat_frame > HEARTBEAT_FRAME_INTERVAL
        && !connection.disconnected
}

/// Sends a heartbeat where one is due and says whether it did.
pub fn beat<W, C, L, M, S>(
    world: &mut ClientWorld<W, C, L, M, S>,
    connection: &NetConnectionModel,
    last_heartbeat_frame: u64,
    engine_frame_number: u64,
) -> (due: bool)
    ensures
        due == heartbeat_is_due(last_heartbeat_frame, engine_frame_number, *connection),
        final(world)@ == (if due {
            WorldView {
                outbox: sent(
                    old(world)@.outbox,
                    *connection,
                    Delivery::Reliable,
                    ClientPayloadView::Heartbeat,
                ),
                ..old(world)@
            }
        } else {
            old(world)@
        }),
{
    if engine_frame_number > last_heartbeat_frame && engine_frame_number - last_heartbeat_frame
        > HEARTBEAT_FRAME_INTERVAL && !connection.disconnected {
        send_message_reliable(&mut world.outbox, connection, ClientMessagePayload::Heartbeat);
        true
    } else {
        false
    }
}

/// The newest frame that the server is known to have reached: the last one
/// of the buffer, and 0 for an empty buffer.
pub open spec fn server_known_frame<V>(window: FrameWindow<V>) -> int {
    if window.slots.len() == 0 {
        0
    } else {
        window.end_frame() - 1
    }
}

/// The world after the halt for lagging players is decided. While the
/// server reports lagging players, the client halts once it has used up the
/// frames it received; with frames left it goes on.
pub open spec fn players_awaited<W, C, L, M, S>(
    world: WorldView<W, C, L, M, S>,
    game_frame_number: u64,
) -> WorldView<W, C, L, M, S> {
    if world.game.lagging_players.len() > 0 {
        WorldView {
            game: GameView {
                waiting_for_players: game_frame_number + INTERPOLATION_FRAME_DELAY
                    >= server_known_frame(world.framed_updates),
                ..world.game
            },
            ..world
        }
    } else {
        world
    }
}

/// Decides the halt for lagging players.
pub fn await_players<W, C, L, M, S>(world: &mut ClientWorld<W, C, L, M, S>, game_frame_number: u64)
    ensures
        final(world)@ == players_awaited(old(world)@, game_frame_number),
{
    if world.game.lagging_players.len() > 0 {
        let server_frame = match world.framed_updates.back_frame() {
            Some(frame) => frame,
            None => 0,
        };
        world.game.waiting_for_players = game_frame_number >= delayed_frame(server_frame);
    }
}

/// How many frames the client is ahead of the frame it should be
/// replaying, given the highest frame the server has confirmed.
pub open spec fn frames_ahead(game_frame_number: u64, last_acknowledged_frame: u64) -> int {
    let target = delayed(last_acknowledged_frame);
    if game_frame_number >= target {
        game_frame_number - target
    } else {
        0
    }
}

/// The halt for the network in the steady state: a client that waits goes
/// on only when it is not ahead at all, and one that runs halts only when it
/// is ahead by more than the threshold.
pub open spec fn keeps_waiting(waiting: bool, ahead: int) -> bool {
    if waiting {
        ahead != 0
    } else {
        ahead > PAUSE_FRAME_THRESHOLD
    }
}

/// The halt for the network after a tick. During the first frames of a
/// game, up to the interpolation delay, the client waits. At the delay itself
/// the wait is lifted before the steady state is looked at.
pub open spec fn network_waiting(
    waiting: bool,
    game_frame_number_absolute: u64,
    game_frame_number: u64,
    last_acknowledged_frame: u64,
) -> bool {
    let ahead = frames_ahead(game_frame_number, last_acknowledged_frame);
    if game_frame_number_absolute < INTERPOLATION_FRAME_DELAY {
        true
    } else if game_frame_number_absolute == INTERPOLATION_FRAME_DELAY {
        keeps_waiting(false, ahead)
    } else {
        keeps_waiting(waiting, ahead)
    }
}

/// The world after the halt for the network is decided, which happens only
/// while the game is played.
pub open spec fn network_paced<W, C, L, M, S>(
    world: WorldView<W, C, L, M, S>,
    tick: TickContext,
) -> WorldView<W, C, L, M, S> {
    if tick.game_engine_state is Playing && world.game.is_playing {
        WorldView {
            game: GameView {
                waiting_network: network_waiting(
                    world.game.waiting_network,
                    tick.game_frame_number_absolute,
                    tick.game_frame_number,
                    world.last_acknowledged_update.frame_number,
                ),
                ..world.game
            },
            ..world
        }
    } else {
        world
    }
}

/// Decides the halt for the network.
pub fn pace_network<W, C, L, M, S>(world: &mut ClientWorld<W, C, L, M, S>, tick: &TickContext)
    ensures
        final(world)@ == network_paced(old(world)@, *tick),
{
    if tick.game_engine_state.is_playing() && world.game.is_playing {
        if tick.game_frame_number_absolute < INTERPOLATION_FRAME_DELAY {
            world.game.waiting_network = true;
            return ;
        }
        if tick.game_frame_number_absolute == INTERPOLATION_FRAME_DELAY {
            world.game.waiting_network = false;
        }
        let frames_ahead = tick.game_frame_number.saturating_sub(
            delayed_frame(world.last_acknowledged_update.frame_number),
        );
        if world.game.waiting_network {
            world.game.waiting_network = frames_ahead != 0;
        } else if frames_ahead > PAUSE_FRAME_THRESHOLD {
            world.game.waiting_network = true;
        }
    }
}

/// A client that runs starts to wait only when it is ahead by more than
/// the threshold, and one that waits stops only when it is not ahead at all.
pub proof fn lemma_pause_hysteresis(
    waiting: bool,
    game_frame_number_absolute: u64,
    game_frame_number: u64,
    last_acknowledged_frame: u64,
)
    requires
        game_frame_number_absolute > INTERPOLATION_FRAME_DELAY,
    ensures
        !waiting && network_waiting(
            waiting,
            game_frame_number_absolute,
            game_frame_number,
            last_acknowledged_frame,
        ) ==> frames_ahead(game_frame_number, last_acknowledged_frame) > PAUSE_FRAME_THRESHOLD,
        waiting && !network_waiting(
            waiting,
            game_frame_number_absolute,
            game_frame_number,
            last_acknowledged_frame,
        ) ==> frames_ahead(game_frame_number, last_acknowledged_frame) == 0,
        frames_ahead(game_frame_number, last_acknowledged_frame) > PAUSE_FRAME_THRESHOLD
            ==> network_waiting(
            waiting,
            game_frame_number_absolute,
            game_frame_number,
            last_acknowledged_frame,
        ),
        frames_ahead(game_frame_number, last_acknowledged_frame) == 0 ==> !network_waiting(
            waiting,
            game_frame_number_absolute,
            game_frame_number,
            last_acknowledged_frame,
        ),
        0 < frames_ahead(game_frame_number, last_acknowledged_frame) <= PAUSE_FRAME_THRESHOLD
            ==> network_waiting(
            waiting,
            game_frame_number_absolute,
            game_frame_number,
            last_acknowledged_frame,
        ) == waiting,
{
}

} // verus!
