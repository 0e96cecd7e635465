//! Merging what the server reports into the client's frame buffers.

use crate::error::FatalError;
use crate::frames::{views, FrameWindow, FramedUpdates};
use crate::world::{
    ClientActionUpdate, NetIdentifier, NetUpdate, PlayerActionUpdates, PlayerActionsView,
    PlayerUpdateView, ReceivedPlayerUpdate, ReceivedServerWorldUpdate,
    ReceivedUpdateView, ServerWorldUpdate, ServerWorldUpdateView, SpawnActions,
    INTERPOLATION_FRAME_DELAY,
};
use vstd::multiset::Multiset;
use vstd::prelude::*;

verus! {

/// Index of the first element of `s` that satisfies `p`; the length of `s`
/// if none does.
pub open spec fn first_index<T>(s: Seq<T>, p: spec_fn(T) -> bool) -> int
    decreases s.len(),
{
    if s.len() == 0 || p(s[0]) {
        0
    } else {
        1 + first_index(s.drop_first(), p)
    }
}

/// `first_index` is the one index before which nothing satisfies `p` and
/// which is the end or satisfies `p` itself.
pub proof fn lemma_first_index<T>(s: Seq<T>, p: spec_fn(T) -> bool, i: int)
    requires
        0 <= i <= s.len(),
        forall|j: int| 0 <= j < i ==> !p(#[trigger] s[j]),
        i < s.len() ==> p(s[i]),
    ensures
        first_index(s, p) == i,
    decreases s.len(),
{
    if i > 0 {
        let rest = s.drop_first();
        assert(!p(s[0]));
        assert forall|j: int| 0 <= j < i - 1 implies !p(#[trigger] rest[j]) by {
            assert(rest[j] == s[j + 1]);
        }
        lemma_first_index(rest, p, i - 1);
    }
}

/// The first index is within bounds, hits `p` where it is not the end, and
/// nothing before it does.
pub proof fn lemma_first_index_is_first<T>(s: Seq<T>, p: spec_fn(T) -> bool)
    ensures
        0 <= first_index(s, p) <= s.len(),
        first_index(s, p) < s.len() ==> p(s[first_index(s, p)]),
        forall|j: int| 0 <= j < first_index(s, p) ==> !p(#[trigger] s[j]),
    decreases s.len(),
{
    if s.len() == 0 || p(s[0]) {
    } else {
        let rest = s.drop_first();
        lemma_first_index_is_first(rest, p);
        assert forall|j: int| 0 <= j < first_index(s, p) implies !p(#[trigger] s[j]) by {
            if j > 0 {
                assert(rest[j - 1] == s[j]);
            }
        }
    }
}

/// Index of the last element of `s` that satisfies `p`; -1 if none does.
pub open spec fn last_index<T>(s: Seq<T>, p: spec_fn(T) -> bool) -> int
    decreases s.len(),
{
    if s.len() == 0 {
        -1
    } else if p(s.last()) {
        s.len() - 1
    } else {
        last_index(s.drop_last(), p)
    }
}

/// `last_index` is the one index after which nothing satisfies `p` and
/// which is -1 or satisfies `p` itself.
pub proof fn lemma_last_index<T>(s: Seq<T>, p: spec_fn(T) -> bool, i: int)
    requires
        -1 <= i < s.len(),
        forall|j: int| i < j < s.len() ==> !p(#[trigger] s[j]),
        0 <= i ==> p(s[i]),
    ensures
        last_index(s, p) == i,
    decreases s.len(),
{
    if s.len() > 0 && i < s.len() - 1 {
        let front = s.drop_last();
        assert(!p(s[s.len() - 1]));
        assert forall|j: int| i < j < front.len() implies !p(#[trigger] front[j]) by {
            assert(front[j] == s[j]);
        }
        if 0 <= i {
            assert(front[i] == s[i]);
        }
        lemma_last_index(front, p, i);
    }
}

/// The last index is -1 or within bounds and hits `p`, and nothing after
/// it does.
pub proof fn lemma_last_index_is_last<T>(s: Seq<T>, p: spec_fn(T) -> bool)
    ensures
        -1 <= last_index(s, p) < s.len(),
        0 <= last_index(s, p) ==> p(s[last_index(s, p)]),
        forall|j: int| last_index(s, p) < j < s.len() ==> !p(#[trigger] s[j]),
    decreases s.len(),
{
    if s.len() > 0 && !p(s.last()) {
        let front = s.drop_last();
        lemma_last_index_is_last(front, p);
        assert(0 <= last_index(s, p) ==> front[last_index(s, p)] == s[last_index(s, p)]);
        assert forall|j: int| last_index(s, p) < j < s.len() implies !p(#[trigger] s[j]) by {
            if j < front.len() {
                assert(front[j] == s[j]);
            }
        }
    }
}

/// Whether an action is of an entity among `controlled`.
pub open spec fn is_controlled<A>(controlled: Seq<NetIdentifier>) -> spec_fn(NetUpdate<A>) -> bool {
    |a: NetUpdate<A>| controlled.contains(a.entity_net_id)
}

/// Index of the first action of an entity among `controlled`; the number of
/// actions if there is none.
pub open spec fn first_controlled<A>(
    actions: Seq<NetUpdate<A>>,
    controlled: Seq<NetIdentifier>,
) -> int {
    first_index(actions, is_controlled(controlled))
}

/// The first action of a controlled entity, as a list of at most one.
pub open spec fn controlled_of<A>(
    actions: Seq<NetUpdate<A>>,
    controlled: Seq<NetIdentifier>,
) -> Seq<NetUpdate<A>> {
    let at = first_controlled(actions, controlled);
    if at < actions.len() {
        seq![actions[at]]
    } else {
        Seq::empty()
    }
}

/// The actions without the first one of a controlled entity.
pub open spec fn without_controlled<A>(
    actions: Seq<NetUpdate<A>>,
    controlled: Seq<NetIdentifier>,
) -> Seq<NetUpdate<A>> {
    let at = first_controlled(actions, controlled);
    if at < actions.len() {
        actions.remove(at)
    } else {
        actions
    }
}

/// What is set aside of an update for the controlled entities: their first
/// walk and first cast action. Look actions are never replayed.
pub open spec fn predicted_of<W, C, L>(
    update: PlayerUpdateView<W, C, L>,
    controlled: Seq<NetIdentifier>,
) -> PlayerUpdateView<W, C, L> {
    PlayerUpdateView {
        walk: controlled_of(update.walk, controlled),
        cast: controlled_of(update.cast, controlled),
        look: Seq::empty(),
    }
}

/// What stays in an update once the controlled entities' first walk, cast and
/// look action are taken out.
pub open spec fn rest_of<W, C, L>(
    update: PlayerUpdateView<W, C, L>,
    controlled: Seq<NetIdentifier>,
) -> PlayerUpdateView<W, C, L> {
    PlayerUpdateView {
        walk: without_controlled(update.walk, controlled),
        cast: without_controlled(update.cast, controlled),
        look: without_controlled(update.look, controlled),
    }
}

/// Whether `id` is among `ids`.
pub fn contains_id(ids: &[NetIdentifier], id: NetIdentifier) -> (found: bool)
    ensures
        found == ids@.contains(id),
{
    let mut i: usize = 0;
    while i < ids.len()
        invariant
            i <= ids.len(),
            forall|j: int| 0 <= j < i ==> ids@[j] != id,
        decreases ids.len() - i,
    {
        if ids[i] == id {
            return true;
        }
        i = i + 1;
    }
    false
}

/// Takes the first action of a controlled entity out of `actions`.
pub fn take_controlled<A>(actions: &mut Vec<NetUpdate<A>>, controlled: &[NetIdentifier]) -> (taken:
    Option<NetUpdate<A>>)
    ensures
        final(actions)@ == without_controlled(old(actions)@, controlled@),
        taken is Some <==> first_controlled(old(actions)@, controlled@) < old(actions)@.len(),
        taken matches Some(action) ==> action == old(actions)@[first_controlled(
            old(actions)@,
            controlled@,
        )],
{
    let ghost p = is_controlled::<A>(controlled@);
    let mut i: usize = 0;
    while i < actions.len()
        invariant
            i <= actions.len(),
            actions@ == old(actions)@,
            p == is_controlled::<A>(controlled@),
            forall|j: int| 0 <= j < i ==> !p(#[trigger] actions@[j]),
        decreases actions.len() - i,
    {
        if contains_id(controlled, actions[i].entity_net_id) {
            proof {
                lemma_first_index(actions@, p, i as int);
            }
            let action = actions.remove(i);
            return Some(action);
        }
        i = i + 1;
    }
    proof {
        lemma_first_index(actions@, p, i as int);
    }
    None
}

/// Sets aside, out of `update`, what belongs to the controlled entities.
pub fn split_controlled<W, C, L>(
    update: &mut ReceivedPlayerUpdate<W, C, L>,
    controlled: &[NetIdentifier],
) -> (predicted: ReceivedPlayerUpdate<W, C, L>)
    ensures
        predicted@ == predicted_of(old(update)@, controlled@),
        final(update)@ == rest_of(old(update)@, controlled@),
{
    let mut predicted = ReceivedPlayerUpdate::new();
    if let Some(walk) = take_controlled(&mut update.player_walk_actions_updates, controlled) {
        predicted.player_walk_actions_updates.push(walk);
    }
    if let Some(cast) = take_controlled(&mut update.player_cast_actions_updates, controlled) {
        predicted.player_cast_actions_updates.push(cast);
    }
    let _ = take_controlled(&mut update.player_look_actions_updates, controlled);
    assert(predicted@.walk =~= predicted_of(old(update)@, controlled@).walk);
    assert(predicted@.cast =~= predicted_of(old(update)@, controlled@).cast);
    assert(predicted@.look =~= predicted_of(old(update)@, controlled@).look);
    predicted
}

/// Whether an update is for a frame at or past the interpolation delay.
pub open spec fn past_warmup<W, C, L, M, S>() -> spec_fn(
    ServerWorldUpdateView<W, C, L, M, S>,
) -> bool {
    |u: ServerWorldUpdateView<W, C, L, M, S>| u.frame_number >= INTERPOLATION_FRAME_DELAY
}

/// Number of leading updates of a batch that fall into the first frames of
/// a game, before the interpolation delay has passed.
pub open spec fn warmup_len<W, C, L, M, S>(batch: Seq<ServerWorldUpdateView<W, C, L, M, S>>) -> int {
    first_index(batch, past_warmup())
}

/// What a batch sets aside for the controlled entities: one update for each
/// update of the batch after the warm-up.
pub open spec fn predicted_updates<W, C, L, M, S>(
    batch: Seq<ServerWorldUpdateView<W, C, L, M, S>>,
    controlled: Seq<NetIdentifier>,
) -> Seq<PlayerUpdateView<W, C, L>> {
    let skipped = warmup_len(batch);
    Seq::new(
        (batch.len() - skipped) as nat,
        |i: int| predicted_of(batch[skipped + i].player_updates, controlled),
    )
}

/// The batch without what was set aside for the controlled entities.
pub open spec fn remaining_updates<W, C, L, M, S>(
    batch: Seq<ServerWorldUpdateView<W, C, L, M, S>>,
    controlled: Seq<NetIdentifier>,
) -> Seq<ServerWorldUpdateView<W, C, L, M, S>> {
    let skipped = warmup_len(batch);
    Seq::new(
        batch.len(),
        |i: int|
            if i < skipped {
                batch[i]
            } else {
                ServerWorldUpdateView {
                    player_updates: rest_of(batch[i].player_updates, controlled),
                    ..batch[i]
                }
            },
    )
}

/// Takes the controlled entities' actions out of a batch, update by update,
/// leaving the warm-up updates at its start as they are.
pub fn collect_controlled_player_updates<W, C, L, M, S>(
    controlled_players: &[NetIdentifier],
    incoming_updates: &mut Vec<ServerWorldUpdate<W, C, L, M, S>>,
) -> (collected: Vec<ReceivedPlayerUpdate<W, C, L>>)
    ensures
        views(collected@) == predicted_updates(views(old(incoming_updates)@), controlled_players@),
        views(final(incoming_updates)@) == remaining_updates(
            views(old(incoming_updates)@),
            controlled_players@,
        ),
        0 <= warmup_len(views(old(incoming_updates)@)) <= old(incoming_updates)@.len(),
        collected@.len() == old(incoming_updates)@.len() - warmup_len(views(old(incoming_updates)@)),
        final(incoming_updates)@.len() == old(incoming_updates)@.len(),
{
    let ghost batch = views(incoming_updates@);
    let ghost past = past_warmup::<W, C, L, M, S>();
    let n = incoming_updates.len();
    let mut skipped: usize = 0;
    while skipped < n && incoming_updates[skipped].frame_number < INTERPOLATION_FRAME_DELAY
        invariant
            skipped <= n,
            n == incoming_updates.len(),
            batch == views(incoming_updates@),
            past == past_warmup::<W, C, L, M, S>(),
            forall|j: int| 0 <= j < skipped ==> !past(#[trigger] batch[j]),
        decreases n - skipped,
    {
        skipped = skipped + 1;
    }
    proof {
        lemma_first_index(batch, past, skipped as int);
    }
    let mut collected: Vec<ReceivedPlayerUpdate<W, C, L>> = Vec::new();
    let mut i: usize = skipped;
    while i < n
        invariant
            skipped <= i <= n,
            n == incoming_updates.len(),
            n == batch.len(),
            skipped == warmup_len(batch),
            collected@.len() == i - skipped,
            views(collected@) == Seq::new(
                (i - skipped) as nat,
                |j: int| predicted_of(batch[skipped + j].player_updates, controlled_players@),
            ),
            views(incoming_updates@) == Seq::new(
                n as nat,
                |j: int|
                    if skipped <= j < i {
                        ServerWorldUpdateView {
                            player_updates: rest_of(batch[j].player_updates, controlled_players@),
                            ..batch[j]
                        }
                    } else {
                        batch[j]
                    },
            ),
        decreases n - i,
    {
        let ghost before = incoming_updates@;
        let ghost collected_before = collected@;
        assert(views(before)[i as int] == batch[i as int]);
        let update = &mut incoming_updates[i];
        let predicted = split_controlled(&mut update.player_updates, controlled_players);
        collected.push(predicted);
        i = i + 1;
        assert(views(collected@) =~= Seq::new(
            (i - skipped) as nat,
            |j: int| predicted_of(batch[skipped + j].player_updates, controlled_players@),
        )) by {
            assert forall|j: int| 0 <= j < i - skipped - 1 implies views(collected@)[j]
                == predicted_of(batch[skipped + j].player_updates, controlled_players@) by {
                assert(views(collected_before)[j] == collected_before[j]@);
            }
        }
        assert(views(incoming_updates@) =~= Seq::new(
            n as nat,
            |j: int|
                if skipped <= j < i {
                    ServerWorldUpdateView {
                        player_updates: rest_of(batch[j].player_updates, controlled_players@),
                        ..batch[j]
                    }
                } else {
                    batch[j]
                },
        )) by {
            assert forall|j: int| 0 <= j < n implies #[trigger] views(incoming_updates@)[j] == (if skipped
                <= j < i {
                ServerWorldUpdateView {
                    player_updates: rest_of(batch[j].player_updates, controlled_players@),
                    ..batch[j]
                }
            } else {
                batch[j]
            }) by {
                assert(views(before)[j] == before[j]@);
            }
        }
    }
    assert(views(collected@) =~= predicted_updates(batch, controlled_players@));
    assert(views(incoming_updates@) =~= remaining_updates(batch, controlled_players@));
    collected
}

/// The frame at which the client replays what the server reported for
/// `frame`: the interpolation delay earlier, and not before frame 0.
pub open spec fn delayed(frame: u64) -> u64 {
    if frame >= INTERPOLATION_FRAME_DELAY {
        (frame - INTERPOLATION_FRAME_DELAY) as u64
    } else {
        0
    }
}

/// Computes [`delayed`].
pub fn delayed_frame(frame: u64) -> (earlier: u64)
    ensures
        earlier == delayed(frame),
{
    frame.saturating_sub(INTERPOLATION_FRAME_DELAY)
}

/// Whether a batch begins before the frames that the buffer still keeps.
pub open spec fn is_stale<V, W, C, L, M, S>(
    window: FrameWindow<V>,
    batch: Seq<ServerWorldUpdateView<W, C, L, M, S>>,
) -> bool {
    batch.len() > 0 && (window.slots.len() == 0 || delayed(batch[0].frame_number)
        < window.front_frame)
}

/// The error that a stale batch is refused with.
pub open spec fn stale_error<V, W, C, L, M, S>(
    window: FrameWindow<V>,
    batch: Seq<ServerWorldUpdateView<W, C, L, M, S>>,
) -> FatalError {
    FatalError::StaleUpdate {
        first_incoming_frame: delayed(batch[0].frame_number),
        first_available_frame: if window.slots.len() == 0 {
            None
        } else {
            Some(window.front_frame)
        },
    }
}

/// Whether an update reports `frame`.
pub open spec fn reports<W, C, L, M, S>(frame: int) -> spec_fn(
    ServerWorldUpdateView<W, C, L, M, S>,
) -> bool {
    |u: ServerWorldUpdateView<W, C, L, M, S>| u.frame_number == frame
}

/// Whether what an update reports of the controlled entities is replayed
/// in `frame`: the interpolation delay before the frame it reports.
pub open spec fn replays_in<W, C, L, M, S>(frame: int) -> spec_fn(
    ServerWorldUpdateView<W, C, L, M, S>,
) -> bool {
    |u: ServerWorldUpdateView<W, C, L, M, S>| delayed(u.frame_number) == frame
}

/// The updates of a batch past its warm-up: those that something is set
/// aside of for the controlled entities.
pub open spec fn past_warmup_updates<W, C, L, M, S>(
    batch: Seq<ServerWorldUpdateView<W, C, L, M, S>>,
) -> Seq<ServerWorldUpdateView<W, C, L, M, S>> {
    batch.skip(warmup_len(batch))
}

/// The slot of the world buffer for `frame`, once the first `predicted` of
/// the batch's predicted updates and the first `reported` of its remaining
/// updates are written, each to the slot of its frame.
///
/// What an update reports goes to the frame it reports; what was set aside
/// of it for the controlled entities goes to the frame the interpolation delay
/// earlier. Each write replaces its own part of the slot and leaves the other
/// part alone; of two updates for one frame the later one stays.
pub open spec fn merged_slot<W, C, L, M, S>(
    slot: ReceivedUpdateView<W, C, L, M>,
    batch: Seq<ServerWorldUpdateView<W, C, L, M, S>>,
    controlled: Seq<NetIdentifier>,
    frame: int,
    predicted: int,
    reported: int,
) -> ReceivedUpdateView<W, C, L, M> {
    let p = last_index(past_warmup_updates(batch).take(predicted), replays_in(frame));
    let r = last_index(batch.take(reported), reports(frame));
    ReceivedUpdateView {
        controlled_player_updates: if 0 <= p {
            predicted_updates(batch, controlled)[p]
        } else {
            slot.controlled_player_updates
        },
        player_updates: if 0 <= r {
            remaining_updates(batch, controlled)[r].player_updates
        } else {
            slot.player_updates
        },
        mob_actions_updates: if 0 <= r {
            batch[r].mob_actions_updates
        } else {
            slot.mob_actions_updates
        },
    }
}

/// The world buffer once the first `predicted` predicted updates and the
/// first `reported` remaining updates of a batch are written. The mark is
/// put on the delayed frame of the batch's first update.
pub open spec fn world_merged_upto<W, C, L, M, S>(
    window: FrameWindow<ReceivedUpdateView<W, C, L, M>>,
    batch: Seq<ServerWorldUpdateView<W, C, L, M, S>>,
    controlled: Seq<NetIdentifier>,
    predicted: int,
    reported: int,
) -> FrameWindow<ReceivedUpdateView<W, C, L, M>> {
    FrameWindow {
        oldest_updated_frame: delayed(batch[0].frame_number),
        slots: Seq::new(
            window.slots.len(),
            |i: int|
                merged_slot(
                    window.slots[i],
                    batch,
                    controlled,
                    window.frame_at(i),
                    predicted,
                    reported,
                ),
        ),
        ..window
    }
}

/// The world buffer after a batch is merged into it.
pub open spec fn world_merged<W, C, L, M, S>(
    window: FrameWindow<ReceivedUpdateView<W, C, L, M>>,
    batch: Seq<ServerWorldUpdateView<W, C, L, M, S>>,
    controlled: Seq<NetIdentifier>,
) -> FrameWindow<ReceivedUpdateView<W, C, L, M>> {
    if batch.len() == 0 {
        window
    } else {
        world_merged_upto(
            window,
            batch,
            controlled,
            batch.len() - warmup_len(batch),
            batch.len() as int,
        )
    }
}

/// The spawn buffer once the spawn actions of the first `written` updates
/// of a batch are written, each to the slot of the frame that its update
/// reports; of two updates for one frame the later one stays. The mark is
/// put on the frame of the batch's first update.
pub open spec fn spawn_merged_upto<W, C, L, M, S>(
    window: FrameWindow<Seq<S>>,
    batch: Seq<ServerWorldUpdateView<W, C, L, M, S>>,
    written: int,
) -> FrameWindow<Seq<S>> {
    FrameWindow {
        oldest_updated_frame: batch[0].frame_number,
        slots: Seq::new(
            window.slots.len(),
            |i: int|
                {
                    let r = last_index(batch.take(written), reports(window.frame_at(i)));
                    if 0 <= r {
                        batch[r].spawn_actions
                    } else {
                        window.slots[i]
                    }
                },
        ),
        ..window
    }
}

/// The spawn buffer after a batch is merged into it.
pub open spec fn spawn_merged<W, C, L, M, S>(
    window: FrameWindow<Seq<S>>,
    batch: Seq<ServerWorldUpdateView<W, C, L, M, S>>,
) -> FrameWindow<Seq<S>> {
    if batch.len() == 0 {
        window
    } else {
        spawn_merged_upto(window, batch, batch.len() as int)
    }
}

/// The frames that the updates of a batch report, in order.
fn frames_of<W, C, L, M, S>(updates: &Vec<ServerWorldUpdate<W, C, L, M, S>>) -> (frames: Vec<u64>)
    ensures
        frames@.len() == updates@.len(),
        forall|i: int| 0 <= i < updates@.len() ==> frames@[i] == (#[trigger] updates@[i]).frame_number,
{
    let mut frames: Vec<u64> = Vec::new();
    let mut i: usize = 0;
    while i < updates.len()
        invariant
            i <= updates.len(),
            frames@.len() == i,
            forall|j: int| 0 <= j < i ==> frames@[j] == (#[trigger] updates@[j]).frame_number,
        decreases updates.len() - i,
    {
        frames.push(updates[i].frame_number);
        i = i + 1;
    }
    frames
}

/// Merges a batch of world updates, lowest frame first, into the buffers.
///
/// A batch that begins before the frames the world buffer keeps is refused
/// and nothing is written. Otherwise each update is written to the frames
/// that the buffers hold: its spawn actions to the frame it reports, the
/// actions of `controlled_players` set aside and written the interpolation
/// delay earlier, and the rest to the frame it reports.
pub fn apply_world_updates<W, C, L, M, S>(
    controlled_players: Vec<NetIdentifier>,
    framed_updates: &mut FramedUpdates<ReceivedServerWorldUpdate<W, C, L, M>>,
    spawn_actions: &mut FramedUpdates<SpawnActions<S>>,
    incoming_updates: Vec<ServerWorldUpdate<W, C, L, M, S>>,
) -> (result: Result<(), FatalError>)
    ensures
        is_stale(old(framed_updates)@, views(incoming_updates@)) ==> {
            &&& result == Err::<(), FatalError>(
                stale_error(old(framed_updates)@, views(incoming_updates@)),
            )
            &&& final(framed_updates)@ == old(framed_updates)@
            &&& final(spawn_actions)@ == old(spawn_actions)@
        },
        !is_stale(old(framed_updates)@, views(incoming_updates@)) ==> {
            &&& result == Ok::<(), FatalError>(())
            &&& final(framed_updates)@ == world_merged(
                old(framed_updates)@,
                views(incoming_updates@),
                controlled_players@,
            )
            &&& final(spawn_actions)@ == spawn_merged(old(spawn_actions)@, views(incoming_updates@))
        },
{
    let ghost batch = views(incoming_updates@);
    let ghost controlled = controlled_players@;
    let ghost world = framed_updates@;
    let ghost spawns = spawn_actions@;
    let mut incoming_updates = incoming_updates;
    let n = incoming_updates.len();
    if n == 0 {
        return Ok(());
    }
    let first_frame = incoming_updates[0].frame_number;
    assert(batch[0] == incoming_updates@[0]@);
    let start_frame = delayed_frame(first_frame);
    match framed_updates.front_frame() {
        None => {
            return Err(
                FatalError::StaleUpdate {
                    first_incoming_frame: start_frame,
                    first_available_frame: None,
                },
            );
        },
        Some(front) => {
            if start_frame < front {
                return Err(
                    FatalError::StaleUpdate {
                        first_incoming_frame: start_frame,
                        first_available_frame: Some(front),
                    },
                );
            }
        },
    }
    let frames = frames_of(&incoming_updates);
    assert forall|i: int| 0 <= i < n implies frames@[i] == (#[trigger] batch[i]).frame_number by {
        assert(batch[i] == incoming_updates@[i]@);
    }
    let predicted = collect_controlled_player_updates(
        controlled_players.as_slice(),
        &mut incoming_updates,
    );
    let ghost rest = views(incoming_updates@);
    let count = predicted.len();
    let skipped = n - count;
    let ghost late = past_warmup_updates(batch);

    spawn_actions.set_oldest_updated_frame(first_frame);
    framed_updates.set_oldest_updated_frame(start_frame);
    let ghost len = world.slots.len() as int;

    assert(late.take(0) =~= Seq::empty());
    assert(batch.take(0) =~= Seq::empty());
    assert(framed_updates@ =~= world_merged_upto(world, batch, controlled, 0, 0));
    let mut t: usize = 0;
    for update in it: predicted
        invariant
            t == it.index(),
            count == predicted@.len(),
            it.seq() == predicted@,
            views(predicted@) == predicted_updates(batch, controlled),
            batch.len() == n,
            n > 0,
            skipped + count == n,
            skipped == warmup_len(batch),
            late == past_warmup_updates(batch),
            frames@.len() == n,
            forall|i: int| 0 <= i < n ==> frames@[i] == (#[trigger] batch[i]).frame_number,
            len == world.slots.len(),
            framed_updates@ == world_merged_upto(world, batch, controlled, t as int, 0),
    {
        assert(t < predicted@.len());
        assert(views(predicted@)[t as int] == predicted@[t as int]@);
        let ghost before = framed_updates@;
        let frame = delayed_frame(frames[skipped + t]);
        assert(late[t as int] == batch[skipped + t]);
        assert(late.take(t + 1).drop_last() =~= late.take(t as int));
        assert(late.take(t + 1).last() == late[t as int]);
        match framed_updates.update_frame(frame) {
            Some(slot) => {
                slot.controlled_player_updates = update;
            },
            None => {},
        }
        t = t + 1;
        assert(framed_updates@ =~= world_merged_upto(world, batch, controlled, t as int, 0)) by {
            let target = world_merged_upto(world, batch, controlled, t as int, 0);
            assert forall|i: int| 0 <= i < len implies framed_updates@.slots[i] == target.slots[i] by {
                assert(before.slots[i] == merged_slot(
                    world.slots[i],
                    batch,
                    controlled,
                    world.frame_at(i),
                    t - 1,
                    0,
                ));
                assert(target.slots[i] == merged_slot(
                    world.slots[i],
                    batch,
                    controlled,
                    world.frame_at(i),
                    t as int,
                    0,
                ));
            }
        }
    }
    let ghost written = t as int;

    assert(spawn_actions@ =~= spawn_merged_upto(spawns, batch, 0));
    let mut u: usize = 0;
    for update in it: incoming_updates
        invariant
            u == it.index(),
            it.seq() == incoming_updates@,
            views(incoming_updates@) == rest,
            rest == remaining_updates(batch, controlled),
            batch.len() == n,
            incoming_updates@.len() == n,
            n > 0,
            len == world.slots.len(),
            framed_updates@ == world_merged_upto(world, batch, controlled, written, u as int),
            spawn_actions@ == spawn_merged_upto(spawns, batch, u as int),
    {
        assert(u < n);
        assert(rest[u as int] == incoming_updates@[u as int]@);
        assert(rest[u as int].frame_number == batch[u as int].frame_number);
        assert(batch.take(u + 1).drop_last() =~= batch.take(u as int));
        assert(batch.take(u + 1).last() == batch[u as int]);
        let ghost world_before = framed_updates@;
        let ghost spawn_before = spawn_actions@;
        let ServerWorldUpdate { frame_number, player_updates, mob_actions_updates, spawn_actions: spawned } =
            update;
        match spawn_actions.update_frame(frame_number) {
            Some(slot) => {
                slot.spawn_actions = spawned;
            },
            None => {},
        }
        match framed_updates.update_frame(frame_number) {
            Some(slot) => {
                slot.player_updates = player_updates;
                slot.mob_actions_updates = mob_actions_updates;
            },
            None => {},
        }
        u = u + 1;
        assert(spawn_actions@ =~= spawn_merged_upto(spawns, batch, u as int)) by {
            let target = spawn_merged_upto(spawns, batch, u as int);
            assert(rest[u - 1].spawn_actions == batch[u - 1].spawn_actions);
            assert forall|i: int| 0 <= i < spawns.slots.len() implies spawn_actions@.slots[i]
                == target.slots[i] by {
                assert(spawn_before.slots[i] == spawn_merged_upto(spawns, batch, u - 1).slots[i]);
            }
        }
        assert(framed_updates@ =~= world_merged_upto(world, batch, controlled, written, u as int))
            by {
            let target = world_merged_upto(world, batch, controlled, written, u as int);
            assert(rest[u - 1].mob_actions_updates == batch[u - 1].mob_actions_updates);
            assert forall|i: int| 0 <= i < len implies framed_updates@.slots[i] == target.slots[i] by {
                assert(world_before.slots[i] == merged_slot(
                    world.slots[i],
                    batch,
                    controlled,
                    world.frame_at(i),
                    written,
                    u - 1,
                ));
                assert(target.slots[i] == merged_slot(
                    world.slots[i],
                    batch,
                    controlled,
                    world.frame_at(i),
                    written,
                    u as int,
                ));
            }
        }
    }
    assert(late.take(written) =~= late);
    assert(batch.take(n as int) =~= batch);
    Ok(())
}

/// Whether an id is `id`.
pub open spec fn is_id(id: NetIdentifier) -> spec_fn(NetIdentifier) -> bool {
    |other: NetIdentifier| other == id
}

/// Index of the first occurrence of `id` in `ids`; the length of `ids` if
/// there is none.
pub open spec fn first_occurrence(ids: Seq<NetIdentifier>, id: NetIdentifier) -> int {
    first_index(ids, is_id(id))
}

/// `first_occurrence` is the index of `id` before which `id` does not occur.
pub proof fn lemma_first_occurrence(ids: Seq<NetIdentifier>, id: NetIdentifier, i: int)
    requires
        0 <= i <= ids.len(),
        forall|j: int| 0 <= j < i ==> ids[j] != id,
        i < ids.len() ==> ids[i] == id,
    ensures
        first_occurrence(ids, id) == i,
{
    lemma_first_index(ids, is_id(id), i);
}

/// Finds the first occurrence of `id` in `ids`.
pub fn position_of(ids: &Vec<NetIdentifier>, id: NetIdentifier) -> (at: Option<usize>)
    ensures
        0 <= first_occurrence(ids@, id) <= ids@.len(),
        at is Some <==> first_occurrence(ids@, id) < ids@.len(),
        at matches Some(i) ==> i == first_occurrence(ids@, id),
{
    let mut i: usize = 0;
    while i < ids.len()
        invariant
            i <= ids.len(),
            forall|j: int| 0 <= j < i ==> ids@[j] != id,
        decreases ids.len() - i,
    {
        if ids[i] == id {
            proof {
                lemma_first_occurrence(ids@, id, i as int);
            }
            return Some(i);
        }
        i = i + 1;
    }
    proof {
        lemma_first_occurrence(ids@, id, i as int);
    }
    None
}

/// The walk actions of one frame after a discard, with the ids still to be
/// matched: going through the actions in order, an action whose id is among
/// the pending ids is dropped and uses up the first occurrence of its id.
pub open spec fn discard_in_frame<W>(
    walk: Seq<NetUpdate<ClientActionUpdate<W>>>,
    pending: Seq<NetIdentifier>,
) -> (Seq<NetUpdate<ClientActionUpdate<W>>>, Seq<NetIdentifier>)
    decreases walk.len(),
{
    if walk.len() == 0 {
        (walk, pending)
    } else {
        let (kept, left) = discard_in_frame(walk.drop_last(), pending);
        let at = first_occurrence(left, walk.last().data.client_action_id);
        if at < left.len() {
            (kept, left.remove(at))
        } else {
            (kept.push(walk.last()), left)
        }
    }
}

/// Result of a discard over the slots of a buffer.
pub struct Discarded<W, C, L> {
    /// The slots afterwards.
    pub slots: Seq<PlayerActionsView<W, C, L>>,
    /// Ids that matched no buffered walk action.
    pub unmatched: Seq<NetIdentifier>,
    /// Index of the earliest slot that lost an action.
    pub earliest: Option<int>,
}

/// Discards walk actions by id, going from the newest slot to the oldest
/// until every id is matched.
pub open spec fn discard_in_slots<W, C, L>(
    slots: Seq<PlayerActionsView<W, C, L>>,
    pending: Seq<NetIdentifier>,
) -> Discarded<W, C, L>
    decreases slots.len(),
{
    if slots.len() == 0 || pending.len() == 0 {
        Discarded { slots, unmatched: pending, earliest: None }
    } else {
        let (kept, left) = discard_in_frame(slots.last().walk, pending);
        let older = discard_in_slots(slots.drop_last(), left);
        Discarded {
            slots: older.slots.push(PlayerActionsView { walk: kept, ..slots.last() }),
            unmatched: older.unmatched,
            earliest: if older.earliest is Some {
                older.earliest
            } else if kept.len() < slots.last().walk.len() {
                Some(slots.len() - 1)
            } else {
                None
            },
        }
    }
}

/// The buffer of the client's own actions after a discard: the mark moves
/// to the earliest frame that lost an action, if that is earlier than where
/// it stood.
pub open spec fn walk_actions_discarded<W, C, L>(
    window: FrameWindow<PlayerActionsView<W, C, L>>,
    ids: Seq<NetIdentifier>,
) -> FrameWindow<PlayerActionsView<W, C, L>> {
    let outcome = discard_in_slots(window.slots, ids);
    FrameWindow {
        oldest_updated_frame: match outcome.earliest {
            Some(index) if window.frame_at(index) < window.oldest_updated_frame => window.frame_at(
                index,
            ) as u64,
            _ => window.oldest_updated_frame,
        },
        slots: outcome.slots,
        ..window
    }
}

/// A discard over slots keeps their number, and the earliest slot that
/// lost an action is one of them.
proof fn lemma_discard_keeps_the_slots<W, C, L>(
    slots: Seq<PlayerActionsView<W, C, L>>,
    pending: Seq<NetIdentifier>,
)
    ensures
        discard_in_slots(slots, pending).slots.len() == slots.len(),
        discard_in_slots(slots, pending).earliest matches Some(index) ==> 0 <= index < slots.len(),
        forall|i: int|
            0 <= i < slots.len() ==> {
                &&& (#[trigger] discard_in_slots(slots, pending).slots[i]).cast == slots[i].cast
                &&& discard_in_slots(slots, pending).slots[i].look == slots[i].look
            },
    decreases slots.len(),
{
    if slots.len() == 0 || pending.len() == 0 {
    } else {
        let left = discard_in_frame(slots.last().walk, pending).1;
        lemma_discard_keeps_the_slots(slots.drop_last(), left);
        let older = discard_in_slots(slots.drop_last(), left);
        assert forall|i: int| 0 <= i < slots.len() implies {
            &&& (#[trigger] discard_in_slots(slots, pending).slots[i]).cast == slots[i].cast
            &&& discard_in_slots(slots, pending).slots[i].look == slots[i].look
        } by {
            if i < slots.len() - 1 {
                assert(slots.drop_last()[i] == slots[i]);
                assert(discard_in_slots(slots, pending).slots[i] == older.slots[i]);
            }
        }
    }
}

/// A discard changes neither the number of slots of the buffer nor the
/// frames they are for, and touches no cast or look action. It never moves
/// the mark up; a mark that stood within the window still does, and a mark
/// that is moved comes to stand within the window.
pub proof fn lemma_discard_keeps_the_window<W, C, L>(
    window: FrameWindow<PlayerActionsView<W, C, L>>,
    ids: Seq<NetIdentifier>,
)
    ensures
        walk_actions_discarded(window, ids).front_frame == window.front_frame,
        walk_actions_discarded(window, ids).limit == window.limit,
        walk_actions_discarded(window, ids).slots.len() == window.slots.len(),
        forall|i: int|
            0 <= i < window.slots.len() ==> {
                &&& (#[trigger] walk_actions_discarded(window, ids).slots[i]).cast
                    == window.slots[i].cast
                &&& walk_actions_discarded(window, ids).slots[i].look == window.slots[i].look
            },
        walk_actions_discarded(window, ids).oldest_updated_frame <= window.oldest_updated_frame,
        window.mark_in_window() ==> walk_actions_discarded(window, ids).mark_in_window(),
        walk_actions_discarded(window, ids).oldest_updated_frame != window.oldest_updated_frame
            ==> walk_actions_discarded(window, ids).mark_in_window(),
{
    lemma_discard_keeps_the_slots(window.slots, ids);
}

/// Drops from the walk actions of one frame those whose id is pending,
/// using up one pending id for each.
fn discard_from_frame<W>(
    walk: Vec<NetUpdate<ClientActionUpdate<W>>>,
    pending: &mut Vec<NetIdentifier>,
) -> (kept: Vec<NetUpdate<ClientActionUpdate<W>>>)
    ensures
        (kept@, final(pending)@) == discard_in_frame(walk@, old(pending)@),
{
    let mut kept: Vec<NetUpdate<ClientActionUpdate<W>>> = Vec::new();
    let count = walk.len();
    let mut i: usize = 0;
    assert(walk@.take(0) =~= Seq::empty());
    for action in it: walk
        invariant
            i == it.index(),
            count == walk@.len(),
            it.seq() == walk@,
            (kept@, pending@) == discard_in_frame(walk@.take(i as int), old(pending)@),
    {
        assert(walk@.take(i + 1).drop_last() =~= walk@.take(i as int));
        assert(walk@.take(i + 1).last() == walk@[i as int]);
        match position_of(pending, action.data.client_action_id) {
            Some(at) => {
                let _ = pending.remove(at);
            },
            None => {
                kept.push(action);
            },
        }
        i = i + 1;
    }
    assert(walk@.take(i as int) =~= walk@);
    kept
}

/// Removes the buffered walk actions of this client that the server has
/// discarded, newest frame first, and marks the earliest frame that lost
/// one. Ids that match nothing are dropped.
pub fn discard_walk_actions<W, C, L>(
    client_player_updates: &mut FramedUpdates<PlayerActionUpdates<W, C, L>>,
    discarded_updates: Vec<NetIdentifier>,
)
    ensures
        final(client_player_updates)@ == walk_actions_discarded(
            old(client_player_updates)@,
            discarded_updates@,
        ),
{
    let ghost window = client_player_updates@;
    let ghost ids = discarded_updates@;
    let mut pending = discarded_updates;
    let len = client_player_updates.len();
    let mut earliest: Option<usize> = None;
    let mut i: usize = len;
    assert(window.slots.take(len as int) =~= window.slots);
    while i > 0 && pending.len() > 0
        invariant
            i <= len,
            len == window.slots.len(),
            window.wf(),
            client_player_updates@.slots.len() == len,
            client_player_updates@.oldest_updated_frame == window.oldest_updated_frame,
            client_player_updates@.front_frame == window.front_frame,
            client_player_updates@.limit == window.limit,
            client_player_updates@.slots.take(i as int) == window.slots.take(i as int),
            earliest matches Some(e) ==> i <= e < len,
            discard_in_slots(window.slots, ids).slots == discard_in_slots(
                window.slots.take(i as int),
                pending@,
            ).slots + client_player_updates@.slots.skip(i as int),
            discard_in_slots(window.slots, ids).unmatched == discard_in_slots(
                window.slots.take(i as int),
                pending@,
            ).unmatched,
            discard_in_slots(window.slots, ids).earliest == (if discard_in_slots(
                window.slots.take(i as int),
                pending@,
            ).earliest is Some {
                discard_in_slots(window.slots.take(i as int), pending@).earliest
            } else {
                match earliest {
                    Some(e) => Some(e as int),
                    None => None,
                }
            }),
        decreases i,
    {
        let ghost before = client_player_updates@;
        let ghost pending_before = pending@;
        let ghost prefix = window.slots.take(i as int);
        assert(prefix.drop_last() =~= window.slots.take(i - 1));
        assert(prefix.last() == window.slots[i - 1]);
        assert(before.slots[i - 1] == before.slots.take(i as int)[i - 1]);
        i = i - 1;
        match client_player_updates.slot_mut(i) {
            Some(slot) => {
                let mut walk: Vec<NetUpdate<ClientActionUpdate<W>>> = Vec::new();
                core::mem::swap(&mut slot.walk_action_updates, &mut walk);
                let count = walk.len();
                let kept = discard_from_frame(walk, &mut pending);
                if kept.len() < count {
                    earliest = Some(i);
                }
                slot.walk_action_updates = kept;
            },
            None => {},
        }
        proof {
            let (kept, left) = discard_in_frame(window.slots[i as int].walk, pending_before);
            let older = discard_in_slots(window.slots.take(i as int), left);
            let now = client_player_updates@;
            assert(left == pending@);
            assert(now.slots[i as int] == (PlayerActionsView {
                walk: kept,
                ..window.slots[i as int]
            }));
            assert(now.slots.take(i as int) =~= window.slots.take(i as int));
            assert(older.slots.push(now.slots[i as int]) + before.slots.skip(i + 1) =~= older.slots
                + now.slots.skip(i as int));
        }
    }
    proof {
        let outcome = discard_in_slots(window.slots.take(i as int), pending@);
        assert(outcome.slots == window.slots.take(i as int));
        assert(outcome.earliest is None);
        assert(client_player_updates@.slots =~= client_player_updates@.slots.take(i as int)
            + client_player_updates@.slots.skip(i as int));
    }
    match earliest {
        Some(index) => {
            match client_player_updates.front_frame() {
                Some(front) => {
                    let frame = front + index as u64;
                    if frame < client_player_updates.oldest_updated_frame() {
                        client_player_updates.set_oldest_updated_frame(frame);
                    }
                },
                None => {},
            }
        },
        None => {},
    }
    assert(client_player_updates@ =~= walk_actions_discarded(window, ids));
}

/// Whether an update is for a frame after `frame`.
pub open spec fn is_after<W, C, L, M, S>(frame: u64) -> spec_fn(
    ServerWorldUpdateView<W, C, L, M, S>,
) -> bool {
    |u: ServerWorldUpdateView<W, C, L, M, S>| u.frame_number > frame
}

/// Whether the updates of a batch come lowest frame first.
pub open spec fn is_sorted<W, C, L, M, S>(batch: Seq<ServerWorldUpdateView<W, C, L, M, S>>) -> bool {
    forall|i: int, j: int|
        0 <= i <= j < batch.len() ==> (#[trigger] batch[i]).frame_number <= (
        #[trigger] batch[j]).frame_number
}

/// A batch put in order, lowest frame first; updates for the same frame
/// keep the order they came in. Each update in turn goes in before the first
/// one for a later frame.
pub open spec fn sorted_by_frame<W, C, L, M, S>(
    batch: Seq<ServerWorldUpdateView<W, C, L, M, S>>,
) -> Seq<ServerWorldUpdateView<W, C, L, M, S>>
    decreases batch.len(),
{
    if batch.len() == 0 {
        batch
    } else {
        let before = sorted_by_frame(batch.drop_last());
        before.insert(first_index(before, is_after(batch.last().frame_number)), batch.last())
    }
}

/// Putting a batch in order yields the same updates, lowest frame first.
pub proof fn lemma_sorted_by_frame<W, C, L, M, S>(batch: Seq<ServerWorldUpdateView<W, C, L, M, S>>)
    ensures
        is_sorted(sorted_by_frame(batch)),
        sorted_by_frame(batch).len() == batch.len(),
        sorted_by_frame(batch).to_multiset() == batch.to_multiset(),
    decreases batch.len(),
{
    broadcast use vstd::seq_lib::group_to_multiset_ensures;

    if batch.len() == 0 {
    } else {
        let last = batch.last();
        let before = sorted_by_frame(batch.drop_last());
        let at = first_index(before, is_after(last.frame_number));
        let after = before.insert(at, last);
        lemma_sorted_by_frame(batch.drop_last());
        lemma_first_index_is_first(before, is_after(last.frame_number));
        assert forall|i: int, j: int| 0 <= i <= j < after.len() implies (#[trigger] after[i]).frame_number
            <= (#[trigger] after[j]).frame_number by {
            if i < at && j > at {
                assert(after[i] == before[i]);
                assert(after[j] == before[j - 1]);
            } else if i < at && j < at {
                assert(after[i] == before[i]);
                assert(after[j] == before[j]);
            } else if i > at {
                assert(after[i] == before[i - 1]);
                assert(after[j] == before[j - 1]);
            } else if i < at && j == at {
                assert(after[i] == before[i]);
            } else if i == at && j > at {
                assert(after[j] == before[j - 1]);
                assert(before[at].frame_number <= before[j - 1].frame_number);
            }
        }
        assert(batch =~= batch.drop_last().push(last));
        assert(after.remove(at) =~= before);
        assert(after[at] == last);
        assert(after.to_multiset().count(last) > 0) by {
            assert(after.contains(last));
        }
        assert(after.to_multiset() =~= before.to_multiset().insert(last));
    }
}

/// A batch that is in order stays as it is.
pub proof fn lemma_sorted_unchanged<W, C, L, M, S>(batch: Seq<ServerWorldUpdateView<W, C, L, M, S>>)
    requires
        is_sorted(batch),
    ensures
        sorted_by_frame(batch) == batch,
    decreases batch.len(),
{
    if batch.len() > 0 {
        let last = batch.last();
        let front = batch.drop_last();
        assert forall|i: int, j: int| 0 <= i <= j < front.len() implies (#[trigger] front[i]).frame_number
            <= (#[trigger] front[j]).frame_number by {
            assert(front[i] == batch[i]);
            assert(front[j] == batch[j]);
        }
        lemma_sorted_unchanged(front);
        assert forall|j: int| 0 <= j < front.len() implies !is_after(last.frame_number)(
            #[trigger] front[j],
        ) by {
            assert(front[j] == batch[j]);
            assert(batch[j].frame_number <= batch[batch.len() - 1].frame_number);
        }
        lemma_first_index(front, is_after(last.frame_number), front.len() as int);
        assert(front.insert(front.len() as int, last) =~= batch);
    }
}

/// Puts a batch in order, lowest frame first, keeping the order of updates
/// for the same frame.
pub fn sort_by_frame<W, C, L, M, S>(updates: Vec<ServerWorldUpdate<W, C, L, M, S>>) -> (sorted: Vec<
    ServerWorldUpdate<W, C, L, M, S>,
>)
    ensures
        views(sorted@) == sorted_by_frame(views(updates@)),
        sorted@.len() == updates@.len(),
{
    let ghost batch = views(updates@);
    let count = updates.len();
    let mut sorted: Vec<ServerWorldUpdate<W, C, L, M, S>> = Vec::new();
    let mut i: usize = 0;
    assert(batch.take(0) =~= Seq::empty());
    assert(views(sorted@) =~= sorted_by_frame(batch.take(0)));
    for update in it: updates
        invariant
            i == it.index(),
            it.seq() == updates@,
            count == updates@.len(),
            batch == views(updates@),
            sorted@.len() == i,
            views(sorted@) == sorted_by_frame(batch.take(i as int)),
    {
        let ghost before = sorted@;
        assert(batch.take(i + 1).drop_last() =~= batch.take(i as int));
        assert(batch.take(i + 1).last() == batch[i as int]);
        assert(batch[i as int] == update@);
        proof {
            lemma_sorted_by_frame(batch.take(i as int));
        }
        let frame = update.frame_number;
        let mut at: usize = sorted.len();
        while at > 0 && sorted[at - 1].frame_number > frame
            invariant
                at <= sorted@.len(),
                sorted@ == before,
                is_sorted(views(before)),
                forall|j: int| at <= j < before.len() ==> (#[trigger] views(before)[j]).frame_number
                    > frame,
            decreases at,
        {
            assert(views(before)[at - 1] == before[at - 1]@);
            at = at - 1;
        }
        proof {
            assert forall|j: int| 0 <= j < at implies !is_after(frame)(#[trigger] views(before)[j]) by {
                assert(views(before)[at - 1] == before[at - 1]@);
                assert(views(before)[j].frame_number <= views(before)[at - 1].frame_number);
            }
            lemma_first_index(views(before), is_after(frame), at as int);
        }
        sorted.insert(at, update);
        i = i + 1;
        assert(views(sorted@) =~= views(before).insert(at as int, batch[i - 1]));
    }
    assert(batch.take(i as int) =~= batch);
    sorted
}

/// The delayed frame never comes before that of an earlier frame.
proof fn lemma_delayed_is_monotone(a: u64, b: u64)
    requires
        a <= b,
    ensures
        delayed(a) <= delayed(b),
        delayed(a) <= a,
{
}

/// After a merge of a batch in order, the mark of the world buffer is at or
/// below the frame of every slot that the merge changed.
pub proof fn lemma_world_mark_is_below_changes<W, C, L, M, S>(
    window: FrameWindow<ReceivedUpdateView<W, C, L, M>>,
    batch: Seq<ServerWorldUpdateView<W, C, L, M, S>>,
    controlled: Seq<NetIdentifier>,
    index: int,
)
    requires
        batch.len() > 0,
        is_sorted(batch),
        0 <= index < window.slots.len(),
        world_merged(window, batch, controlled).slots[index] != window.slots[index],
    ensures
        world_merged(window, batch, controlled).oldest_updated_frame <= window.frame_at(index),
{
    let frame = window.frame_at(index);
    let late = past_warmup_updates(batch);
    let count = batch.len() - warmup_len(batch);
    lemma_first_index_is_first(batch, past_warmup());
    assert(late.take(count) =~= late);
    assert(batch.take(batch.len() as int) =~= batch);
    let p = last_index(late, replays_in(frame));
    let r = last_index(batch, reports(frame));
    lemma_last_index_is_last(late, replays_in(frame));
    lemma_last_index_is_last(batch, reports(frame));
    if 0 <= r {
        assert(batch[0].frame_number <= batch[r].frame_number);
        lemma_delayed_is_monotone(batch[0].frame_number, batch[r].frame_number);
    } else if 0 <= p {
        let u = warmup_len(batch) + p;
        assert(late[p] == batch[u]);
        assert(batch[0].frame_number <= batch[u].frame_number);
        lemma_delayed_is_monotone(batch[0].frame_number, batch[u].frame_number);
    } else {
        assert(world_merged(window, batch, controlled).slots[index] =~= window.slots[index]);
    }
}

/// After a merge of a batch in order, the mark of the spawn buffer is at or
/// below the frame of every slot that the merge changed.
pub proof fn lemma_spawn_mark_is_below_changes<W, C, L, M, S>(
    window: FrameWindow<Seq<S>>,
    batch: Seq<ServerWorldUpdateView<W, C, L, M, S>>,
    index: int,
)
    requires
        batch.len() > 0,
        is_sorted(batch),
        0 <= index < window.slots.len(),
        spawn_merged(window, batch).slots[index] != window.slots[index],
    ensures
        spawn_merged(window, batch).oldest_updated_frame <= window.frame_at(index),
{
    let frame = window.frame_at(index);
    assert(batch.take(batch.len() as int) =~= batch);
    let r = last_index(batch, reports(frame));
    lemma_last_index_is_last(batch, reports(frame));
    if 0 <= r {
        assert(batch[0].frame_number <= batch[r].frame_number);
    }
}

/// A merge changes neither the number of slots of a buffer nor the frames
/// they are for.
pub proof fn lemma_merge_keeps_the_windows<W, C, L, M, S>(
    window: FrameWindow<ReceivedUpdateView<W, C, L, M>>,
    spawns: FrameWindow<Seq<S>>,
    batch: Seq<ServerWorldUpdateView<W, C, L, M, S>>,
    controlled: Seq<NetIdentifier>,
)
    ensures
        world_merged(window, batch, controlled).front_frame == window.front_frame,
        world_merged(window, batch, controlled).slots.len() == window.slots.len(),
        world_merged(window, batch, controlled).limit == window.limit,
        spawn_merged(spawns, batch).front_frame == spawns.front_frame,
        spawn_merged(spawns, batch).slots.len() == spawns.slots.len(),
        spawn_merged(spawns, batch).limit == spawns.limit,
{
}

/// A merge writes each update to the slots of its own frame: where no
/// later update of the batch is for the same frame, the slot of the frame that
/// update `u` reports holds what it reports for all players but the controlled
/// ones, the spawn slot of that frame holds its spawn actions, and, for an
/// update past the warm-up, the slot the interpolation delay earlier holds what
/// was set aside of it.
pub proof fn lemma_merge_lands_by_frame<W, C, L, M, S>(
    window: FrameWindow<ReceivedUpdateView<W, C, L, M>>,
    spawns: FrameWindow<Seq<S>>,
    batch: Seq<ServerWorldUpdateView<W, C, L, M, S>>,
    controlled: Seq<NetIdentifier>,
    u: int,
)
    requires
        0 <= u < batch.len(),
        forall|v: int|
            u < v < batch.len() ==> (#[trigger] batch[v]).frame_number != batch[u].frame_number,
    ensures
        window.holds(batch[u].frame_number as int) ==> {
            let slot = world_merged(window, batch, controlled).slot(batch[u].frame_number as int);
            &&& slot.player_updates == remaining_updates(batch, controlled)[u].player_updates
            &&& slot.mob_actions_updates == batch[u].mob_actions_updates
        },
        spawns.holds(batch[u].frame_number as int) ==> spawn_merged(spawns, batch).slot(
            batch[u].frame_number as int,
        ) == batch[u].spawn_actions,
        warmup_len(batch) <= u && window.holds(delayed(batch[u].frame_number) as int) && (forall|
            v: int,
        |
            u < v < batch.len() ==> delayed((#[trigger] batch[v]).frame_number) != delayed(
                batch[u].frame_number,
            )) ==> world_merged(window, batch, controlled).slot(
            delayed(batch[u].frame_number) as int,
        ).controlled_player_updates == predicted_of(batch[u].player_updates, controlled),
{
    let frame = batch[u].frame_number as int;
    let late = past_warmup_updates(batch);
    let skipped = warmup_len(batch);
    lemma_first_index_is_first(batch, past_warmup());
    assert(late.take(batch.len() - skipped) =~= late);
    assert(batch.take(batch.len() as int) =~= batch);
    lemma_last_index(batch, reports(frame), u);
    if skipped <= u && (forall|v: int|
        u < v < batch.len() ==> delayed((#[trigger] batch[v]).frame_number) != delayed(
            batch[u].frame_number,
        )) {
        let early = delayed(batch[u].frame_number) as int;
        assert(late[u - skipped] == batch[u]);
        assert forall|j: int| u - skipped < j < late.len() implies !replays_in(early)(
            #[trigger] late[j],
        ) by {
            assert(late[j] == batch[skipped + j]);
        }
        lemma_last_index(late, replays_in(early), u - skipped);
    }
}

/// A merge leaves alone what no update of the batch is for: the spawn slot
/// of a frame that no update reports is as it was, so is the reported part of
/// the slot of the world buffer for that frame, and so is the predicted part
/// of a slot in which nothing of the batch is replayed.
pub proof fn lemma_merge_leaves_other_frames<W, C, L, M, S>(
    window: FrameWindow<ReceivedUpdateView<W, C, L, M>>,
    spawns: FrameWindow<Seq<S>>,
    batch: Seq<ServerWorldUpdateView<W, C, L, M, S>>,
    controlled: Seq<NetIdentifier>,
    frame: int,
)
    ensures
        spawns.holds(frame) && (forall|u: int|
            0 <= u < batch.len() ==> (#[trigger] batch[u]).frame_number != frame) ==> spawn_merged(
            spawns,
            batch,
        ).slot(frame) == spawns.slot(frame),
        window.holds(frame) && (forall|u: int|
            0 <= u < batch.len() ==> (#[trigger] batch[u]).frame_number != frame) ==> {
            let slot = world_merged(window, batch, controlled).slot(frame);
            &&& slot.player_updates == window.slot(frame).player_updates
            &&& slot.mob_actions_updates == window.slot(frame).mob_actions_updates
        },
        window.holds(frame) && (forall|u: int|
            warmup_len(batch) <= u < batch.len() ==> delayed((#[trigger] batch[u]).frame_number)
                != frame) ==> world_merged(window, batch, controlled).slot(
            frame,
        ).controlled_player_updates == window.slot(frame).controlled_player_updates,
{
    let late = past_warmup_updates(batch);
    let skipped = warmup_len(batch);
    lemma_first_index_is_first(batch, past_warmup());
    assert(late.take(batch.len() - skipped) =~= late);
    assert(batch.take(batch.len() as int) =~= batch);
    lemma_last_index_is_last(batch, reports(frame));
    lemma_last_index_is_last(late, replays_in(frame));
    let p = last_index(late, replays_in(frame));
    if 0 <= p {
        assert(late[p] == batch[skipped + p]);
    }
}

/// Whether a batch reports one frame after the other, none left out.
pub open spec fn is_consecutive<W, C, L, M, S>(
    batch: Seq<ServerWorldUpdateView<W, C, L, M, S>>,
) -> bool {
    forall|u: int|
        0 <= u < batch.len() ==> (#[trigger] batch[u]).frame_number == batch[0].frame_number + u
}

/// For a batch that reports consecutive frames past the warm-up: what an
/// update reports for a frame is replayed in that frame, but for the actions
/// of the controlled entities, which are replayed the interpolation delay
/// earlier; and what it spawns appears in the frame it reports.
pub proof fn lemma_consecutive_batch_lands_by_frame<W, C, L, M, S>(
    window: FrameWindow<ReceivedUpdateView<W, C, L, M>>,
    spawns: FrameWindow<Seq<S>>,
    batch: Seq<ServerWorldUpdateView<W, C, L, M, S>>,
    controlled: Seq<NetIdentifier>,
    u: int,
)
    requires
        is_consecutive(batch),
        0 <= u < batch.len(),
        batch[0].frame_number >= INTERPOLATION_FRAME_DELAY,
    ensures
        window.holds(batch[u].frame_number as int) ==> {
            let slot = world_merged(window, batch, controlled).slot(batch[u].frame_number as int);
            &&& slot.player_updates == rest_of(batch[u].player_updates, controlled)
            &&& slot.mob_actions_updates == batch[u].mob_actions_updates
        },
        window.holds(batch[u].frame_number - INTERPOLATION_FRAME_DELAY) ==> world_merged(
            window,
            batch,
            controlled,
        ).slot(batch[u].frame_number - INTERPOLATION_FRAME_DELAY).controlled_player_updates
            == predicted_of(batch[u].player_updates, controlled),
        spawns.holds(batch[u].frame_number as int) ==> spawn_merged(spawns, batch).slot(
            batch[u].frame_number as int,
        ) == batch[u].spawn_actions,
{
    assert(past_warmup::<W, C, L, M, S>()(batch[0]));
    lemma_first_index(batch, past_warmup(), 0);
    lemma_merge_lands_by_frame(window, spawns, batch, controlled, u);
}

/// After a merge, the mark of the world buffer stands within the frames
/// that the buffer holds if the buffer reaches the delayed first frame of the
/// batch, and the mark of the spawn buffer, which is the batch's first frame,
/// does if the spawn buffer holds that frame.
pub proof fn lemma_merge_marks_within_the_windows<W, C, L, M, S>(
    window: FrameWindow<ReceivedUpdateView<W, C, L, M>>,
    spawns: FrameWindow<Seq<S>>,
    batch: Seq<ServerWorldUpdateView<W, C, L, M, S>>,
    controlled: Seq<NetIdentifier>,
)
    requires
        batch.len() > 0,
        !is_stale(window, batch),
    ensures
        delayed(batch[0].frame_number) < window.end_frame() ==> world_merged(
            window,
            batch,
            controlled,
        ).mark_in_window(),
        spawns.holds(batch[0].frame_number as int) ==> spawn_merged(spawns, batch).mark_in_window(),
        spawn_merged(spawns, batch).oldest_updated_frame == batch[0].frame_number,
        window.front_frame <= world_merged(window, batch, controlled).oldest_updated_frame,
{
}

/// Whether no id in `ids` tags the walk action.
pub open spec fn is_untagged<W>(ids: Seq<NetIdentifier>) -> spec_fn(
    NetUpdate<ClientActionUpdate<W>>,
) -> bool {
    |a: NetUpdate<ClientActionUpdate<W>>| !ids.contains(a.data.client_action_id)
}

/// Whether a slot holds a walk action that an id in `ids` tags.
pub open spec fn holds_tagged<W, C, L>(ids: Seq<NetIdentifier>) -> spec_fn(
    PlayerActionsView<W, C, L>,
) -> bool {
    |slot: PlayerActionsView<W, C, L>|
        exists|j: int|
            0 <= j < slot.walk.len() && ids.contains(
                (#[trigger] slot.walk[j]).data.client_action_id,
            )
}

/// Whether each id in `ids` tags at most one walk action of the slots.
pub open spec fn tags_at_most_one<W, C, L>(
    slots: Seq<PlayerActionsView<W, C, L>>,
    ids: Seq<NetIdentifier>,
) -> bool {
    forall|i: int, j: int, k: int, l: int|
        0 <= i < slots.len() && 0 <= j < slots[i].walk.len() && 0 <= k < slots.len() && 0 <= l
            < slots[k].walk.len() && (i != k || j != l) && ids.contains(
            slots[i].walk[j].data.client_action_id,
        ) ==> (#[trigger] slots[i].walk[j]).data.client_action_id != (
        #[trigger] slots[k].walk[l]).data.client_action_id
}

/// Two tests that agree on every element of a sequence keep the same
/// elements of it.
proof fn lemma_filter_agree<A>(s: Seq<A>, p: spec_fn(A) -> bool, q: spec_fn(A) -> bool)
    requires
        forall|i: int| 0 <= i < s.len() ==> p(#[trigger] s[i]) == q(s[i]),
    ensures
        s.filter(p) == s.filter(q),
    decreases s.len(),
{
    reveal(Seq::filter);
    if s.len() > 0 {
        let front = s.drop_last();
        assert forall|i: int| 0 <= i < front.len() implies p(#[trigger] front[i]) == q(front[i]) by {
            assert(front[i] == s[i]);
        }
        lemma_filter_agree(front, p, q);
        assert(p(s[s.len() - 1]) == q(s[s.len() - 1]));
    }
}

/// A test that every element passes keeps the whole sequence.
proof fn lemma_filter_keeps_all<A>(s: Seq<A>, p: spec_fn(A) -> bool)
    requires
        forall|i: int| 0 <= i < s.len() ==> p(#[trigger] s[i]),
    ensures
        s.filter(p) == s,
    decreases s.len(),
{
    reveal(Seq::filter);
    if s.len() > 0 {
        let front = s.drop_last();
        assert forall|i: int| 0 <= i < front.len() implies p(#[trigger] front[i]) by {
            assert(front[i] == s[i]);
        }
        lemma_filter_keeps_all(front, p);
        assert(p(s[s.len() - 1]));
        assert(front.push(s.last()) =~= s);
    }
}

/// A test that some element fails keeps less than the whole sequence.
proof fn lemma_filter_drops_some<A>(s: Seq<A>, p: spec_fn(A) -> bool, i: int)
    requires
        0 <= i < s.len(),
        !p(s[i]),
    ensures
        s.filter(p).len() < s.len(),
    decreases s.len(),
{
    reveal(Seq::filter);
    let front = s.drop_last();
    front.lemma_filter_len(p);
    if i < s.len() - 1 {
        assert(front[i] == s[i]);
        lemma_filter_drops_some(front, p, i);
    }
}

/// Within one frame, where each pending id tags at most one walk action and
/// no pending id comes twice, a discard keeps exactly the actions that no
/// pending id tags, and leaves pending the ids that tag nothing.
proof fn lemma_discard_in_frame<W>(
    walk: Seq<NetUpdate<ClientActionUpdate<W>>>,
    pending: Seq<NetIdentifier>,
)
    requires
        pending.no_duplicates(),
        forall|i: int, j: int|
            0 <= i < walk.len() && 0 <= j < walk.len() && i != j && pending.contains(
                walk[i].data.client_action_id,
            ) ==> (#[trigger] walk[i]).data.client_action_id != (
            #[trigger] walk[j]).data.client_action_id,
    ensures
        discard_in_frame(walk, pending).0 == walk.filter(is_untagged(pending)),
        discard_in_frame(walk, pending).1.no_duplicates(),
        forall|id: NetIdentifier| #[trigger]
            discard_in_frame(walk, pending).1.contains(id) <==> pending.contains(id) && forall|
                j: int,
            |
                0 <= j < walk.len() ==> (#[trigger] walk[j]).data.client_action_id != id,
    decreases walk.len(),
{
    reveal(Seq::filter);
    if walk.len() > 0 {
        let front = walk.drop_last();
        let last = walk.last();
        let x = last.data.client_action_id;
        assert forall|i: int, j: int|
            0 <= i < front.len() && 0 <= j < front.len() && i != j && pending.contains(
                front[i].data.client_action_id,
            ) implies (#[trigger] front[i]).data.client_action_id != (
        #[trigger] front[j]).data.client_action_id by {
            assert(front[i] == walk[i]);
            assert(front[j] == walk[j]);
        }
        lemma_discard_in_frame(front, pending);
        let (kept, left) = discard_in_frame(front, pending);
        let at = first_occurrence(left, x);
        lemma_first_index_is_first(left, is_id(x));
        let after = discard_in_frame(walk, pending).1;
        if at < left.len() {
            assert(left[at] == x);
            assert(left.contains(x));
            assert(pending.contains(x));
            assert(after == left.remove(at));
            assert forall|id: NetIdentifier| #[trigger]
                after.contains(id) <==> pending.contains(id) && forall|j: int|
                    0 <= j < walk.len() ==> (#[trigger] walk[j]).data.client_action_id != id by {
                if after.contains(id) {
                    let k = choose|k: int| 0 <= k < after.len() && after[k] == id;
                    let k0 = if k < at {
                        k
                    } else {
                        k + 1
                    };
                    assert(left[k0] == id);
                    assert(left.contains(id));
                    assert(id != x);
                    assert forall|j: int| 0 <= j < walk.len() implies (
                    #[trigger] walk[j]).data.client_action_id != id by {
                        if j < front.len() {
                            assert(front[j] == walk[j]);
                        }
                    }
                }
                if pending.contains(id) && forall|j: int|
                    0 <= j < walk.len() ==> (#[trigger] walk[j]).data.client_action_id != id {
                    assert(walk[walk.len() - 1].data.client_action_id != id);
                    assert forall|j: int| 0 <= j < front.len() implies (
                    #[trigger] front[j]).data.client_action_id != id by {
                        assert(front[j] == walk[j]);
                    }
                    assert(left.contains(id));
                    let k = choose|k: int| 0 <= k < left.len() && left[k] == id;
                    assert(k != at);
                    let k1 = if k < at {
                        k
                    } else {
                        k - 1
                    };
                    assert(after[k1] == id);
                }
            }
        } else {
            assert(!left.contains(x));
            if pending.contains(x) {
                let j = choose|j: int|
                    0 <= j < front.len() && (#[trigger] front[j]).data.client_action_id == x;
                assert(front[j] == walk[j]);
                assert(walk[walk.len() - 1].data.client_action_id == x);
                assert(false);
            }
            assert(after == left);
            assert forall|id: NetIdentifier| #[trigger]
                after.contains(id) <==> pending.contains(id) && forall|j: int|
                    0 <= j < walk.len() ==> (#[trigger] walk[j]).data.client_action_id != id by {
                if after.contains(id) {
                    assert forall|j: int| 0 <= j < walk.len() implies (
                    #[trigger] walk[j]).data.client_action_id != id by {
                        if j < front.len() {
                            assert(front[j] == walk[j]);
                        }
                    }
                }
                if pending.contains(id) && forall|j: int|
                    0 <= j < walk.len() ==> (#[trigger] walk[j]).data.client_action_id != id {
                    assert forall|j: int| 0 <= j < front.len() implies (
                    #[trigger] front[j]).data.client_action_id != id by {
                        assert(front[j] == walk[j]);
                    }
                }
            }
        }
    }
}

/// Index of the earliest slot that holds a walk action tagged by an id in
/// `ids`, if there is one.
pub open spec fn earliest_tagged<W, C, L>(
    slots: Seq<PlayerActionsView<W, C, L>>,
    ids: Seq<NetIdentifier>,
) -> Option<int> {
    let at = first_index(slots, holds_tagged(ids));
    if at < slots.len() {
        Some(at)
    } else {
        None
    }
}

/// Over the slots of a buffer, where each pending id tags at most one walk
/// action and no pending id comes twice, a discard keeps in each slot exactly the
/// walk actions that no pending id tags and nothing else changes; the earliest
/// slot that lost an action is the earliest one that held a tagged action.
proof fn lemma_discard_in_slots<W, C, L>(
    slots: Seq<PlayerActionsView<W, C, L>>,
    pending: Seq<NetIdentifier>,
)
    requires
        pending.no_duplicates(),
        tags_at_most_one(slots, pending),
    ensures
        discard_in_slots(slots, pending).slots.len() == slots.len(),
        forall|i: int|
            0 <= i < slots.len() ==> #[trigger] discard_in_slots(slots, pending).slots[i] == (
            PlayerActionsView { walk: slots[i].walk.filter(is_untagged(pending)), ..slots[i] }),
        discard_in_slots(slots, pending).earliest == earliest_tagged(slots, pending),
    decreases slots.len(),
{
    let out = discard_in_slots(slots, pending);
    if slots.len() == 0 || pending.len() == 0 {
        assert forall|i: int| 0 <= i < slots.len() implies #[trigger] out.slots[i] == (
        PlayerActionsView { walk: slots[i].walk.filter(is_untagged(pending)), ..slots[i] }) by {
            lemma_filter_keeps_all(slots[i].walk, is_untagged(pending));
        }
        assert forall|i: int| 0 <= i < slots.len() implies !holds_tagged(pending)(
            #[trigger] slots[i],
        ) by {}
        lemma_first_index(slots, holds_tagged(pending), slots.len() as int);
    } else {
        let n = slots.len() - 1;
        let front = slots.drop_last();
        let last = slots.last();
        assert forall|i: int, j: int|
            0 <= i < last.walk.len() && 0 <= j < last.walk.len() && i != j && pending.contains(
                last.walk[i].data.client_action_id,
            ) implies (#[trigger] last.walk[i]).data.client_action_id != (
        #[trigger] last.walk[j]).data.client_action_id by {
            assert(slots[n].walk[i].data.client_action_id != slots[n].walk[j].data.client_action_id);
        }
        lemma_discard_in_frame(last.walk, pending);
        let (kept, left) = discard_in_frame(last.walk, pending);
        assert(tags_at_most_one(front, left)) by {
            assert forall|i: int, j: int, k: int, l: int|
                0 <= i < front.len() && 0 <= j < front[i].walk.len() && 0 <= k < front.len() && 0
                    <= l < front[k].walk.len() && (i != k || j != l) && left.contains(
                    front[i].walk[j].data.client_action_id,
                ) implies (#[trigger] front[i].walk[j]).data.client_action_id != (
            #[trigger] front[k].walk[l]).data.client_action_id by {
                assert(front[i] == slots[i]);
                assert(front[k] == slots[k]);
                assert(pending.contains(slots[i].walk[j].data.client_action_id));
                assert(slots[i].walk[j].data.client_action_id
                    != slots[k].walk[l].data.client_action_id);
            }
        }
        lemma_discard_in_slots(front, left);
        let older = discard_in_slots(front, left);
        // On the older slots, the ids left pending tag what the pending ids tag.
        assert forall|i: int, j: int| 0 <= i < n && 0 <= j < slots[i].walk.len() implies left.contains(
            (#[trigger] slots[i].walk[j]).data.client_action_id,
        ) == pending.contains(slots[i].walk[j].data.client_action_id) by {
            let id = slots[i].walk[j].data.client_action_id;
            if pending.contains(id) {
                assert forall|l: int| 0 <= l < last.walk.len() implies (
                #[trigger] last.walk[l]).data.client_action_id != id by {
                    assert(slots[i].walk[j].data.client_action_id
                        != slots[n].walk[l].data.client_action_id);
                }
            }
            assert(left.contains(id) <==> pending.contains(id));
        }
        assert forall|i: int| 0 <= i < slots.len() implies #[trigger] out.slots[i] == (
        PlayerActionsView { walk: slots[i].walk.filter(is_untagged(pending)), ..slots[i] }) by {
            if i < n {
                assert(front[i] == slots[i]);
                assert(out.slots[i] == older.slots[i]);
                assert forall|j: int| 0 <= j < slots[i].walk.len() implies is_untagged(left)(
                    #[trigger] slots[i].walk[j],
                ) == is_untagged(pending)(slots[i].walk[j]) by {
                    assert(left.contains(slots[i].walk[j].data.client_action_id)
                        == pending.contains(slots[i].walk[j].data.client_action_id));
                }
                lemma_filter_agree(slots[i].walk, is_untagged(left), is_untagged(pending));
            }
        }
        assert forall|i: int| 0 <= i < n implies holds_tagged(left)(#[trigger] front[i])
            == holds_tagged(pending)(slots[i]) by {
            assert(front[i] == slots[i]);
            if holds_tagged(left)(front[i]) {
                let j = choose|j: int|
                    0 <= j < slots[i].walk.len() && left.contains(
                        (#[trigger] slots[i].walk[j]).data.client_action_id,
                    );
                assert(pending.contains(slots[i].walk[j].data.client_action_id));
            }
            if holds_tagged(pending)(slots[i]) {
                let j = choose|j: int|
                    0 <= j < slots[i].walk.len() && pending.contains(
                        (#[trigger] slots[i].walk[j]).data.client_action_id,
                    );
                assert(left.contains(slots[i].walk[j].data.client_action_id));
            }
        }
        lemma_first_index_is_first(front, holds_tagged(left));
        let e = first_index(front, holds_tagged(left));
        if e < n {
            assert(older.earliest == Some(e));
            assert forall|i: int| 0 <= i < e implies !holds_tagged(pending)(#[trigger] slots[i]) by {
                assert(!holds_tagged(left)(front[i]));
            }
            assert(holds_tagged(left)(front[e]));
            lemma_first_index(slots, holds_tagged(pending), e);
        } else {
            assert(older.earliest is None);
            assert forall|i: int| 0 <= i < n implies !holds_tagged(pending)(#[trigger] slots[i]) by {
                assert(!holds_tagged(left)(front[i]));
            }
            if kept.len() < last.walk.len() {
                if !holds_tagged(pending)(last) {
                    lemma_filter_keeps_all(last.walk, is_untagged(pending));
                }
                lemma_first_index(slots, holds_tagged(pending), n);
            } else {
                if holds_tagged(pending)(last) {
                    let j = choose|j: int|
                        0 <= j < last.walk.len() && pending.contains(
                            (#[trigger] last.walk[j]).data.client_action_id,
                        );
                    lemma_filter_drops_some(last.walk, is_untagged(pending), j);
                }
                lemma_first_index(slots, holds_tagged(pending), slots.len() as int);
            }
        }
    }
}

/// Where no id is listed twice and each listed id tags at most one
/// buffered walk action, a discard removes exactly the walk actions that a
/// listed id tags, in whatever frame they are buffered, and leaves everything
/// else as it was. The mark moves to the earliest frame that lost an action,
/// unless it stood at an earlier frame already.
pub proof fn lemma_discard_removes_the_tagged<W, C, L>(
    window: FrameWindow<PlayerActionsView<W, C, L>>,
    ids: Seq<NetIdentifier>,
)
    requires
        ids.no_duplicates(),
        tags_at_most_one(window.slots, ids),
    ensures
        walk_actions_discarded(window, ids).front_frame == window.front_frame,
        walk_actions_discarded(window, ids).limit == window.limit,
        walk_actions_discarded(window, ids).slots.len() == window.slots.len(),
        forall|i: int|
            0 <= i < window.slots.len() ==> #[trigger] walk_actions_discarded(window, ids).slots[i]
                == (PlayerActionsView {
                walk: window.slots[i].walk.filter(is_untagged(ids)),
                ..window.slots[i]
            }),
        walk_actions_discarded(window, ids).oldest_updated_frame == (match earliest_tagged(
            window.slots,
            ids,
        ) {
            Some(index) if window.frame_at(index) < window.oldest_updated_frame => window.frame_at(
                index,
            ) as u64,
            _ => window.oldest_updated_frame,
        }),
{
    lemma_discard_in_slots(window.slots, ids);
}

/// The ids that tag the walk actions, in order.
pub open spec fn tags_of<W>(walk: Seq<NetUpdate<ClientActionUpdate<W>>>) -> Seq<NetIdentifier> {
    Seq::new(walk.len(), |i: int| walk[i].data.client_action_id)
}

/// The ids that tag the walk actions of all slots, each as often as it tags
/// an action.
pub open spec fn buffered_tags<W, C, L>(slots: Seq<PlayerActionsView<W, C, L>>) -> Multiset<
    NetIdentifier,
>
    decreases slots.len(),
{
    if slots.len() == 0 {
        Multiset::empty()
    } else {
        buffered_tags(slots.drop_last()).add(tags_of(slots.last().walk).to_multiset())
    }
}

/// Within one frame, each action that a discard drops uses up one pending
/// id of its own, and no id stays pending while an action that it tags is
/// kept.
proof fn lemma_discard_counts_in_frame<W>(
    walk: Seq<NetUpdate<ClientActionUpdate<W>>>,
    pending: Seq<NetIdentifier>,
)
    ensures
        tags_of(discard_in_frame(walk, pending).0).to_multiset().add(pending.to_multiset())
            =~= tags_of(walk).to_multiset().add(discard_in_frame(walk, pending).1.to_multiset()),
        forall|x: NetIdentifier|
            tags_of(discard_in_frame(walk, pending).0).to_multiset().count(x) == 0
                || #[trigger] discard_in_frame(walk, pending).1.to_multiset().count(x) == 0,
        forall|x: NetIdentifier| #[trigger]
            discard_in_frame(walk, pending).1.to_multiset().count(x) <= pending.to_multiset().count(
                x,
            ),
    decreases walk.len(),
{
    broadcast use vstd::seq_lib::group_to_multiset_ensures;
    broadcast use vstd::multiset::group_multiset_axioms;

    if walk.len() == 0 {
        assert(tags_of(walk) =~= Seq::<NetIdentifier>::empty());
        assert forall|x: NetIdentifier| tags_of(walk).to_multiset().count(x) == 0 by {
            assert(!tags_of(walk).contains(x));
        }
    } else {
        let front = walk.drop_last();
        let y = walk.last().data.client_action_id;
        lemma_discard_counts_in_frame(front, pending);
        let (kept, left) = discard_in_frame(front, pending);
        let at = first_occurrence(left, y);
        lemma_first_index_is_first(left, is_id(y));
        assert(tags_of(walk) =~= tags_of(front).push(y));
        let before_kept = tags_of(kept).to_multiset();
        let before_left = left.to_multiset();
        let listed = pending.to_multiset();
        let tagged = tags_of(front).to_multiset();
        assert(tags_of(walk).to_multiset() =~= tagged.insert(y));
        assert(before_kept.add(listed) =~= tagged.add(before_left));
        let out = discard_in_frame(walk, pending);
        if at < left.len() {
            assert(left[at] == y);
            assert(left.contains(y));
            assert(out.0 == kept && out.1 == left.remove(at));
            assert(out.1.to_multiset() =~= before_left.remove(y));
            assert(before_left.count(y) > 0);
            assert forall|x: NetIdentifier|
                before_kept.add(listed).count(x) == tagged.insert(y).add(
                    before_left.remove(y),
                ).count(x) by {
                assert(before_kept.add(listed).count(x) == tagged.add(before_left).count(x));
            }
            assert(before_kept.add(listed) =~= tagged.insert(y).add(before_left.remove(y)));
        } else {
            assert(!left.contains(y)) by {
                if left.contains(y) {
                    let k = choose|k: int| 0 <= k < left.len() && left[k] == y;
                    assert(is_id(y)(left[k]));
                }
            }
            assert(out.0 == kept.push(walk.last()) && out.1 == left);
            assert(tags_of(kept.push(walk.last())) =~= tags_of(kept).push(y));
            assert(tags_of(out.0).to_multiset() =~= before_kept.insert(y));
            assert forall|x: NetIdentifier|
                before_kept.insert(y).add(listed).count(x) == tagged.insert(y).add(
                    before_left,
                ).count(x) by {
                assert(before_kept.add(listed).count(x) == tagged.add(before_left).count(x));
            }
            assert(before_kept.insert(y).add(listed) =~= tagged.insert(y).add(before_left));
        }
    }
}

/// Over the slots of a buffer, each action that a discard drops uses up one
/// pending id of its own, and no id stays unmatched while an action that it
/// tags is kept.
proof fn lemma_discard_counts_in_slots<W, C, L>(
    slots: Seq<PlayerActionsView<W, C, L>>,
    pending: Seq<NetIdentifier>,
)
    ensures
        buffered_tags(discard_in_slots(slots, pending).slots).add(pending.to_multiset())
            =~= buffered_tags(slots).add(discard_in_slots(slots, pending).unmatched.to_multiset()),
        forall|x: NetIdentifier|
            buffered_tags(discard_in_slots(slots, pending).slots).count(x) == 0
                || #[trigger] discard_in_slots(slots, pending).unmatched.to_multiset().count(x)
                == 0,
        forall|x: NetIdentifier| #[trigger]
            discard_in_slots(slots, pending).unmatched.to_multiset().count(x)
                <= pending.to_multiset().count(x),
    decreases slots.len(),
{
    broadcast use vstd::seq_lib::group_to_multiset_ensures;
    broadcast use vstd::multiset::group_multiset_axioms;

    if slots.len() == 0 {
    } else if pending.len() == 0 {
        assert forall|x: NetIdentifier| pending.to_multiset().count(x) == 0 by {
            assert(!pending.contains(x));
        }
    } else {
        let front = slots.drop_last();
        let last = slots.last();
        let (kept, left) = discard_in_frame(last.walk, pending);
        lemma_discard_counts_in_frame(last.walk, pending);
        lemma_discard_counts_in_slots(front, left);
        let older = discard_in_slots(front, left);
        let after = older.slots.push(PlayerActionsView { walk: kept, ..last });
        assert(after.drop_last() =~= older.slots);
        assert(buffered_tags(after) == buffered_tags(older.slots).add(tags_of(kept).to_multiset()));
        assert(discard_in_slots(slots, pending).slots == after);
        assert(discard_in_slots(slots, pending).unmatched == older.unmatched);
        let kept_tags = tags_of(kept).to_multiset();
        let walk_tags = tags_of(last.walk).to_multiset();
        assert(buffered_tags(slots) == buffered_tags(front).add(walk_tags));
        assert forall|x: NetIdentifier|
            buffered_tags(older.slots).add(kept_tags).add(pending.to_multiset()).count(x)
                == buffered_tags(front).add(walk_tags).add(older.unmatched.to_multiset()).count(
                x,
            ) by {
            assert(kept_tags.add(pending.to_multiset()).count(x) == walk_tags.add(
                left.to_multiset(),
            ).count(x));
            assert(buffered_tags(older.slots).add(left.to_multiset()).count(x) == buffered_tags(
                front,
            ).add(older.unmatched.to_multiset()).count(x));
        }
        assert(buffered_tags(after).add(pending.to_multiset()) =~= buffered_tags(slots).add(
            older.unmatched.to_multiset(),
        ));
        assert forall|x: NetIdentifier|
            buffered_tags(after).count(x) == 0 || #[trigger] older.unmatched.to_multiset().count(x)
                == 0 by {
            if older.unmatched.to_multiset().count(x) > 0 {
                assert(left.to_multiset().count(x) > 0);
            }
        }
    }
}

/// For every id, a discard removes as many of the buffered walk actions
/// that the id tags as the id is listed times, and all of them if it is
/// listed more often than it tags an action.
pub proof fn lemma_discard_counts<W, C, L>(
    window: FrameWindow<PlayerActionsView<W, C, L>>,
    ids: Seq<NetIdentifier>,
    id: NetIdentifier,
)
    ensures
        buffered_tags(walk_actions_discarded(window, ids).slots).count(id) == (if buffered_tags(
            window.slots,
        ).count(id) >= ids.to_multiset().count(id) {
            buffered_tags(window.slots).count(id) - ids.to_multiset().count(id)
        } else {
            0
        }),
{
    lemma_discard_counts_in_slots(window.slots, ids);
    let out = discard_in_slots(window.slots, ids);
    assert(buffered_tags(out.slots).add(ids.to_multiset()).count(id) == buffered_tags(
        window.slots,
    ).add(out.unmatched.to_multiset()).count(id));
}

} // verus!
