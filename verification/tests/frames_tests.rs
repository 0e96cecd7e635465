use client_sync::frames::FramedUpdates;
use client_sync::world::SpawnActions;

type Buffer = FramedUpdates<SpawnActions<u32>>;

fn buffer(limit: usize) -> Buffer {
    FramedUpdates::new(limit).expect("a limit above zero")
}

fn spawned(buffer: &Buffer, frame: u64) -> Option<Vec<u32>> {
    buffer.get(frame).map(|slot| slot.spawn_actions.clone())
}

fn write(buffer: &mut Buffer, frame: u64, actions: Vec<u32>) {
    buffer.update_frame(frame).expect("a frame of the window").spawn_actions = actions;
}

#[test]
fn there_is_no_buffer_without_room() {
    assert!(FramedUpdates::<SpawnActions<u32>>::new(0).is_none());
    assert!(FramedUpdates::<SpawnActions<u32>>::new(1).is_some());
}

#[test]
fn a_new_buffer_is_empty() {
    let buffer = buffer(8);
    assert_eq!(buffer.len(), 0);
    assert_eq!(buffer.front_frame(), None);
    assert_eq!(buffer.back_frame(), None);
    assert_eq!(buffer.oldest_updated_frame(), 0);
    assert_eq!(spawned(&buffer, 0), None);
    assert_eq!(buffer.position(0), 0);
    assert_eq!(buffer.position(5), 0);
}

#[test]
fn reserving_on_an_empty_buffer_starts_at_frame_zero() {
    let mut buffer = buffer(8);
    buffer.reserve_updates(3);
    assert_eq!(buffer.len(), 4);
    assert_eq!(buffer.front_frame(), Some(0));
    assert_eq!(buffer.back_frame(), Some(3));
    for frame in 0..4 {
        assert_eq!(spawned(&buffer, frame), Some(vec![]));
    }
    assert_eq!(spawned(&buffer, 4), None);
}

#[test]
fn reserving_frame_zero_makes_one_slot() {
    let mut buffer = buffer(8);
    buffer.reserve_updates(0);
    assert_eq!(buffer.len(), 1);
    assert_eq!(buffer.front_frame(), Some(0));
    assert_eq!(buffer.back_frame(), Some(0));
}

#[test]
fn reserving_keeps_what_is_there() {
    let mut buffer = buffer(8);
    buffer.reserve_updates(3);
    write(&mut buffer, 2, vec![7, 8]);
    buffer.reserve_updates(5);
    assert_eq!(buffer.len(), 6);
    assert_eq!(buffer.front_frame(), Some(0));
    assert_eq!(buffer.back_frame(), Some(5));
    assert_eq!(spawned(&buffer, 2), Some(vec![7, 8]));
    assert_eq!(spawned(&buffer, 4), Some(vec![]));
    assert_eq!(spawned(&buffer, 5), Some(vec![]));
}

#[test]
fn reserving_a_frame_that_is_there_changes_nothing() {
    let mut buffer = buffer(8);
    buffer.reserve_updates(5);
    write(&mut buffer, 5, vec![1]);
    buffer.set_oldest_updated_frame(4);
    let mut same = self::buffer(8);
    same.reserve_updates(5);
    write(&mut same, 5, vec![1]);
    same.set_oldest_updated_frame(4);
    buffer.reserve_updates(5);
    assert_eq!(buffer, same);
    buffer.reserve_updates(0);
    assert_eq!(buffer, same);
}

#[test]
fn reserving_past_the_limit_drops_the_oldest_frames() {
    let mut buffer = buffer(4);
    buffer.reserve_updates(3);
    write(&mut buffer, 1, vec![1]);
    write(&mut buffer, 3, vec![3]);
    buffer.reserve_updates(5);
    assert_eq!(buffer.len(), 4);
    assert_eq!(buffer.front_frame(), Some(2));
    assert_eq!(buffer.back_frame(), Some(5));
    assert_eq!(spawned(&buffer, 1), None);
    assert_eq!(spawned(&buffer, 2), Some(vec![]));
    assert_eq!(spawned(&buffer, 3), Some(vec![3]));
    assert_eq!(spawned(&buffer, 4), Some(vec![]));
    assert_eq!(spawned(&buffer, 5), Some(vec![]));
}

#[test]
fn reserving_far_ahead_keeps_only_new_frames() {
    let mut buffer = buffer(4);
    buffer.reserve_updates(3);
    write(&mut buffer, 3, vec![3]);
    buffer.reserve_updates(100);
    assert_eq!(buffer.len(), 4);
    assert_eq!(buffer.front_frame(), Some(97));
    assert_eq!(buffer.back_frame(), Some(100));
    for frame in 97..=100 {
        assert_eq!(spawned(&buffer, frame), Some(vec![]));
    }
    assert_eq!(spawned(&buffer, 3), None);
}

#[test]
fn reserving_exactly_one_limit_ahead_drops_everything() {
    let mut buffer = buffer(4);
    buffer.reserve_updates(3);
    write(&mut buffer, 3, vec![3]);
    buffer.reserve_updates(7);
    assert_eq!(buffer.front_frame(), Some(4));
    assert_eq!(buffer.back_frame(), Some(7));
    assert_eq!(spawned(&buffer, 4), Some(vec![]));
}

#[test]
fn a_buffer_reaches_the_last_frame_there_is() {
    let mut buffer = buffer(3);
    buffer.reserve_updates(u64::MAX);
    assert_eq!(buffer.len(), 3);
    assert_eq!(buffer.front_frame(), Some(u64::MAX - 2));
    assert_eq!(buffer.back_frame(), Some(u64::MAX));
    assert_eq!(spawned(&buffer, u64::MAX), Some(vec![]));
    buffer.reserve_updates(u64::MAX);
    assert_eq!(buffer.len(), 3);
}

#[test]
fn reserving_leaves_a_mark_on_a_frame_that_stays() {
    let mut buffer = buffer(4);
    buffer.reserve_updates(9);
    buffer.set_oldest_updated_frame(8);
    buffer.reserve_updates(11);
    assert_eq!(buffer.front_frame(), Some(8));
    assert_eq!(buffer.oldest_updated_frame(), 8);
    buffer.set_oldest_updated_frame(30);
    buffer.reserve_updates(12);
    assert_eq!(buffer.oldest_updated_frame(), 30);
}

#[test]
fn reserving_moves_a_mark_on_a_dropped_frame_to_the_front() {
    let mut buffer = buffer(2);
    buffer.reserve_updates(1);
    buffer.set_oldest_updated_frame(0);
    buffer.reserve_updates(9);
    assert_eq!(buffer.front_frame(), Some(8));
    assert_eq!(buffer.oldest_updated_frame(), 8);
    let mut buffer = self::buffer(4);
    buffer.set_oldest_updated_frame(9);
    buffer.reserve_updates(20);
    assert_eq!(buffer.front_frame(), Some(17));
    assert_eq!(buffer.oldest_updated_frame(), 17);
}

#[test]
fn a_frame_that_is_there_is_reserved_without_moving_the_mark() {
    let mut buffer = buffer(4);
    buffer.reserve_updates(9);
    buffer.set_oldest_updated_frame(2);
    buffer.reserve_updates(9);
    buffer.reserve_updates(6);
    assert_eq!(buffer.oldest_updated_frame(), 2);
}

#[test]
fn position_is_the_first_slot_at_or_after_a_frame() {
    let mut buffer = buffer(4);
    buffer.reserve_updates(9);
    assert_eq!(buffer.front_frame(), Some(6));
    assert_eq!(buffer.position(0), 0);
    assert_eq!(buffer.position(6), 0);
    assert_eq!(buffer.position(7), 1);
    assert_eq!(buffer.position(9), 3);
    assert_eq!(buffer.position(10), 4);
    assert_eq!(buffer.position(u64::MAX), 4);
}

#[test]
fn frames_outside_the_window_have_no_slot() {
    let mut buffer = buffer(4);
    buffer.reserve_updates(9);
    assert!(buffer.get(5).is_none());
    assert!(buffer.get(10).is_none());
    assert!(buffer.update_frame(5).is_none());
    assert!(buffer.update_frame(10).is_none());
    assert!(buffer.update_frame(6).is_some());
    assert!(buffer.slot_mut(3).is_some());
    assert!(buffer.slot_mut(4).is_none());
}

#[test]
fn a_slot_is_written_by_frame_or_by_index() {
    let mut buffer = buffer(4);
    buffer.reserve_updates(9);
    write(&mut buffer, 7, vec![70]);
    buffer.slot_mut(2).expect("the third slot").spawn_actions = vec![80];
    assert_eq!(spawned(&buffer, 6), Some(vec![]));
    assert_eq!(spawned(&buffer, 7), Some(vec![70]));
    assert_eq!(spawned(&buffer, 8), Some(vec![80]));
    assert_eq!(spawned(&buffer, 9), Some(vec![]));
}

#[test]
fn the_mark_is_moved_by_hand() {
    let mut buffer = buffer(4);
    buffer.set_oldest_updated_frame(12);
    assert_eq!(buffer.oldest_updated_frame(), 12);
    assert_eq!(buffer.len(), 0);
}
