//! Frame buffers: a bounded window of per-frame slots over consecutive
//! frame numbers, with a mark on the oldest slot that was written.

use vstd::prelude::*;

verus! {

/// Payload kept for one frame of a [`FramedUpdates`] buffer.
pub trait FramedUpdate: View + Sized {
    /// What a slot holds before anything is written to it.
    spec fn blank() -> Self::V;

    /// Makes a slot that holds nothing yet.
    fn new_update() -> (slot: Self)
        ensures
            slot@ == Self::blank(),
    ;
}

/// A window of slots for the frames `front_frame, front_frame + 1, ...`.
///
/// The window never holds more than `limit` slots: reserving frames past the
/// limit drops the oldest ones.
#[derive(Debug, PartialEq)]
pub struct FramedUpdates<T: FramedUpdate> {
    oldest_updated_frame: u64,
    front_frame: u64,
    limit: usize,
    updates: Vec<T>,
}

/// Mathematical model of a [`FramedUpdates`] buffer.
#[verifier::ext_equal]
pub struct FrameWindow<V> {
    /// Earliest frame written since the mark was last reset.
    pub oldest_updated_frame: u64,
    /// Frame of the first slot; with no slots, the frame the next slot gets.
    pub front_frame: u64,
    /// Largest number of slots kept.
    pub limit: nat,
    /// Slot payloads, oldest frame first.
    pub slots: Seq<V>,
}

impl<V> FrameWindow<V> {
    /// A window without slots that starts at frame 0.
    pub open spec fn fresh(limit: nat) -> Self {
        FrameWindow { oldest_updated_frame: 0, front_frame: 0, limit, slots: Seq::empty() }
    }

    /// The window respects its limit, its frames fit the frame counter, and
    /// a window without slots starts at frame 0.
    pub open spec fn wf(self) -> bool {
        &&& 1 <= self.limit <= usize::MAX
        &&& self.slots.len() <= self.limit
        &&& self.front_frame + self.slots.len() <= u64::MAX + 1
        &&& self.slots.len() == 0 ==> self.front_frame == 0
    }

    /// One past the frame of the last slot.
    pub open spec fn end_frame(self) -> int {
        self.front_frame + self.slots.len()
    }

    /// Whether the window has a slot for `frame`.
    pub open spec fn holds(self, frame: int) -> bool {
        self.front_frame <= frame < self.end_frame()
    }

    /// Payload of the slot for `frame`.
    pub open spec fn slot(self, frame: int) -> V
        recommends
            self.holds(frame),
    {
        self.slots[frame - self.front_frame]
    }

    /// Frame of the slot at `index`.
    pub open spec fn frame_at(self, index: int) -> int {
        self.front_frame + index
    }

    /// Index of the first slot whose frame is at least `frame`; the number
    /// of slots if there is none.
    pub open spec fn position(self, frame: int) -> int {
        if frame <= self.front_frame {
            0
        } else if frame >= self.end_frame() {
            self.slots.len() as int
        } else {
            frame - self.front_frame
        }
    }

    /// Whether this window and `other` hold slots for the same frames and
    /// keep as many.
    pub open spec fn same_frames_as<U>(self, other: FrameWindow<U>) -> bool {
        &&& self.front_frame == other.front_frame
        &&& self.slots.len() == other.slots.len()
        &&& self.limit == other.limit
    }

    /// Whether the mark stands on a frame that the window holds.
    pub open spec fn mark_in_window(self) -> bool {
        self.holds(self.oldest_updated_frame as int)
    }

    /// The window after reserving slots up to and including `frame`: slots
    /// already there keep their payload, new ones are `blank`, and only the
    /// newest `limit` frames stay. A mark on a frame that is dropped moves up
    /// to the new front.
    pub open spec fn reserved(self, frame: u64, blank: V) -> Self {
        if frame < self.end_frame() {
            self
        } else {
            let front = if frame + 1 - self.limit > self.front_frame {
                frame + 1 - self.limit
            } else {
                self.front_frame as int
            };
            FrameWindow {
                oldest_updated_frame: if self.oldest_updated_frame < front {
                    front as u64
                } else {
                    self.oldest_updated_frame
                },
                front_frame: front as u64,
                slots: Seq::new(
                    (frame + 1 - front) as nat,
                    |i: int|
                        if front + i < self.end_frame() {
                            self.slots[front + i - self.front_frame]
                        } else {
                            blank
                        },
                ),
                ..self
            }
        }
    }

    /// The window with the slot for `frame` replaced.
    pub open spec fn with_slot(self, frame: int, payload: V) -> Self {
        FrameWindow { slots: self.slots.update(frame - self.front_frame, payload), ..self }
    }

    /// The window with its mark moved.
    pub open spec fn marked(self, frame: u64) -> Self {
        FrameWindow { oldest_updated_frame: frame, ..self }
    }
}

impl<T: FramedUpdate> View for FramedUpdates<T> {
    type V = FrameWindow<T::V>;

    closed spec fn view(&self) -> FrameWindow<T::V> {
        FrameWindow {
            oldest_updated_frame: self.oldest_updated_frame,
            front_frame: self.front_frame,
            limit: self.limit as nat,
            slots: views(self.updates@),
        }
    }
}

impl<T: FramedUpdate> FramedUpdates<T> {
    /// Holds of every buffer: its model is well formed.
    #[verifier::type_invariant]
    pub open spec fn inv(self) -> bool {
        self@.wf()
    }

    /// An empty buffer that starts at frame 0 and keeps `limit` slots.
    pub fn new(limit: usize) -> (buffer: Option<Self>)
        ensures
            limit == 0 <==> buffer is None,
            buffer matches Some(b) ==> b@ == FrameWindow::<T::V>::fresh(limit as nat),
    {
        if limit == 0 {
            return None;
        }
        let b = FramedUpdates { oldest_updated_frame: 0, front_frame: 0, limit, updates: Vec::new() };
        assert(b@.slots =~= Seq::empty());
        Some(b)
    }

    /// Earliest frame written since the mark was last reset.
    pub fn oldest_updated_frame(&self) -> (frame: u64)
        ensures
            frame == self@.oldest_updated_frame,
    {
        self.oldest_updated_frame
    }

    /// Moves the mark.
    pub fn set_oldest_updated_frame(&mut self, frame: u64)
        ensures
            final(self)@ == old(self)@.marked(frame),
    {
        proof {
            use_type_invariant(&*self);
        }
        self.oldest_updated_frame = frame;
    }

    /// Number of slots.
    pub fn len(&self) -> (n: usize)
        ensures
            n == self@.slots.len(),
            self@.wf(),
    {
        proof {
            use_type_invariant(self);
        }
        self.updates.len()
    }

    /// Frame of the oldest slot, if there is a slot.
    pub fn front_frame(&self) -> (frame: Option<u64>)
        ensures
            frame == (if self@.slots.len() == 0 {
                None
            } else {
                Some(self@.front_frame)
            }),
    {
        if self.updates.len() == 0 {
            None
        } else {
            Some(self.front_frame)
        }
    }

    /// Frame of the newest slot, if there is a slot.
    pub fn back_frame(&self) -> (frame: Option<u64>)
        ensures
            frame == (if self@.slots.len() == 0 {
                None
            } else {
                Some((self@.end_frame() - 1) as u64)
            }),
            self@.wf(),
    {
        proof {
            use_type_invariant(self);
        }
        let n = self.updates.len();
        if n == 0 {
            None
        } else {
            Some(self.front_frame + ((n - 1) as u64))
        }
    }

    /// The slot for `frame`, if the window holds it.
    pub fn get(&self, frame: u64) -> (slot: Option<&T>)
        ensures
            self@.holds(frame as int) <==> slot is Some,
            slot matches Some(s) ==> s@ == self@.slot(frame as int),
    {
        proof {
            use_type_invariant(self);
        }
        if frame < self.front_frame {
            return None;
        }
        let offset = frame - self.front_frame;
        if offset >= self.updates.len() as u64 {
            return None;
        }
        Some(&self.updates[offset as usize])
    }

    /// Makes sure the window reaches `frame`: appends blank slots for the
    /// frames after the newest one, dropping the oldest slots where the limit
    /// would be passed, and moving a mark that stood on a dropped frame up to
    /// the new front. A window that already reaches `frame` is left alone.
    pub fn reserve_updates(&mut self, frame: u64)
        ensures
            final(self)@ == old(self)@.reserved(frame, T::blank()),
            final(self)@.wf(),
    {
        proof {
            use_type_invariant(&*self);
        }
        if frame < self.front_frame {
            return ;
        }
        let len = self.updates.len();
        let offset = frame - self.front_frame;
        if offset < len as u64 {
            return ;
        }
        let gap = offset - len as u64;
        let mut front = self.front_frame;
        self.front_frame = 0;
        let mut slots: Vec<T> = Vec::new();
        core::mem::swap(&mut self.updates, &mut slots);
        let ghost before = views(slots@);
        assert(before == old(self)@.slots);
        let to_add: usize;
        if gap >= self.limit as u64 {
            slots = Vec::new();
            front = frame - ((self.limit - 1) as u64);
            to_add = self.limit;
        } else {
            to_add = (gap + 1) as usize;
            let room = self.limit - len;
            if to_add > room {
                let evict = to_add - room;
                slots = slots.split_off(evict);
                front = front + evict as u64;
            }
        }
        let ghost kept = views(slots@);
        push_blanks(&mut slots, to_add);
        if self.oldest_updated_frame < front {
            self.oldest_updated_frame = front;
        }
        self.updates = slots;
        self.front_frame = front;
        assert(self@.slots =~= old(self)@.reserved(frame, T::blank()).slots);
    }

    /// Index of the first slot whose frame is at least `frame`; the number
    /// of slots if there is none.
    pub fn position(&self, frame: u64) -> (index: usize)
        ensures
            index == self@.position(frame as int),
            index <= self@.slots.len(),
    {
        proof {
            use_type_invariant(self);
        }
        if frame <= self.front_frame {
            return 0;
        }
        let offset = frame - self.front_frame;
        let len = self.updates.len();
        if offset >= len as u64 {
            len
        } else {
            offset as usize
        }
    }

    /// Mutable access to the slot at `index`, if there is one.
    pub fn slot_mut(&mut self, index: usize) -> (slot: Option<&mut T>)
        ensures
            index < old(self)@.slots.len() <==> slot is Some,
            slot is None ==> final(self)@ == old(self)@,
            slot matches Some(s) ==> {
                &&& (*s)@ == old(self)@.slots[index as int]
                &&& final(self)@.slots =~= old(self)@.slots.update(index as int, (*final(s))@)
                &&& final(self)@ == (FrameWindow {
                    slots: old(self)@.slots.update(index as int, (*final(s))@),
                    ..old(self)@
                })
            },
    {
        proof {
            use_type_invariant(&*self);
        }
        if index >= self.updates.len() {
            return None;
        }
        Some(&mut self.updates[index])
    }

    /// Mutable access to the slot for `frame`, if the window holds it.
    pub fn update_frame(&mut self, frame: u64) -> (slot: Option<&mut T>)
        ensures
            old(self)@.holds(frame as int) <==> slot is Some,
            slot is None ==> final(self)@ == old(self)@,
            slot matches Some(s) ==> {
                &&& (*s)@ == old(self)@.slot(frame as int)
                &&& final(self)@.slots =~= old(self)@.slots.update(
                    frame - old(self)@.front_frame,
                    (*final(s))@,
                )
                &&& final(self)@ == old(self)@.with_slot(frame as int, (*final(s))@)
            },
    {
        proof {
            use_type_invariant(&*self);
        }
        if frame < self.front_frame {
            return None;
        }
        let offset = frame - self.front_frame;
        if offset >= self.updates.len() as u64 {
            return None;
        }
        Some(&mut self.updates[offset as usize])
    }
}

/// Reserving keeps the window well formed and makes it reach the frame;
/// a frame that the window held before and still holds has kept its payload,
/// and a frame that it holds now and did not hold before is blank. A mark
/// that stood within the window still does, and after frames were added the
/// mark is never before the front.
pub proof fn lemma_reserved<V>(window: FrameWindow<V>, frame: u64, blank: V)
    requires
        window.wf(),
    ensures
        window.reserved(frame, blank).wf(),
        window.reserved(frame, blank).holds(frame as int) || frame < window.front_frame,
        window.reserved(frame, blank).front_frame >= window.front_frame,
        window.reserved(frame, blank).end_frame() >= window.end_frame(),
        window.mark_in_window() ==> window.reserved(frame, blank).mark_in_window(),
        window.front_frame <= window.oldest_updated_frame || frame >= window.end_frame()
            ==> window.reserved(frame, blank).front_frame <= window.reserved(
            frame,
            blank,
        ).oldest_updated_frame,
        window.reserved(frame, blank).oldest_updated_frame >= window.oldest_updated_frame,
        forall|f: int|
            window.reserved(frame, blank).holds(f) ==> #[trigger] window.reserved(frame, blank).slot(
                f,
            ) == (if window.holds(f) {
                window.slot(f)
            } else {
                blank
            }),
{
}

/// The models of the values of a sequence, in order.
pub open spec fn views<T: View>(values: Seq<T>) -> Seq<T::V> {
    Seq::new(values.len(), |i: int| values[i]@)
}

/// Appends `count` blank slots to `slots`.
fn push_blanks<T: FramedUpdate>(slots: &mut Vec<T>, count: usize)
    ensures
        views(final(slots)@) == views(old(slots)@) + Seq::new(
            count as nat,
            |i: int| T::blank(),
        ),
{
    let mut added: usize = 0;
    while added < count
        invariant
            added <= count,
            slots@.len() == old(slots)@.len() + added,
            views(slots@) == views(old(slots)@) + Seq::new(
                added as nat,
                |i: int| T::blank(),
            ),
        decreases count - added,
    {
        let ghost prev = slots@;
        let slot = T::new_update();
        slots.push(slot);
        added = added + 1;
        assert(views(slots@) =~= views(old(slots)@) + Seq::new(
            added as nat,
            |i: int| T::blank(),
        )) by {
            let target = views(old(slots)@) + Seq::new(added as nat, |i: int| T::blank());
            assert(views(slots@).len() == target.len());
            assert forall|j: int| 0 <= j < target.len() implies views(slots@)[j] == target[j] by {
                if j < prev.len() {
                    assert(views(prev)[j] == prev[j]@);
                }
            }
        }
    }
}

} // verus!
