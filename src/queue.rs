//! The bounded queue of outgoing frames, ordered by identifier

use crate::frame::{CanId, CanFrame};
use vstd::prelude::*;

verus! {

/// An error indicating that a bounded buffer is full
#[derive(Copy, Clone, Debug, PartialEq, Eq, Structural)]
pub struct OutOfMemoryError;

/// The position at which a frame with identifier `key` goes in behind every frame whose
/// identifier is not greater: the length of the longest prefix of such frames
pub open spec fn upper_bound(s: Seq<CanFrame>, key: u32) -> nat
    decreases s.len(),
{
    if s.len() == 0 {
        0
    } else if s[0].id@ > key {
        0
    } else {
        1 + upper_bound(s.drop_first(), key)
    }
}

/// The position at which a frame with identifier `key` goes in ahead of every frame whose
/// identifier is not smaller: the length of the longest prefix of smaller identifiers
pub open spec fn lower_bound(s: Seq<CanFrame>, key: u32) -> nat
    decreases s.len(),
{
    if s.len() == 0 {
        0
    } else if s[0].id@ >= key {
        0
    } else {
        1 + lower_bound(s.drop_first(), key)
    }
}

/// Frames ordered by identifier, lowest (highest priority) first
pub open spec fn sorted_by_id(s: Seq<CanFrame>) -> bool {
    forall|i: int, j: int| 0 <= i < j < s.len() ==> s[i].id@ <= s[j].id@
}

/// A queue of frames waiting to be sent, with room for a fixed number of them
///
/// Frames leave in order of identifier, lowest first; frames with equal identifiers leave in
/// the order in which they were pushed.
pub struct FrameQueue {
    frames: Vec<CanFrame>,
    capacity: usize,
}

impl View for FrameQueue {
    type V = Seq<CanFrame>;

    closed spec fn view(&self) -> Seq<CanFrame> {
        self.frames@
    }
}

impl FrameQueue {
    /// The number of frames the queue can hold
    pub closed spec fn capacity_spec(&self) -> nat {
        self.capacity as nat
    }

    /// The frames are in order and within capacity
    pub open spec fn wf(&self) -> bool {
        sorted_by_id(self@) && self@.len() <= self.capacity_spec()
    }

    /// Creates an empty queue with room for `capacity` frames
    pub fn new(capacity: usize) -> (r: FrameQueue)
        ensures
            r@ == Seq::<CanFrame>::empty(),
            r.capacity_spec() == capacity,
            r.wf(),
    {
        FrameQueue { frames: Vec::new(), capacity }
    }

    /// The number of frames in the queue
    pub fn len(&self) -> (r: usize)
        ensures
            r == self@.len(),
    {
        self.frames.len()
    }

    /// The number of frames the queue can hold
    pub fn capacity(&self) -> (r: usize)
        ensures
            r == self.capacity_spec(),
    {
        self.capacity
    }

    /// The number of frames that can still be pushed
    pub fn free_space(&self) -> (r: usize)
        requires
            self.wf(),
        ensures
            r == self.capacity_spec() - self@.len(),
    {
        self.capacity - self.frames.len()
    }

    /// Inserts `frame` at `pos`
    fn insert_at(&mut self, pos: usize, frame: CanFrame)
        requires
            pos <= old(self)@.len(),
        ensures
            final(self)@ == old(self)@.insert(pos as int, frame),
            final(self).capacity == old(self).capacity,
    {
        self.frames.insert(pos, frame);
    }

    /// Adds a frame behind all frames whose identifiers are lower or equal
    pub fn push(&mut self, frame: CanFrame) -> (r: Result<(), OutOfMemoryError>)
        requires
            old(self).wf(),
        ensures
            final(self).wf(),
            final(self).capacity_spec() == old(self).capacity_spec(),
            r is Ok <==> old(self)@.len() < old(self).capacity_spec(),
            r is Ok ==> final(self)@ == old(self)@.insert(
                upper_bound(old(self)@, frame.id@) as int,
                frame,
            ),
            r is Err ==> final(self)@ == old(self)@,
    {
        if self.frames.len() >= self.capacity {
            return Err(OutOfMemoryError);
        }
        let key = frame.id.as_u32();
        let ghost s = self@;
        let mut i: usize = 0;
        assert(s.skip(0) =~= s);
        while i < self.frames.len() && self.frames[i].id.as_u32() <= key
            invariant
                i <= s.len(),
                self@ == s,
                upper_bound(s, key) == i + upper_bound(s.skip(i as int), key),
                forall|j: int| 0 <= j < i ==> s[j].id@ <= key,
            decreases s.len() - i,
        {
            assert(s.skip(i as int).drop_first() =~= s.skip(i + 1));
            i = i + 1;
        }
        assert(i < s.len() ==> s.skip(i as int)[0] == s[i as int]);
        self.insert_at(i, frame);
        proof {
            let t = self@;
            assert forall|a: int, b: int| 0 <= a < b < t.len() implies t[a].id@ <= t[b].id@ by {
                if i < s.len() {
                    assert(s[i as int].id@ > key);
                }
            }
        }
        Ok(())
    }

    /// Puts back a frame that was popped but could not be sent, ahead of all frames whose
    /// identifiers are higher or equal
    pub fn return_frame(&mut self, frame: CanFrame) -> (r: Result<(), OutOfMemoryError>)
        requires
            old(self).wf(),
        ensures
            final(self).wf(),
            final(self).capacity_spec() == old(self).capacity_spec(),
            r is Ok <==> old(self)@.len() < old(self).capacity_spec(),
            r is Ok ==> final(self)@ == old(self)@.insert(
                lower_bound(old(self)@, frame.id@) as int,
                frame,
            ),
            r is Err ==> final(self)@ == old(self)@,
    {
        if self.frames.len() >= self.capacity {
            return Err(OutOfMemoryError);
        }
        let key = frame.id.as_u32();
        let ghost s = self@;
        let mut i: usize = 0;
        assert(s.skip(0) =~= s);
        while i < self.frames.len() && self.frames[i].id.as_u32() < key
            invariant
                i <= s.len(),
                self@ == s,
                lower_bound(s, key) == i + lower_bound(s.skip(i as int), key),
                forall|j: int| 0 <= j < i ==> s[j].id@ < key,
            decreases s.len() - i,
        {
            assert(s.skip(i as int).drop_first() =~= s.skip(i + 1));
            i = i + 1;
        }
        assert(i < s.len() ==> s.skip(i as int)[0] == s[i as int]);
        self.insert_at(i, frame);
        proof {
            let t = self@;
            assert forall|a: int, b: int| 0 <= a < b < t.len() implies t[a].id@ <= t[b].id@ by {
                if i < s.len() {
                    assert(s[i as int].id@ >= key);
                }
            }
        }
        Ok(())
    }

    /// Removes and returns the frame with the lowest identifier, the oldest among equals
    pub fn pop_frame(&mut self) -> (r: Option<CanFrame>)
        requires
            old(self).wf(),
        ensures
            final(self).wf(),
            final(self).capacity_spec() == old(self).capacity_spec(),
            old(self)@.len() == 0 ==> r is None && final(self)@ == old(self)@,
            old(self)@.len() > 0 ==> r == Some(old(self)@[0]) && final(self)@ == old(self)@.drop_first(),
    {
        if self.frames.len() == 0 {
            None
        } else {
            Some(self.frames.remove(0))
        }
    }

    /// The identifier of the frame that would be popped next
    pub fn peek_priority(&self) -> (r: Option<CanId>)
        ensures
            self@.len() == 0 ==> r is None,
            self@.len() > 0 ==> r == Some(self@[0].id),
    {
        if self.frames.len() == 0 {
            None
        } else {
            Some(self.frames[0].id)
        }
    }
}

/// In a sorted sequence, every frame ahead of the upper bound has an identifier no greater
/// than the key, and every frame from it on a greater one.
pub proof fn lemma_upper_bound_splits(s: Seq<CanFrame>, key: u32)
    requires
        sorted_by_id(s),
    ensures
        upper_bound(s, key) <= s.len(),
        forall|j: int| 0 <= j < upper_bound(s, key) ==> s[j].id@ <= key,
        forall|j: int| upper_bound(s, key) <= j < s.len() ==> s[j].id@ > key,
    decreases s.len(),
{
    if s.len() > 0 {
        let t = s.drop_first();
        lemma_upper_bound_splits(t, key);
        assert forall|j: int| 0 <= j < upper_bound(s, key) implies s[j].id@ <= key by {
            if j > 0 {
                assert(s[j] == t[j - 1]);
            }
        }
        assert forall|j: int| upper_bound(s, key) <= j < s.len() implies s[j].id@ > key by {
            if s[0].id@ <= key {
                assert(s[j] == t[j - 1]);
            }
        }
    }
}

/// Two frames pushed one after the other onto an ordered queue: the one with the lower
/// identifier stands nearer the front, and with equal identifiers the first pushed does, so it
/// is popped first.
pub proof fn lemma_push_order(s: Seq<CanFrame>, f1: CanFrame, f2: CanFrame)
    requires
        sorted_by_id(s),
    ensures
        ({
            let p1 = upper_bound(s, f1.id@) as int;
            let q1 = s.insert(p1, f1);
            let p2 = upper_bound(q1, f2.id@) as int;
            let q2 = q1.insert(p2, f2);
            &&& f1.id@ <= f2.id@ ==> p1 < p2 && q2[p1] == f1 && q2[p2] == f2
            &&& f1.id@ > f2.id@ ==> p2 <= p1 && q2[p1 + 1] == f1 && q2[p2] == f2
        }),
{
    let p1 = upper_bound(s, f1.id@) as int;
    lemma_upper_bound_splits(s, f1.id@);
    let q1 = s.insert(p1, f1);
    assert(sorted_by_id(q1)) by {
        assert forall|a: int, b: int| 0 <= a < b < q1.len() implies q1[a].id@ <= q1[b].id@ by {
        }
    }
    lemma_upper_bound_splits(q1, f2.id@);
    let p2 = upper_bound(q1, f2.id@) as int;
    if f1.id@ <= f2.id@ {
        assert(q1[p1] == f1);
        assert(p1 < p2);
    } else {
        assert(q1[p1] == f1);
        assert(p2 <= p1);
    }
}

} // verus!
