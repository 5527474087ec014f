//! What a bxCAN link driver needs from the transfer layer: frame conversion, transmit
//! deadlines per mailbox, the choice of the next frame to send, and the bookkeeping after the
//! controller takes or refuses a frame

use crate::frame::{frame_from_parts, id_conforms, InvalidFrameFormat};
use crate::queue::{lower_bound, FrameQueue};
use crate::time::{wrapping_order, Microseconds48};
use vstd::prelude::*;

verus! {

/// bxCAN's frame type, carried through without looking inside
#[verifier::external_type_specification]
#[verifier::external_body]
pub struct ExBxcanFrame(bxcan::Frame);

/// The raw extended identifier of a bxCAN frame, or nothing for a standard identifier
pub uninterp spec fn bxcan_id_of(f: bxcan::Frame) -> Option<u32>;

/// The data of a bxCAN data frame, or nothing for a remote frame
pub uninterp spec fn bxcan_data_of(f: bxcan::Frame) -> Option<Seq<u8>>;

/// Whether a bxCAN frame converts into a frame of this crate: it has an extended identifier
/// of this protocol, and data
pub open spec fn bxcan_converts(f: bxcan::Frame) -> bool {
    &&& bxcan_id_of(f) is Some
    &&& id_conforms(bxcan_id_of(f)->Some_0)
    &&& bxcan_data_of(f) is Some
}

/// Whether the data length of a bxCAN frame is within the 8 bytes of its buffer
///
/// bxCAN takes the length of a received frame from the 4-bit DLC field that the controller
/// reports, without checking it against the 8-byte buffer, and reading the data of a frame
/// whose DLC says 9 to 15 panics. The frames this crate builds always satisfy this.
pub open spec fn bxcan_length_valid(f: bxcan::Frame) -> bool {
    bxcan_data_of(f) is Some ==> bxcan_data_of(f)->Some_0.len() <= 8
}

/// Relies on `bxcan::Frame::id` and `bxcan::ExtendedId::as_raw`: the raw identifier of a frame
/// with an extended identifier, which `ExtendedId` keeps within 29 bits, and nothing for a
/// standard one.
#[verifier::external_body]
fn bxcan_extended_id(frame: &bxcan::Frame) -> (r: Option<u32>)
    ensures
        r == bxcan_id_of(*frame),
        r is Some ==> r->Some_0 <= 0x1fff_ffff,
{
    match frame.id() {
        bxcan::Id::Extended(id) => Some(id.as_raw()),
        bxcan::Id::Standard(_) => None,
    }
}

/// Relies on `bxcan::Frame::data`: the data of a data frame, and nothing for a remote frame.
/// bxCAN slices the data out of an 8-byte buffer, so the frame's length must be at most 8.
#[verifier::external_body]
fn bxcan_data(frame: &bxcan::Frame) -> (r: Option<Vec<u8>>)
    requires
        bxcan_length_valid(*frame),
    ensures
        r is Some <==> bxcan_data_of(*frame) is Some,
        r is Some ==> r->Some_0@ == bxcan_data_of(*frame)->Some_0,
        r is Some ==> r->Some_0@.len() <= 8,
{
    match frame.data() {
        Some(d) => Some(d.to_vec()),
        None => None,
    }
}

/// Relies on `bxcan::ExtendedId::new`, `bxcan::Data::new` and `bxcan::Frame::new_data`: a
/// data frame with the given extended identifier and data. `new` accepts any identifier up to
/// 0x1FFF_FFFF and `Data::new` any slice of up to 8 bytes.
#[verifier::external_body]
fn bxcan_data_frame(id: u32, data: &[u8]) -> (r: bxcan::Frame)
    requires
        id <= 0x1fff_ffff,
        data@.len() <= 8,
    ensures
        bxcan_id_of(r) == Some(id),
        bxcan_data_of(r) == Some(data@),
{
    bxcan::Frame::new_data(bxcan::ExtendedId::new(id).unwrap(), bxcan::Data::new(data).unwrap())
}

/// Converts a frame of this crate into a bxCAN frame
///
/// Classic CAN frames carry at most 8 data bytes.
pub fn uavcan_frame_to_bxcan(frame: &crate::frame::CanFrame) -> (r: bxcan::Frame)
    requires
        frame.data@.len() <= 8,
    ensures
        bxcan_id_of(r) == Some(frame.id@),
        bxcan_data_of(r) == Some(frame.data@),
        bxcan_length_valid(r),
{
    let id = frame.id.as_u32();
    proof {
        crate::frame::lemma_can_id_conforms(frame.id);
    }
    bxcan_data_frame(id, frame.data.as_slice())
}

/// Converts a bxCAN frame into a frame of this crate
///
/// This function returns an error if the frame does not have an extended ID, has an ID with an
/// invalid format, or does not have any data. The frame's data length must be at most 8; a
/// frame read from the controller has it unless the controller reported a DLC above 8.
pub fn bxcan_frame_to_uavcan(frame: &bxcan::Frame, timestamp: Microseconds48) -> (r: Result<
    crate::frame::CanFrame,
    InvalidFrameFormat,
>)
    requires
        bxcan_length_valid(*frame),
    ensures
        r is Ok <==> bxcan_converts(*frame),
        r is Ok ==> r->Ok_0.id@ == bxcan_id_of(*frame)->Some_0 && r->Ok_0.data@ == bxcan_data_of(
            *frame,
        )->Some_0 && r->Ok_0.timestamp == timestamp,
        r is Ok ==> r->Ok_0.data@.len() <= 8,
{
    let id = bxcan_extended_id(frame);
    let data = bxcan_data(frame);
    match data {
        Some(d) => frame_from_parts(id, Some(d.as_slice()), timestamp),
        None => frame_from_parts(id, None, timestamp),
    }
}

/// Whether a frame whose deadline is `deadline` may still be sent at `now`: its deadline is
/// now or later
pub open spec fn before_deadline(deadline: Microseconds48, now: Microseconds48) -> bool {
    wrapping_order(deadline.0@, now.0@) != std::cmp::Ordering::Less
}

/// Keeps track of the deadline for each frame in a CAN transmit mailbox
pub struct DeadlineTracker {
    deadlines: [Option<Microseconds48>; 3],
}

impl DeadlineTracker {
    /// The deadline stored for each of the three mailboxes
    pub closed spec fn deadlines_spec(&self) -> Seq<Option<Microseconds48>> {
        self.deadlines@
    }

    /// Creates a deadline tracker with no deadlines
    pub fn new() -> (r: DeadlineTracker)
        ensures
            r.deadlines_spec() == seq![None::<Microseconds48>, None, None],
            r.deadlines_spec().len() == 3,
    {
        let r = DeadlineTracker { deadlines: [None, None, None] };
        assert(r.deadlines@ =~= seq![None::<Microseconds48>, None, None]);
        r
    }

    /// Returns the deadline for a mailbox
    pub fn get(&self, mailbox: usize) -> (r: Option<Microseconds48>)
        requires
            mailbox < 3,
        ensures
            r == self.deadlines_spec()[mailbox as int],
    {
        proof {
            assert(self.deadlines@.len() == 3);
        }
        self.deadlines[mailbox]
    }

    /// Stores the deadline for a mailbox and returns the deadline for the previous frame in that
    /// mailbox, if any
    pub fn replace(&mut self, mailbox: usize, new_deadline: Microseconds48) -> (r: Option<
        Microseconds48,
    >)
        requires
            mailbox < 3,
        ensures
            r == old(self).deadlines_spec()[mailbox as int],
            old(self).deadlines_spec().len() == 3,
            final(self).deadlines_spec().len() == 3,
            final(self).deadlines_spec() == old(self).deadlines_spec().update(
                mailbox as int,
                Some(new_deadline),
            ),
    {
        proof {
            assert(self.deadlines@.len() == 3);
        }
        let previous = self.deadlines[mailbox];
        self.deadlines[mailbox] = Some(new_deadline);
        previous
    }

    /// Whether the frame in a mailbox has missed its deadline, so its transmission should be
    /// aborted
    pub fn is_expired(&self, mailbox: usize, now: Microseconds48) -> (r: bool)
        requires
            mailbox < 3,
        ensures
            self.deadlines_spec().len() == 3,
            r == match self.deadlines_spec()[mailbox as int] {
                Some(d) => wrapping_order(now.0@, d.0@) == std::cmp::Ordering::Greater,
                None => false,
            },
    {
        match self.get(mailbox) {
            Some(d) => match now.overflow_safe_compare(&d) {
                std::cmp::Ordering::Greater => true,
                _ => false,
            },
            None => false,
        }
    }
}

/// Takes frames from the queue until one that may still be sent at `now` comes out, and
/// returns it; the frames whose deadlines have passed are dropped
pub fn next_frame_to_send(queue: &mut FrameQueue, now: Microseconds48) -> (r: Option<crate::frame::CanFrame>)
    requires
        old(queue).wf(),
    ensures
        final(queue).wf(),
        final(queue).capacity_spec() == old(queue).capacity_spec(),
        ({
            let s = old(queue)@;
            match r {
                Some(f) => exists|k: int|
                    0 <= k < s.len() && s[k] == f && before_deadline(f.timestamp, now)
                        && final(queue)@ == s.skip(k + 1) && forall|j: int|
                        0 <= j < k ==> !before_deadline(#[trigger] s[j].timestamp, now),
                None => final(queue)@.len() == 0 && forall|j: int|
                    0 <= j < s.len() ==> !before_deadline(#[trigger] s[j].timestamp, now),
            }
        }),
{
    let ghost s = queue@;
    let ghost mut k: int = 0;
    assert(s.skip(0) =~= s);
    while queue.len() > 0
        invariant
            queue.wf(),
            queue.capacity_spec() == old(queue).capacity_spec(),
            s == old(queue)@,
            0 <= k <= s.len(),
            queue@ == s.skip(k),
            forall|j: int| 0 <= j < k ==> !before_deadline(#[trigger] s[j].timestamp, now),
        decreases queue@.len(),
    {
        let frame = queue.pop_frame();
        match frame {
            Some(f) => {
                assert(f == s[k]);
                assert(queue@ =~= s.skip(k + 1));
                match f.timestamp.overflow_safe_compare(&now) {
                    std::cmp::Ordering::Less => {
                        proof {
                            k = k + 1;
                        }
                    },
                    _ => {
                        return Some(f);
                    },
                }
            },
            None => {},
        }
    }
    None
}

/// Records what the controller did with a frame handed to it for transmission
///
/// `mailbox` is the transmit mailbox that took the frame, or `None` when every mailbox was
/// busy with frames of equal or higher priority; `displaced` is the lower-priority frame that
/// the controller took out of that mailbox to make room, if any. The frame's deadline is stored
/// for its mailbox and a displaced frame goes back into the queue with the deadline stored for
/// it; a frame that found no mailbox goes back into the queue itself. Returns whether the
/// frame was taken.
pub fn record_transmission(
    queue: &mut FrameQueue,
    deadlines: &mut DeadlineTracker,
    frame: crate::frame::CanFrame,
    mailbox: Option<usize>,
    displaced: Option<&bxcan::Frame>,
) -> (r: bool)
    requires
        old(queue).wf(),
        mailbox is Some ==> mailbox->Some_0 < 3,
        displaced is Some ==> bxcan_length_valid(*displaced->Some_0),
    ensures
        final(queue).wf(),
        final(queue).capacity_spec() == old(queue).capacity_spec(),
        r == mailbox is Some,
        match mailbox {
            Some(m) => {
                &&& final(deadlines).deadlines_spec() == old(deadlines).deadlines_spec().update(
                    m as int,
                    Some(frame.timestamp),
                )
                &&& ({
                    let q = old(queue)@;
                    match (displaced, old(deadlines).deadlines_spec()[m as int]) {
                        (Some(d), Some(deadline)) => if bxcan_converts(*d) && q.len()
                            < old(queue).capacity_spec() {
                            exists|f: crate::frame::CanFrame|
                                f.timestamp == deadline && f.id@ == bxcan_id_of(*d)->Some_0
                                    && f.data@ == bxcan_data_of(*d)->Some_0 && final(queue)@
                                    == q.insert(lower_bound(q, f.id@) as int, f)
                        } else {
                            final(queue)@ == q
                        },
                        _ => final(queue)@ == q,
                    }
                })
            },
            None => {
                &&& final(deadlines).deadlines_spec() == old(deadlines).deadlines_spec()
                &&& old(queue)@.len() < old(queue).capacity_spec() ==> final(queue)@
                    == old(queue)@.insert(lower_bound(old(queue)@, frame.id@) as int, frame)
                &&& old(queue)@.len() >= old(queue).capacity_spec() ==> final(queue)@
                    == old(queue)@
            },
        },
{
    match mailbox {
        Some(m) => {
            let previous = deadlines.replace(m, frame.timestamp);
            match (displaced, previous) {
                (Some(d), Some(deadline)) => {
                    if let Ok(removed) = bxcan_frame_to_uavcan(d, deadline) {
                        let _ = queue.return_frame(removed);
                        assert(old(queue)@.len() < old(queue).capacity_spec() ==> exists|
                            f: crate::frame::CanFrame,
                        |
                            f.timestamp == deadline && f.id@ == bxcan_id_of(*d)->Some_0
                                && f.data@ == bxcan_data_of(*d)->Some_0 && queue@
                                == old(queue)@.insert(lower_bound(old(queue)@, f.id@) as int, f));
                    }
                },
                _ => {},
            }
            true
        },
        None => {
            let _ = queue.return_frame(frame);
            false
        },
    }
}

/// Converts a received bxCAN frame, stamped with its arrival time, and hands it to the
/// receiver; returns the transfer it completes, if any
///
/// Frames without an extended identifier, with an identifier of another protocol, or without
/// data, are dropped. The frame's data length must be at most 8 (see `bxcan_length_valid`).
pub fn accept_bxcan_frame(
    receiver: &mut crate::rx::Receiver,
    frame: &bxcan::Frame,
    now: Microseconds48,
) -> (r: Option<crate::rx::Transfer>)
    requires
        old(receiver).wf(),
        bxcan_length_valid(*frame),
    ensures
        final(receiver).wf(),
        !bxcan_converts(*frame) ==> r is None && final(receiver).subscriptions_spec() == old(
            receiver,
        ).subscriptions_spec(),
        bxcan_converts(*frame) ==> exists|f: crate::frame::CanFrame|
            f.timestamp == now && f.id@ == bxcan_id_of(*frame)->Some_0 && f.data@
                == bxcan_data_of(*frame)->Some_0 && crate::rx::receiver_accepted(
                *old(receiver),
                *final(receiver),
                f,
                r,
            ),
{
    match bxcan_frame_to_uavcan(frame, now) {
        Ok(f) => receiver.accept(&f),
        Err(_) => None,
    }
}

} // verus!
