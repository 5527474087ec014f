//! Splitting transfers into frames, and the transmitter that queues them

use crate::crc::{crc16, crc_le_bytes, crc_of};
use crate::frame::{copy_range, tail_byte, CanId, CanFrame, TailByte};
use crate::queue::{lemma_upper_bound_splits, upper_bound, FrameQueue, OutOfMemoryError};
use crate::time::Microseconds48;
use vstd::prelude::*;

verus! {

/// Whether a link can carry frames of this many data bytes
pub open spec fn valid_mtu(mtu: nat) -> bool {
    mtu == 8 || mtu == 12 || mtu == 16 || mtu == 20 || mtu == 24 || mtu == 32 || mtu == 48
        || mtu == 64
}

/// The bytes that the frames of a multi-frame transfer carry, before tail bytes: the payload
/// followed by its CRC, least significant byte first
pub open spec fn framed_bytes(payload: Seq<u8>) -> Seq<u8> {
    payload + crc_le_bytes(crc_of(payload))
}

/// The number of frames that carry `len` bytes, `cap` in each frame
pub open spec fn frame_count(len: nat, cap: nat) -> nat {
    if cap == 0 {
        0
    } else {
        ((len + cap - 1) / cap as int) as nat
    }
}

/// The data of frame `k` of a multi-frame transfer
pub open spec fn multi_frame_data(full: Seq<u8>, cap: nat, k: int, tid: u8) -> Seq<u8> {
    let start = k * cap;
    let end = if start + cap < full.len() {
        start + cap
    } else {
        full.len() as int
    };
    full.subrange(start, end).push(
        tail_byte(k == 0, start + cap >= full.len(), k % 2 == 0, tid),
    )
}

/// The data of each frame of a transfer of `payload` with transfer id `tid`, over a link
/// whose frames hold `mtu` bytes
///
/// A payload that fits in one frame beside the tail byte goes alone; a longer one is followed
/// by its CRC and cut into frames of `mtu - 1` bytes, the last of which may be shorter.
pub open spec fn transfer_frames(payload: Seq<u8>, mtu: nat, tid: u8) -> Seq<Seq<u8>> {
    let cap = (mtu - 1) as nat;
    if payload.len() <= cap {
        seq![payload.push(tail_byte(true, true, true, tid))]
    } else {
        let full = framed_bytes(payload);
        Seq::new(frame_count(full.len(), cap), |k: int| multi_frame_data(full, cap, k, tid))
    }
}

/// The frames of a transfer, all with one identifier and one deadline
pub open spec fn frames_match(
    frames: Seq<CanFrame>,
    datas: Seq<Seq<u8>>,
    id: CanId,
    deadline: Microseconds48,
) -> bool {
    &&& frames.len() == datas.len()
    &&& forall|k: int|
        0 <= k < frames.len() ==> (#[trigger] frames[k]).data@ == datas[k] && frames[k].id == id
            && frames[k].timestamp == deadline
}

/// The queue after pushing `frames` one after another
pub open spec fn push_all(q: Seq<CanFrame>, frames: Seq<CanFrame>) -> Seq<CanFrame>
    decreases frames.len(),
{
    if frames.len() == 0 {
        q
    } else {
        let before = push_all(q, frames.drop_last());
        before.insert(upper_bound(before, frames.last().id@) as int, frames.last())
    }
}

/// The frame count of `len` bytes, `cap` to a frame, is the one `n` with
/// `(n - 1) * cap < len <= n * cap`; frame `k` starts inside the bytes, and only the last frame
/// reaches their end.
pub proof fn lemma_frame_count(len: nat, cap: nat, k: int)
    requires
        cap > 0,
        len > 0,
    ensures
        frame_count(len, cap) >= 1,
        (frame_count(len, cap) - 1) * cap < len <= frame_count(len, cap) * cap,
        0 <= k < frame_count(len, cap) ==> k * cap < len && ((k * cap + cap >= len) <==> k
            == frame_count(len, cap) - 1),
        (k >= 1 && (k - 1) * cap < len <= k * cap) ==> frame_count(len, cap) == k,
{
    let n = frame_count(len, cap) as int;
    assert(n == (len + cap - 1) / cap as int);
    assert((n - 1) * cap < len && len <= n * cap) by (nonlinear_arith)
        requires
            cap > 0,
            n == (len + cap - 1) / cap as int,
    ;
    assert(n >= 1) by (nonlinear_arith)
        requires len > 0, len <= n * cap, cap > 0;
    if 0 <= k < n {
        assert(k * cap < len) by (nonlinear_arith)
            requires k <= n - 1, (n - 1) * cap < len, cap > 0, k >= 0;
        if k < n - 1 {
            assert(k * cap + cap < len) by (nonlinear_arith)
                requires k + 1 <= n - 1, (n - 1) * cap < len, cap > 0, k >= 0;
        } else {
            assert(k * cap + cap >= len) by (nonlinear_arith)
                requires k == n - 1, len <= n * cap;
        }
    }
    if k >= 1 && (k - 1) * cap < len <= k * cap {
        assert(n == k) by (nonlinear_arith)
            requires
                cap > 0,
                (k - 1) * cap < len <= k * cap,
                (n - 1) * cap < len <= n * cap,
        ;
    }
}

/// Splits a transfer into frames
pub fn split_transfer(
    payload: &[u8],
    mtu: usize,
    id: CanId,
    transfer_id: u8,
    deadline: Microseconds48,
) -> (r: Vec<CanFrame>)
    requires
        valid_mtu(mtu as nat),
        transfer_id < 32,
        payload@.len() + 128 < usize::MAX,
    ensures
        frames_match(r@, transfer_frames(payload@, mtu as nat, transfer_id), id, deadline),
        r@.len() >= 1,
{
    let cap: usize = mtu - 1;
    let mut frames: Vec<CanFrame> = Vec::new();
    if payload.len() <= cap {
        let mut data = copy_range(payload, 0, payload.len());
        let tail = TailByte { start: true, end: true, toggle: true, transfer_id };
        data.push(tail.encode());
        frames.push(CanFrame { timestamp: deadline, id, data });
        proof {
            assert(frames@[0].data@ =~= payload@.push(tail_byte(true, true, true, transfer_id)));
            assert(frames_match(frames@, transfer_frames(payload@, mtu as nat, transfer_id), id, deadline));
        }
        return frames;
    }
    let crc = crc16(payload);
    let mut full = copy_range(payload, 0, payload.len());
    full.push((crc & 0xff) as u8);
    full.push((crc >> 8u16) as u8);
    assert(full@ =~= framed_bytes(payload@));
    let len = full.len();
    let ghost datas = transfer_frames(payload@, mtu as nat, transfer_id);
    let mut k: usize = 0;
    let mut start: usize = 0;
    while start < len
        invariant
            cap == mtu - 1,
            cap >= 7,
            cap <= 63,
            len == full@.len(),
            len == payload@.len() + 2,
            len > cap,
            full@ == framed_bytes(payload@),
            start == k * cap,
            k <= start,
            transfer_id < 32,
            len + 64 < usize::MAX,
            start <= len + cap,
            k == 0 || (k - 1) * cap < len,
            frames@.len() == k,
            forall|j: int|
                0 <= j < k ==> (#[trigger] frames@[j]).data@ == multi_frame_data(
                    full@,
                    cap as nat,
                    j,
                    transfer_id,
                ) && frames@[j].id == id && frames@[j].timestamp == deadline,
        decreases len + cap - start,
    {
        let end: usize = if start + cap < len {
            start + cap
        } else {
            len
        };
        let mut data = copy_range(&full, start, end);
        let tail = TailByte {
            start: k == 0,
            end: start + cap >= len,
            toggle: k % 2 == 0,
            transfer_id,
        };
        data.push(tail.encode());
        frames.push(CanFrame { timestamp: deadline, id, data });
        proof {
            assert(start + cap == (k + 1) * cap) by (nonlinear_arith)
                requires start == k * cap;
            assert(k + 1 <= start + cap) by (nonlinear_arith)
                requires start == k * cap, cap >= 7, k <= start;
        }
        k = k + 1;
        start = start + cap;
    }
    proof {
        lemma_frame_count(len as nat, cap as nat, k as int);
        assert(datas.len() == k);
        assert forall|j: int| 0 <= j < frames@.len() implies (#[trigger] frames@[j]).data@
            == datas[j] && frames@[j].id == id && frames@[j].timestamp == deadline by {
        }
    }
    frames
}

/// Queues the frames of outgoing transfers
pub struct Transmitter {
    queue: FrameQueue,
    mtu: usize,
}

impl Transmitter {
    /// The queue of frames waiting to be sent
    pub closed spec fn queue_spec(&self) -> FrameQueue {
        self.queue
    }

    /// The number of data bytes in each frame of the link
    pub closed spec fn mtu_spec(&self) -> nat {
        self.mtu as nat
    }

    /// The queue is in order and the MTU is one a link can have
    pub open spec fn wf(&self) -> bool {
        self.queue_spec().wf() && valid_mtu(self.mtu_spec())
    }

    /// Creates a transmitter for a link with the given MTU and room for `queue_capacity`
    /// frames
    pub fn new(mtu: usize, queue_capacity: usize) -> (r: Transmitter)
        requires
            valid_mtu(mtu as nat),
        ensures
            r.wf(),
            r.mtu_spec() == mtu,
            r.queue_spec()@ == Seq::<CanFrame>::empty(),
            r.queue_spec().capacity_spec() == queue_capacity,
    {
        Transmitter { queue: FrameQueue::new(queue_capacity), mtu }
    }

    /// The number of data bytes in each frame of the link
    pub fn mtu(&self) -> (r: usize)
        ensures
            r == self.mtu_spec(),
    {
        self.mtu
    }

    /// The queue of frames waiting to be sent
    pub fn frame_queue(&self) -> (r: &FrameQueue)
        ensures
            *r == self.queue_spec(),
    {
        &self.queue
    }

    /// The queue of frames waiting to be sent, for a link driver to take frames from
    pub fn frame_queue_mut(&mut self) -> (r: &mut FrameQueue)
        ensures
            *r == old(self).queue_spec(),
            *final(r) == final(self).queue_spec(),
            final(self).mtu_spec() == old(self).mtu_spec(),
    {
        &mut self.queue
    }

    /// Splits a transfer into frames and queues them all, or none if the queue has no room
    /// for all of them
    pub fn push(
        &mut self,
        deadline: Microseconds48,
        id: CanId,
        transfer_id: u8,
        payload: &[u8],
    ) -> (r: Result<(), OutOfMemoryError>)
        requires
            old(self).wf(),
            transfer_id < 32,
            payload@.len() + 128 < usize::MAX,
        ensures
            final(self).wf(),
            final(self).mtu_spec() == old(self).mtu_spec(),
            final(self).queue_spec().capacity_spec() == old(self).queue_spec().capacity_spec(),
            ({
                let datas = transfer_frames(payload@, old(self).mtu_spec(), transfer_id);
                let q = old(self).queue_spec();
                &&& r is Ok <==> q@.len() + datas.len() <= q.capacity_spec()
                &&& r is Err ==> final(self).queue_spec()@ == q@
                &&& r is Ok ==> exists|frames: Seq<CanFrame>|
                    frames_match(frames, datas, id, deadline) && final(self).queue_spec()@
                        == push_all(q@, frames)
            }),
    {
        let mut frames = split_transfer(payload, self.mtu, id, transfer_id, deadline);
        let n = frames.len();
        if n > self.queue.free_space() {
            return Err(OutOfMemoryError);
        }
        let ghost q0 = self.queue@;
        let ghost all = frames@;
        let mut i: usize = 0;
        while i < n
            invariant
                n == all.len(),
                i <= n,
                frames@ == all.skip(i as int),
                q0.len() + n <= self.queue.capacity_spec(),
                self.queue.wf(),
                valid_mtu(self.mtu as nat),
                self.mtu == old(self).mtu,
                self.queue.capacity_spec() == old(self).queue.capacity_spec(),
                self.queue@ == push_all(q0, all.take(i as int)),
                self.queue@.len() == q0.len() + i,
            decreases n - i,
        {
            assert(all.take(i + 1).drop_last() =~= all.take(i as int));
            assert(all.skip(i as int)[0] == all[i as int]);
            let f = frames.remove(0);
            assert(frames@ =~= all.skip(i + 1));
            assert(all.take(i + 1).last() == f);
            proof {
                lemma_upper_bound_splits(self.queue@, f.id@);
            }
            let _ = self.queue.push(f);
            i = i + 1;
        }
        assert(all.take(i as int) =~= all);
        Ok(())
    }
}

/// What pushing one transfer did to a transmitter: the transfer's frames, with identifier
/// `id`, the given transfer id and deadline, were all queued if there was room for them, and
/// the queue was left as it was otherwise
pub open spec fn sent(
    before: Transmitter,
    after: Transmitter,
    r: Result<(), OutOfMemoryError>,
    id: u32,
    transfer_id: u8,
    payload: Seq<u8>,
    deadline: int,
) -> bool {
    let datas = transfer_frames(payload, before.mtu_spec(), transfer_id);
    let q = before.queue_spec();
    &&& after.wf()
    &&& after.mtu_spec() == before.mtu_spec()
    &&& after.queue_spec().capacity_spec() == q.capacity_spec()
    &&& r is Ok <==> q@.len() + datas.len() <= q.capacity_spec()
    &&& r is Err ==> after.queue_spec()@ == q@
    &&& r is Ok ==> exists|frames: Seq<CanFrame>, cid: CanId, d: Microseconds48|
        cid@ == id && d.0@ == deadline && #[trigger] frames_match(frames, datas, cid, d)
            && after.queue_spec()@ == push_all(q@, frames)
}

/// Queues a transfer with the given identifier and transfer id
pub fn send_transfer(
    deadline: Microseconds48,
    id: CanId,
    transfer_id: u8,
    payload: &[u8],
    transmitter: &mut Transmitter,
) -> (r: Result<(), OutOfMemoryError>)
    requires
        old(transmitter).wf(),
        transfer_id < 32,
        payload@.len() + 128 < usize::MAX,
    ensures
        sent(*old(transmitter), *final(transmitter), r, id@, transfer_id, payload@, deadline.0@),
{
    let r = transmitter.push(deadline, id, transfer_id, payload);
    proof {
        if r is Ok {
            let datas = transfer_frames(payload@, old(transmitter).mtu_spec(), transfer_id);
            let frames = choose|frames: Seq<CanFrame>|
                frames_match(frames, datas, id, deadline) && transmitter.queue_spec()@
                    == push_all(old(transmitter).queue_spec()@, frames);
            assert(frames_match(frames, datas, id, deadline));
        }
    }
    r
}

} // verus!
