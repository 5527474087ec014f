//! Reassembly of incoming frames into transfers

use crate::crc::{crc16, crc_le_bytes, crc_of};
use crate::frame::{copy_range, tail_fields, CanFrame, TailByte};
use crate::tx::frame_count;
use crate::time::{u48_modulus, wrapping_order, Microseconds48, MicrosecondsDuration48};
use vstd::prelude::*;

verus! {

/// A transfer in the middle of reassembly
pub struct Session {
    /// The transfer id that every frame of the transfer carries
    pub transfer_id: u8,
    /// The toggle bit that the next frame must carry
    pub toggle: bool,
    /// The data of the frames so far, without tail bytes
    pub buffer: Vec<u8>,
    /// When the first frame arrived
    pub start: Microseconds48,
}

/// What a session holds, as values
pub struct SessionModel {
    pub transfer_id: u8,
    pub toggle: bool,
    pub buffer: Seq<u8>,
    pub start: Microseconds48,
}

impl View for Session {
    type V = SessionModel;

    open spec fn view(&self) -> SessionModel {
        SessionModel {
            transfer_id: self.transfer_id,
            toggle: self.toggle,
            buffer: self.buffer@,
            start: self.start,
        }
    }
}

/// The reassembly state for one source node
pub struct Slot {
    /// The transfer being reassembled, if any
    pub session: Option<Session>,
    /// The id of the last transfer delivered from this source, and when it was delivered
    pub last: Option<(u8, Microseconds48)>,
}

/// What a slot holds, as values
pub struct SlotModel {
    pub session: Option<SessionModel>,
    pub last: Option<(u8, Microseconds48)>,
}

impl View for Slot {
    type V = SlotModel;

    open spec fn view(&self) -> SlotModel {
        SlotModel {
            session: match self.session {
                Some(s) => Some(s@),
                None => None,
            },
            last: self.last,
        }
    }
}

/// A transfer delivered by reassembly: its payload, the arrival time of its first frame, and
/// its transfer id
pub struct Delivery {
    pub payload: Vec<u8>,
    pub timestamp: Microseconds48,
    pub transfer_id: u8,
}

/// What a delivered transfer holds, as values
pub struct DeliveryModel {
    pub payload: Seq<u8>,
    pub timestamp: Microseconds48,
    pub transfer_id: u8,
}

impl View for Delivery {
    type V = DeliveryModel;

    open spec fn view(&self) -> DeliveryModel {
        DeliveryModel {
            payload: self.payload@,
            timestamp: self.timestamp,
            transfer_id: self.transfer_id,
        }
    }
}

/// Whether `now` lies strictly after `start` plus `timeout`
pub open spec fn deadline_passed(start: Microseconds48, timeout: MicrosecondsDuration48, now:
    Microseconds48) -> bool {
    wrapping_order(now.0@, (start.0@ + timeout.0@) % u48_modulus()) == std::cmp::Ordering::Greater
}

/// Whether a start frame repeats the transfer last delivered from its source, within the
/// timeout after that delivery
pub open spec fn is_duplicate(
    last: Option<(u8, Microseconds48)>,
    transfer_id: u8,
    timeout: MicrosecondsDuration48,
    now: Microseconds48,
) -> bool {
    match last {
        Some((tid, at)) => tid == transfer_id && !deadline_passed(at, timeout, now),
        None => false,
    }
}

/// Whether a buffer ends with the CRC of the bytes before it, least significant byte first
pub open spec fn crc_matches(buf: Seq<u8>) -> bool {
    buf.len() >= 2 && buf.subrange(buf.len() - 2, buf.len() as int) == crc_le_bytes(
        crc_of(buf.subrange(0, buf.len() - 2)),
    )
}

/// The state of a source after the frame with data `data` arrives from it at `now`, and the
/// transfer that the frame completes, if any
///
/// A transfer may hold up to `max_payload` bytes; the session buffer may hold two more, for
/// the CRC.
pub open spec fn slot_step(
    slot: SlotModel,
    data: Seq<u8>,
    now: Microseconds48,
    timeout: MicrosecondsDuration48,
    max_payload: nat,
) -> (SlotModel, Option<DeliveryModel>) {
    if data.len() == 0 {
        (slot, None)
    } else {
        let t = tail_fields(data.last());
        let p = data.drop_last();
        let tid = t.transfer_id;
        if t.start {
            if is_duplicate(slot.last, tid, timeout, now) {
                (slot, None)
            } else if t.end {
                if p.len() <= max_payload {
                    (
                        SlotModel { session: None, last: Some((tid, now)) },
                        Some(DeliveryModel { payload: p, timestamp: now, transfer_id: tid }),
                    )
                } else {
                    (SlotModel { session: None, last: slot.last }, None)
                }
            } else if p.len() <= max_payload + 2 {
                (
                    SlotModel {
                        session: Some(
                            SessionModel { transfer_id: tid, toggle: false, buffer: p, start: now },
                        ),
                        last: slot.last,
                    },
                    None,
                )
            } else {
                (SlotModel { session: None, last: slot.last }, None)
            }
        } else {
            match slot.session {
                None => (slot, None),
                Some(s) => {
                    let buf = s.buffer + p;
                    if tid != s.transfer_id || t.toggle != s.toggle || buf.len() > max_payload
                        + 2 {
                        (SlotModel { session: None, last: slot.last }, None)
                    } else if !t.end {
                        (
                            SlotModel {
                                session: Some(
                                    SessionModel {
                                        transfer_id: s.transfer_id,
                                        toggle: !s.toggle,
                                        buffer: buf,
                                        start: s.start,
                                    },
                                ),
                                last: slot.last,
                            },
                            None,
                        )
                    } else if crc_matches(buf) {
                        (
                            SlotModel { session: None, last: Some((tid, now)) },
                            Some(
                                DeliveryModel {
                                    payload: buf.subrange(0, buf.len() - 2),
                                    timestamp: s.start,
                                    transfer_id: tid,
                                },
                            ),
                        )
                    } else {
                        (SlotModel { session: None, last: slot.last }, None)
                    }
                },
            }
        }
    }
}

/// The state of a source once its session is dropped if its deadline has passed
pub open spec fn slot_evict(slot: SlotModel, now: Microseconds48, timeout: MicrosecondsDuration48) -> SlotModel {
    match slot.session {
        Some(s) => if deadline_passed(s.start, timeout, now) {
            SlotModel { session: None, last: slot.last }
        } else {
            slot
        },
        None => slot,
    }
}

fn deadline_passed_exec(start: Microseconds48, timeout: MicrosecondsDuration48, now:
    Microseconds48) -> (r: bool)
    ensures
        r == deadline_passed(start, timeout, now),
{
    let deadline = start.add_duration(timeout);
    match now.overflow_safe_compare(&deadline) {
        std::cmp::Ordering::Greater => true,
        _ => false,
    }
}

impl Slot {
    /// A source with no session and no delivered transfer
    pub fn new() -> (r: Slot)
        ensures
            r@ == (SlotModel { session: None, last: None }),
    {
        Slot { session: None, last: None }
    }

    /// Drops the session if its deadline has passed
    pub fn evict(&mut self, now: Microseconds48, timeout: MicrosecondsDuration48)
        ensures
            final(self)@ == slot_evict(old(self)@, now, timeout),
    {
        let expired = match &self.session {
            Some(s) => deadline_passed_exec(s.start, timeout, now),
            None => false,
        };
        if expired {
            self.session = None;
        }
    }

    /// Runs the reassembly state machine on the data of one frame
    pub fn accept(
        &mut self,
        data: &[u8],
        now: Microseconds48,
        timeout: MicrosecondsDuration48,
        max_payload: usize,
    ) -> (r: Option<Delivery>)
        requires
            max_payload + 2 <= usize::MAX,
        ensures
            ({
                let (next, delivered) = slot_step(old(self)@, data@, now, timeout, max_payload as nat);
                &&& final(self)@ == next
                &&& delivered is Some <==> r is Some
                &&& r is Some ==> r->Some_0@ == delivered->Some_0
            }),
    {
        if data.len() == 0 {
            return None;
        }
        let t = TailByte::decode(data[data.len() - 1]);
        let plen = data.len() - 1;
        let tid = t.transfer_id;
        proof {
            assert(data@.drop_last() =~= data@.subrange(0, plen as int));
        }
        if t.start {
            let dup = match self.last {
                Some((ltid, at)) => ltid == tid && !deadline_passed_exec(at, timeout, now),
                None => false,
            };
            if dup {
                return None;
            }
            if t.end {
                self.session = None;
                if plen <= max_payload {
                    self.last = Some((tid, now));
                    let payload = copy_range(data, 0, plen);
                    return Some(Delivery { payload, timestamp: now, transfer_id: tid });
                } else {
                    return None;
                }
            } else if plen <= max_payload + 2 {
                let buffer = copy_range(data, 0, plen);
                self.session = Some(Session { transfer_id: tid, toggle: false, buffer, start: now });
                return None;
            } else {
                self.session = None;
                return None;
            }
        }
        let mut current: Option<Session> = None;
        std::mem::swap(&mut current, &mut self.session);
        match current {
            None => None,
            Some(mut s) => {
                if tid != s.transfer_id || t.toggle != s.toggle || s.buffer.len() > max_payload + 2
                    || plen > max_payload + 2 - s.buffer.len() {
                    return None;
                }
                let mut more = copy_range(data, 0, plen);
                s.buffer.append(&mut more);
                if !t.end {
                    s.toggle = !s.toggle;
                    self.session = Some(s);
                    return None;
                }
                let blen = s.buffer.len();
                if blen < 2 {
                    return None;
                }
                let crc = crc16(copy_range(&s.buffer, 0, blen - 2).as_slice());
                let lo = s.buffer[blen - 2];
                let hi = s.buffer[blen - 1];
                proof {
                    let buf = s.buffer@;
                    assert(crc_le_bytes(crc)[0] == (crc & 0xff) as u8);
                    assert(crc_le_bytes(crc)[1] == (crc >> 8u16) as u8);
                    assert(buf.subrange(blen - 2, blen as int) =~= seq![lo, hi]);
                }
                if lo == (crc & 0xff) as u8 && hi == (crc >> 8u16) as u8 {
                    self.last = Some((tid, now));
                    let payload = copy_range(&s.buffer, 0, blen - 2);
                    Some(Delivery { payload, timestamp: s.start, transfer_id: tid })
                } else {
                    None
                }
            },
        }
    }
}


/// The kind of a port: a message subject, or the requests or responses of a service
#[derive(Copy, Clone, Debug, PartialEq, Eq, Structural)]
pub enum PortKind {
    Message,
    Request,
    Response,
}

/// A port: a message subject, or the requests or responses of a service
#[derive(Copy, Clone, Debug, PartialEq, Eq, Structural)]
pub struct Port {
    pub kind: PortKind,
    /// The subject id (13 bits) or the service id (9 bits)
    pub id: u16,
}

/// Whether the id of a port fits its field
pub open spec fn port_valid(p: Port) -> bool {
    if p.kind == PortKind::Message {
        p.id < 8192
    } else {
        p.id < 512
    }
}

/// The port that a frame identifier belongs to
pub open spec fn frame_port(bits: u32) -> Port {
    if !crate::frame::id_is_service(bits) {
        Port { kind: PortKind::Message, id: crate::frame::id_subject(bits) }
    } else if crate::frame::id_flag24(bits) {
        Port { kind: PortKind::Request, id: crate::frame::id_service(bits) }
    } else {
        Port { kind: PortKind::Response, id: crate::frame::id_service(bits) }
    }
}

/// Whether a frame identifier belongs to a message from an anonymous node
pub open spec fn id_anonymous(bits: u32) -> bool {
    !crate::frame::id_is_service(bits) && crate::frame::id_flag24(bits)
}

/// The port that a frame identifier belongs to
pub fn port_of(id: &crate::frame::CanId) -> (r: Port)
    ensures
        r == frame_port(id@),
{
    if !id.is_service() {
        Port { kind: PortKind::Message, id: id.subject() }
    } else if id.flag24() {
        Port { kind: PortKind::Request, id: id.service_id() }
    } else {
        Port { kind: PortKind::Response, id: id.service_id() }
    }
}

/// A transfer received in full
pub struct Transfer {
    /// The arrival time of the first frame
    pub timestamp: Microseconds48,
    pub transfer_id: u8,
    pub priority: u8,
    /// The subject, or the service and whether this is a request or a response
    pub port: Port,
    /// The sending node, or `None` for an anonymous message
    pub source: Option<u8>,
    pub payload: Vec<u8>,
}

/// The models of a run of slots
pub open spec fn slot_models(slots: Seq<Slot>) -> Seq<SlotModel> {
    slots.map_values(|s: Slot| s@)
}

/// The slots once every session whose deadline has passed is dropped
pub open spec fn evict_all(slots: Seq<SlotModel>, now: Microseconds48, timeout:
    MicrosecondsDuration48) -> Seq<SlotModel> {
    slots.map_values(|s: SlotModel| slot_evict(s, now, timeout))
}

/// What accepting `frame` did to a subscription and what it returned: sessions whose
/// deadlines passed are dropped, an anonymous message is delivered when it fits in one frame,
/// and any other frame runs the reassembly state machine of its source
pub open spec fn accepted(before: Subscription, after: Subscription, frame: CanFrame, r: Option<Transfer>) -> bool {
    &&& after.wf()
    &&& after.port_spec() == before.port_spec()
    &&& after.max_payload_spec() == before.max_payload_spec()
    &&& after.timeout_spec() == before.timeout_spec()
    &&& ({
        let evicted = evict_all(before.slots_spec(), frame.timestamp, before.timeout_spec());
        let anonymous = id_anonymous(frame.id@);
        let src = crate::frame::id_source(frame.id@) as int;
        let data = frame.data@;
        if anonymous {
            &&& after.slots_spec() == evicted
            &&& (r is Some <==> data.len() > 0 && tail_fields(data.last()).start
                && tail_fields(data.last()).end && data.len() - 1
                <= before.max_payload_spec())
            &&& r is Some ==> r->Some_0.payload@ == data.drop_last()
                && r->Some_0.source is None
                && r->Some_0.timestamp == frame.timestamp
                && r->Some_0.transfer_id == tail_fields(data.last()).transfer_id
        } else {
            let (next, delivered) = slot_step(
                evicted[src],
                data,
                frame.timestamp,
                before.timeout_spec(),
                before.max_payload_spec(),
            );
            &&& after.slots_spec() == evicted.update(src, next)
            &&& (r is Some <==> delivered is Some)
            &&& r is Some ==> r->Some_0.payload@ == delivered->Some_0.payload
                && r->Some_0.source == Some(src as u8)
                && r->Some_0.timestamp == delivered->Some_0.timestamp
                && r->Some_0.transfer_id == delivered->Some_0.transfer_id
        }
    })
    &&& r is Some ==> r->Some_0.port == before.port_spec()
        && r->Some_0.priority == crate::frame::id_priority(frame.id@)
}

/// A subscription to the transfers of one port
pub struct Subscription {
    port: Port,
    max_payload: usize,
    timeout: MicrosecondsDuration48,
    /// One slot for each node id
    slots: Vec<Slot>,
}

impl Subscription {
    /// The subscribed port
    pub closed spec fn port_spec(&self) -> Port {
        self.port
    }

    /// The largest payload that a transfer may carry
    pub closed spec fn max_payload_spec(&self) -> nat {
        self.max_payload as nat
    }

    /// How long a transfer may take to arrive, and how long a delivered transfer id is
    /// remembered
    pub closed spec fn timeout_spec(&self) -> MicrosecondsDuration48 {
        self.timeout
    }

    /// The reassembly state of each node id
    pub closed spec fn slots_spec(&self) -> Seq<SlotModel> {
        slot_models(self.slots@)
    }

    /// There is a slot for each of the 128 node ids, and the port id fits its field
    pub open spec fn wf(&self) -> bool {
        &&& port_valid(self.port_spec())
        &&& self.slots_spec().len() == 128
        &&& self.max_payload_spec() + 2 <= usize::MAX
    }

    /// Creates a subscription with no transfer in progress
    pub fn new(port: Port, max_payload: usize, timeout: MicrosecondsDuration48) -> (r:
        Subscription)
        requires
            port_valid(port),
            max_payload + 2 <= usize::MAX,
        ensures
            r.wf(),
            r.port_spec() == port,
            r.max_payload_spec() == max_payload,
            r.timeout_spec() == timeout,
            forall|i: int|
                0 <= i < 128 ==> #[trigger] r.slots_spec()[i] == (SlotModel {
                    session: None,
                    last: None,
                }),
    {
        let mut slots: Vec<Slot> = Vec::new();
        let mut i: usize = 0;
        while i < 128
            invariant
                i <= 128,
                slots@.len() == i,
                forall|j: int|
                    0 <= j < i ==> (#[trigger] slots@[j])@ == (SlotModel {
                        session: None,
                        last: None,
                    }),
            decreases 128 - i,
        {
            slots.push(Slot::new());
            i = i + 1;
        }
        Subscription { port, max_payload, timeout, slots }
    }

    /// The subscribed port
    pub fn port(&self) -> (r: Port)
        ensures
            r == self.port_spec(),
    {
        self.port
    }

    /// Drops every session whose deadline has passed
    fn evict_expired(&mut self, now: Microseconds48)
        requires
            old(self).wf(),
        ensures
            final(self).wf(),
            final(self).port_spec() == old(self).port_spec(),
            final(self).max_payload_spec() == old(self).max_payload_spec(),
            final(self).timeout_spec() == old(self).timeout_spec(),
            final(self).slots_spec() == evict_all(old(self).slots_spec(), now, old(self).timeout_spec()),
    {
        let ghost before = self.slots_spec();
        let mut i: usize = 0;
        while i < self.slots.len()
            invariant
                i <= 128,
                self.slots@.len() == 128,
                self.wf(),
                self.port == old(self).port,
                self.max_payload == old(self).max_payload,
                self.timeout == old(self).timeout,
                before.len() == 128,
                forall|j: int|
                    0 <= j < 128 ==> #[trigger] self.slots_spec()[j] == if j < i {
                        slot_evict(before[j], now, self.timeout)
                    } else {
                        before[j]
                    },
            decreases 128 - i,
        {
            let ghost prev = self.slots@;
            let mut slot = Slot::new();
            self.slots.set_and_swap(i, &mut slot);
            assert(slot == prev[i as int]);
            assert(slot_models(prev)[i as int] == prev[i as int]@);
            slot.evict(now, self.timeout);
            self.slots.set(i, slot);
            assert(self.slots@ == prev.update(i as int, slot));
            assert forall|j: int| 0 <= j < 128 implies #[trigger] self.slots_spec()[j] == if j < i + 1 {
                slot_evict(before[j], now, self.timeout)
            } else {
                before[j]
            } by {
                assert(self.slots_spec()[j] == self.slots@[j]@);
                assert(slot_models(prev)[j] == prev[j]@);
            }
            i = i + 1;
        }
        assert(self.slots_spec() =~= evict_all(before, now, self.timeout));
    }

    /// Accepts a frame of this port, and returns the transfer that it completes, if any
    ///
    /// Sessions whose deadlines have passed are dropped first. An anonymous message is
    /// delivered only when it fits in one frame.
    pub fn accept(&mut self, frame: &CanFrame) -> (r: Option<Transfer>)
        requires
            old(self).wf(),
            frame_port(frame.id@) == old(self).port_spec(),
        ensures
            accepted(*old(self), *final(self), *frame, r),
    {
        let now = frame.timestamp;
        self.evict_expired(now);
        let priority = frame.id.priority();
        let data = frame.data.as_slice();
        if !frame.id.is_service() && frame.id.flag24() {
            if data.len() == 0 {
                return None;
            }
            let t = TailByte::decode(data[data.len() - 1]);
            let plen = data.len() - 1;
            if t.start && t.end && plen <= self.max_payload {
                let payload = copy_range(data, 0, plen);
                assert(payload@ =~= data@.drop_last());
                return Some(Transfer {
                    timestamp: now,
                    transfer_id: t.transfer_id,
                    priority,
                    port: self.port,
                    source: None,
                    payload,
                });
            }
            return None;
        }
        let src = frame.id.source();
        proof {
            let b = frame.id@;
            assert(((b & 0x7f) as u8) < 128) by (bit_vector);
        }
        let ghost evicted = self.slots_spec();
        let ghost prev = self.slots@;
        let mut slot = Slot::new();
        self.slots.set_and_swap(src as usize, &mut slot);
        assert(slot@ == evicted[src as int]);
        let delivered = slot.accept(data, now, self.timeout, self.max_payload);
        self.slots.set(src as usize, slot);
        assert(self.slots@ == prev.update(src as int, slot));
        assert(self.slots_spec() =~= evicted.update(src as int, slot@));
        match delivered {
            Some(d) => Some(Transfer {
                timestamp: d.timestamp,
                transfer_id: d.transfer_id,
                priority,
                port: self.port,
                source: Some(src),
                payload: d.payload,
            }),
            None => None,
        }
    }
}


/// The state of a source after frames with the given data arrive from it, one after another,
/// frame `k` at `times[k]`, and what the last of them delivered
pub open spec fn feed(
    slot: SlotModel,
    frames: Seq<Seq<u8>>,
    times: Seq<Microseconds48>,
    timeout: MicrosecondsDuration48,
    max_payload: nat,
) -> (SlotModel, Option<DeliveryModel>)
    decreases frames.len(),
{
    if frames.len() == 0 {
        (slot, None)
    } else {
        let (before, _) = feed(slot, frames.drop_last(), times, timeout, max_payload);
        slot_step(before, frames.last(), times[frames.len() - 1], timeout, max_payload)
    }
}

/// Once a session's deadline has passed, a frame that does not start a transfer delivers
/// nothing and leaves the source without a session, so every later frame of that transfer is
/// dropped too, until a new start frame.
pub proof fn lemma_expired_session_drops_frames(
    slot: SlotModel,
    data: Seq<u8>,
    now: Microseconds48,
    timeout: MicrosecondsDuration48,
    max_payload: nat,
)
    requires
        slot.session is Some,
        deadline_passed(slot.session->Some_0.start, timeout, now),
        data.len() == 0 || !tail_fields(data.last()).start,
    ensures
        slot_evict(slot, now, timeout).session is None,
        slot_step(slot_evict(slot, now, timeout), data, now, timeout, max_payload).1 is None,
        slot_step(slot_evict(slot, now, timeout), data, now, timeout, max_payload).0
            == slot_evict(slot, now, timeout),
{
}

/// Reassembling the frames of a transfer of `payload` with transfer id `tid`, over a link with
/// any MTU, delivers exactly that payload with that transfer id, stamped with the arrival
/// time, provided the payload fits the subscription and the transfer id does not repeat the
/// last one delivered from the source within the timeout. Every frame before the last
/// delivers nothing. The identifier of a message names the source node that published it.
#[verifier::spinoff_prover]
#[verifier::rlimit(40)]
pub proof fn lemma_transfer_round_trip(
    payload: Seq<u8>,
    mtu: nat,
    tid: u8,
    priority: u8,
    subject: u16,
    source: u8,
    slot: SlotModel,
    times: Seq<Microseconds48>,
    timeout: MicrosecondsDuration48,
    max_payload: nat,
)
    requires
        crate::tx::valid_mtu(mtu),
        tid < 32,
        priority < 8,
        subject < 8192,
        source < 128,
        payload.len() <= max_payload,
        !is_duplicate(slot.last, tid, timeout, times[0]),
        times.len() >= crate::tx::transfer_frames(payload, mtu, tid).len(),
    ensures
        ({
            let frames = crate::tx::transfer_frames(payload, mtu, tid);
            &&& feed(slot, frames, times, timeout, max_payload) == (
                SlotModel { session: None, last: Some((tid, times[frames.len() - 1])) },
                Some(DeliveryModel { payload, timestamp: times[0], transfer_id: tid }),
            )
            &&& forall|k: int|
                0 <= k < frames.len() - 1 ==> (#[trigger] feed(
                    slot,
                    frames.take(k + 1),
                    times,
                    timeout,
                    max_payload,
                )).1 is None
        }),
        crate::frame::id_source(crate::frame::message_id_bits(priority, subject, source, false))
            == source,
        crate::frame::id_subject(crate::frame::message_id_bits(priority, subject, source, false))
            == subject,
{
    crate::frame::lemma_message_id_fields(priority, subject, source, false);
    let frames = crate::tx::transfer_frames(payload, mtu, tid);
    let cap = (mtu - 1) as nat;
    if payload.len() <= cap {
        crate::frame::lemma_tail_round_trip(true, true, true, tid);
        let d = payload.push(crate::frame::tail_byte(true, true, true, tid));
        assert(frames.drop_last() =~= Seq::<Seq<u8>>::empty());
        assert(d.drop_last() =~= payload);
        assert(frames.last() == d);
        assert(frames.len() == 1);
        assert(feed(slot, frames.drop_last(), times, timeout, max_payload) == (slot, None::<DeliveryModel>));
    } else {
        let full = crate::tx::framed_bytes(payload);
        let len = full.len();
        let n = crate::tx::frame_count(len, cap);
        assert(len == payload.len() + 2);
        assert(n >= 2) by (nonlinear_arith)
            requires
                n == (len + cap - 1) / cap as int,
                len > cap + 1,
                cap > 0,
        ;
        // After the first k frames, a session holds the first k chunks
        assert forall|k: int| 1 <= k < n implies #[trigger] feed(slot, frames.take(k), times, timeout, max_payload) == (
            SlotModel {
                session: Some(SessionModel {
                    transfer_id: tid,
                    toggle: k % 2 == 0,
                    buffer: full.subrange(0, k * cap),
                    start: times[0],
                }),
                last: slot.last,
            },
            None::<DeliveryModel>,
        ) by {
            lemma_feed_prefix(payload, mtu, tid, slot, times, timeout, max_payload, k);
        }
        let k = n - 1;
        crate::tx::lemma_frame_count(len, cap, k as int);
        let before = feed(slot, frames.take(k as int), times, timeout, max_payload);
        assert(frames.take(n as int) =~= frames);
        assert(frames.drop_last() =~= frames.take(k as int));
        let data = frames[k as int];
        let start = k * cap;
        crate::frame::lemma_tail_round_trip(false, true, k % 2 == 0, tid);
        assert(data.drop_last() =~= full.subrange(start as int, len as int));
        let buf = full.subrange(0, start as int) + full.subrange(start as int, len as int);
        assert(buf =~= full);
        assert(full.subrange(0, len - 2) =~= payload);
        assert(full.subrange(len - 2, len as int) =~= crc_le_bytes(crc_of(payload)));
        assert(crc_matches(buf));
        assert(before.0.session == Some(SessionModel {
            transfer_id: tid,
            toggle: k % 2 == 0,
            buffer: full.subrange(0, start as int),
            start: times[0],
        }));
        assert(data.last() == crate::frame::tail_byte(false, true, k % 2 == 0, tid));
        assert(feed(slot, frames, times, timeout, max_payload) == slot_step(before.0, data, times[k as int], timeout, max_payload));
        assert forall|j: int| 0 <= j < frames.len() - 1 implies (#[trigger] feed(
            slot,
            frames.take(j + 1),
            times,
            timeout,
            max_payload,
        )).1 is None by {
            assert(1 <= j + 1 < n);
        }
    }
}

#[verifier::spinoff_prover]
#[verifier::rlimit(40)]
proof fn lemma_feed_prefix(
    payload: Seq<u8>,
    mtu: nat,
    tid: u8,
    slot: SlotModel,
    times: Seq<Microseconds48>,
    timeout: MicrosecondsDuration48,
    max_payload: nat,
    k: int,
)
    requires
        crate::tx::valid_mtu(mtu),
        tid < 32,
        payload.len() <= max_payload,
        payload.len() > mtu - 1,
        !is_duplicate(slot.last, tid, timeout, times[0]),
        times.len() >= crate::tx::transfer_frames(payload, mtu, tid).len(),
        1 <= k < crate::tx::frame_count(payload.len() + 2, (mtu - 1) as nat),
    ensures
        feed(slot, crate::tx::transfer_frames(payload, mtu, tid).take(k), times, timeout, max_payload) == (
            SlotModel {
                session: Some(SessionModel {
                    transfer_id: tid,
                    toggle: k % 2 == 0,
                    buffer: crate::tx::framed_bytes(payload).subrange(0, k * (mtu - 1)),
                    start: times[0],
                }),
                last: slot.last,
            },
            None::<DeliveryModel>,
        ),
    decreases k,
{
    let frames = crate::tx::transfer_frames(payload, mtu, tid);
    let cap = (mtu - 1) as nat;
    let full = crate::tx::framed_bytes(payload);
    let len = full.len();
    let j = k - 1;
    crate::tx::lemma_frame_count(len, cap, j);
    crate::tx::lemma_frame_count(len, cap, k);
    assert(frames.take(k).drop_last() =~= frames.take(j));
    assert(frames.take(k).last() == frames[j]);
    let data = frames[j];
    let start = j * cap;
    assert(start + cap == k * cap) by (nonlinear_arith)
        requires start == j * cap, j == k - 1;
    crate::frame::lemma_tail_round_trip(j == 0, false, j % 2 == 0, tid);
    assert(start + cap < len);
    assert(data == full.subrange(start, start + cap).push(
        crate::frame::tail_byte(j == 0, false, j % 2 == 0, tid),
    ));
    assert(data.drop_last() =~= full.subrange(start, start + cap));
    assert(data.last() == crate::frame::tail_byte(j == 0, false, j % 2 == 0, tid));
    let t = tail_fields(data.last());
    assert(t.start == (j == 0) && !t.end && t.toggle == (j % 2 == 0) && t.transfer_id == tid);
    let before = feed(slot, frames.take(j), times, timeout, max_payload);
    assert(feed(slot, frames.take(k), times, timeout, max_payload) == slot_step(
        before.0,
        data,
        times[j],
        timeout,
        max_payload,
    ));
    if j == 0 {
        assert(frames.take(j).len() == 0);
        assert(before == (slot, None::<DeliveryModel>));
        assert(start == 0);
        assert(full.subrange(0, k * cap) =~= data.drop_last());
    } else {
        lemma_feed_prefix(payload, mtu, tid, slot, times, timeout, max_payload, j);
        assert(j % 2 == 0 <==> !(k % 2 == 0));
        assert(full.subrange(0, start) + full.subrange(start, start + cap) =~= full.subrange(0, k * cap));
    }
}


/// Whether `s` is a new subscription with the given settings and no reassembly state
pub open spec fn fresh_subscription(
    s: Subscription,
    port: Port,
    max_payload: nat,
    timeout: MicrosecondsDuration48,
) -> bool {
    &&& s.wf()
    &&& s.port_spec() == port
    &&& s.max_payload_spec() == max_payload
    &&& s.timeout_spec() == timeout
    &&& forall|i: int|
        0 <= i < 128 ==> #[trigger] s.slots_spec()[i] == (SlotModel { session: None, last: None })
}

/// Whether some subscription of `subs` is for `port`
pub open spec fn has_port(subs: Seq<Subscription>, port: Port) -> bool {
    exists|i: int| 0 <= i < subs.len() && (#[trigger] subs[i]).port_spec() == port
}

/// Whether a frame is for the node `node_id`: every message is, and a service transfer is when
/// it is addressed to that node
pub open spec fn addressed_to(bits: u32, node_id: Option<u8>) -> bool {
    !crate::frame::id_is_service(bits) || node_id == Some(crate::frame::id_destination(bits))
}

/// What accepting `frame` did to a receiver and what it returned: a frame for this node on a
/// subscribed port goes to that subscription; anything else leaves the receiver as it was
pub open spec fn receiver_accepted(
    before: Receiver,
    after: Receiver,
    frame: CanFrame,
    r: Option<Transfer>,
) -> bool {
    let subs = before.subscriptions_spec();
    let port = frame_port(frame.id@);
    &&& after.node_id_spec() == before.node_id_spec()
    &&& if !addressed_to(frame.id@, before.node_id_spec()) || !has_port(subs, port) {
        r is None && after.subscriptions_spec() == subs
    } else {
        forall|i: int|
            0 <= i < subs.len() && (#[trigger] subs[i]).port_spec() == port
                ==> after.subscriptions_spec() == subs.update(i, after.subscriptions_spec()[i])
                && accepted(subs[i], after.subscriptions_spec()[i], frame, r)
    }
}

/// The acceptance filter for the frames of one port that are for the node `node_id`
pub open spec fn port_filter_spec(port: Port, node_id: Option<u8>) -> crate::filter::Filter {
    match port.kind {
        PortKind::Message => crate::filter::subject_filter_spec(port.id),
        PortKind::Request => crate::filter::service_filter_spec(port.id, true, node_id->Some_0),
        PortKind::Response => crate::filter::service_filter_spec(port.id, false, node_id->Some_0),
    }
}

/// Routes incoming frames to the subscriptions of their ports
pub struct Receiver {
    node_id: Option<u8>,
    subscriptions: Vec<Subscription>,
}

impl Receiver {
    /// The id of this node, if it has one
    pub closed spec fn node_id_spec(&self) -> Option<u8> {
        self.node_id
    }

    /// The subscriptions
    pub closed spec fn subscriptions_spec(&self) -> Seq<Subscription> {
        self.subscriptions@
    }

    /// Every subscription is well formed, no two are for the same port, and service ports are
    /// only subscribed by a node with an id
    pub open spec fn wf(&self) -> bool {
        let subs = self.subscriptions_spec();
        &&& self.node_id_spec() is Some ==> self.node_id_spec()->Some_0 < 128
        &&& forall|i: int| 0 <= i < subs.len() ==> (#[trigger] subs[i]).wf()
        &&& forall|i: int|
            0 <= i < subs.len() && (#[trigger] subs[i]).port_spec().kind != PortKind::Message
                ==> self.node_id_spec() is Some
        &&& forall|i: int, j: int|
            0 <= i < j < subs.len() ==> (#[trigger] subs[i]).port_spec()
                != (#[trigger] subs[j]).port_spec()
    }

    /// Creates a receiver with no subscriptions, for the node `node_id` (`None` for an
    /// anonymous node, which receives only messages)
    pub fn new(node_id: Option<u8>) -> (r: Receiver)
        requires
            node_id is Some ==> node_id->Some_0 < 128,
        ensures
            r.wf(),
            r.node_id_spec() == node_id,
            r.subscriptions_spec() == Seq::<Subscription>::empty(),
    {
        Receiver { node_id, subscriptions: Vec::new() }
    }

    /// The id of this node, if it has one
    pub fn node_id(&self) -> (r: Option<u8>)
        ensures
            r == self.node_id_spec(),
    {
        self.node_id
    }

    /// The index of the subscription for a port
    fn find(&self, port: Port) -> (r: Option<usize>)
        ensures
            r is None <==> !has_port(self.subscriptions_spec(), port),
            r is Some ==> r->Some_0 < self.subscriptions_spec().len()
                && self.subscriptions_spec()[r->Some_0 as int].port_spec() == port,
    {
        let mut i: usize = 0;
        while i < self.subscriptions.len()
            invariant
                i <= self.subscriptions@.len(),
                forall|j: int| 0 <= j < i ==> (#[trigger] self.subscriptions@[j]).port_spec() != port,
            decreases self.subscriptions@.len() - i,
        {
            if self.subscriptions[i].port() == port {
                return Some(i);
            }
            i = i + 1;
        }
        None
    }

    /// Subscribes to a port, replacing any earlier subscription to it
    pub fn subscribe(&mut self, port: Port, max_payload: usize, timeout: MicrosecondsDuration48)
        requires
            old(self).wf(),
            port_valid(port),
            port.kind != PortKind::Message ==> old(self).node_id_spec() is Some,
            max_payload + 2 <= usize::MAX,
        ensures
            final(self).wf(),
            final(self).node_id_spec() == old(self).node_id_spec(),
            ({
                let subs = old(self).subscriptions_spec();
                let after = final(self).subscriptions_spec();
                if has_port(subs, port) {
                    exists|i: int|
                        0 <= i < subs.len() && subs[i].port_spec() == port && after
                            == subs.update(i, after[i]) && fresh_subscription(
                            after[i],
                            port,
                            max_payload as nat,
                            timeout,
                        )
                } else {
                    after.len() == subs.len() + 1 && after.drop_last() == subs
                        && fresh_subscription(after.last(), port, max_payload as nat, timeout)
                }
            }),
    {
        let sub = Subscription::new(port, max_payload, timeout);
        match self.find(port) {
            Some(i) => {
                self.subscriptions.set(i, sub);
                assert(self.subscriptions@ == old(self).subscriptions@.update(i as int, self.subscriptions@[i as int]));
            },
            None => {
                self.subscriptions.push(sub);
                assert(self.subscriptions@.drop_last() =~= old(self).subscriptions@);
            },
        }
    }

    /// Subscribes to the messages of a subject, replacing any earlier subscription to it
    pub fn subscribe_message(&mut self, subject: u16, max_payload: usize, timeout: MicrosecondsDuration48)
        requires
            old(self).wf(),
            subject < 8192,
            max_payload + 2 <= usize::MAX,
        ensures
            final(self).wf(),
            final(self).node_id_spec() == old(self).node_id_spec(),
            has_port(final(self).subscriptions_spec(), Port { kind: PortKind::Message, id: subject }),
    {
        let port = Port { kind: PortKind::Message, id: subject };
        self.subscribe(port, max_payload, timeout);
        proof {
            let subs = old(self).subscriptions_spec();
            let after = self.subscriptions_spec();
            if !has_port(subs, port) {
                assert(after[after.len() - 1].port_spec() == port);
            }
        }
    }

    /// Subscribes to the requests of a service addressed to this node
    pub fn subscribe_request(&mut self, service: u16, max_payload: usize, timeout: MicrosecondsDuration48)
        requires
            old(self).wf(),
            old(self).node_id_spec() is Some,
            service < 512,
            max_payload + 2 <= usize::MAX,
        ensures
            final(self).wf(),
            final(self).node_id_spec() == old(self).node_id_spec(),
            has_port(final(self).subscriptions_spec(), Port { kind: PortKind::Request, id: service }),
    {
        let port = Port { kind: PortKind::Request, id: service };
        self.subscribe(port, max_payload, timeout);
        proof {
            let subs = old(self).subscriptions_spec();
            let after = self.subscriptions_spec();
            if !has_port(subs, port) {
                assert(after[after.len() - 1].port_spec() == port);
            }
        }
    }

    /// Subscribes to the responses of a service addressed to this node
    pub fn subscribe_response(&mut self, service: u16, max_payload: usize, timeout: MicrosecondsDuration48)
        requires
            old(self).wf(),
            old(self).node_id_spec() is Some,
            service < 512,
            max_payload + 2 <= usize::MAX,
        ensures
            final(self).wf(),
            final(self).node_id_spec() == old(self).node_id_spec(),
            has_port(final(self).subscriptions_spec(), Port { kind: PortKind::Response, id: service }),
    {
        let port = Port { kind: PortKind::Response, id: service };
        self.subscribe(port, max_payload, timeout);
        proof {
            let subs = old(self).subscriptions_spec();
            let after = self.subscriptions_spec();
            if !has_port(subs, port) {
                assert(after[after.len() - 1].port_spec() == port);
            }
        }
    }

    /// Removes the subscription to a port, dropping its sessions
    pub fn unsubscribe(&mut self, port: Port)
        requires
            old(self).wf(),
        ensures
            final(self).wf(),
            final(self).node_id_spec() == old(self).node_id_spec(),
            !has_port(final(self).subscriptions_spec(), port),
            forall|t: Port| t != port ==> (has_port(final(self).subscriptions_spec(), t) <==> has_port(old(self).subscriptions_spec(), t)),
    {
        match self.find(port) {
            Some(i) => {
                let ghost before = self.subscriptions@;
                let _ = self.subscriptions.remove(i);
                proof {
                    let after = self.subscriptions@;
                    assert forall|t: Port| t != port implies (has_port(after, t) <==> has_port(before, t)) by {
                        if has_port(before, t) {
                            let j = choose|j: int| 0 <= j < before.len() && (#[trigger] before[j]).port_spec() == t;
                            if j < i {
                                assert(after[j] == before[j]);
                            } else {
                                assert(after[j - 1] == before[j]);
                            }
                        }
                        if has_port(after, t) {
                            let j = choose|j: int| 0 <= j < after.len() && (#[trigger] after[j]).port_spec() == t;
                            if j < i {
                                assert(after[j] == before[j]);
                            } else {
                                assert(after[j] == before[j + 1]);
                            }
                        }
                    }
                    assert(!has_port(after, port)) by {
                        if has_port(after, port) {
                            let j = choose|j: int| 0 <= j < after.len() && (#[trigger] after[j]).port_spec() == port;
                            if j < i {
                                assert(after[j] == before[j]);
                            } else {
                                assert(after[j] == before[j + 1]);
                            }
                        }
                    }
                }
            },
            None => {},
        }
    }

    /// Accepts a frame, and returns the transfer that it completes, if any
    ///
    /// Service frames addressed to other nodes, and frames of ports without a subscription,
    /// are ignored.
    pub fn accept(&mut self, frame: &CanFrame) -> (r: Option<Transfer>)
        requires
            old(self).wf(),
        ensures
            final(self).wf(),
            receiver_accepted(*old(self), *final(self), *frame, r),
    {
        if frame.id.is_service() {
            match self.node_id {
                Some(n) => {
                    if frame.id.destination() != n {
                        return None;
                    }
                },
                None => {
                    return None;
                },
            }
        }
        let port = port_of(&frame.id);
        match self.find(port) {
            Some(i) => {
                let ghost before = self.subscriptions@;
                let mut sub = self.subscriptions.remove(i);
                let r = sub.accept(frame);
                self.subscriptions.insert(i, sub);
                assert(self.subscriptions@ =~= before.update(i as int, sub));
                r
            },
            None => None,
        }
    }

    /// The acceptance filters for all subscribed ports, one for each subscription
    pub fn frame_filters(&self) -> (r: Vec<crate::filter::Filter>)
        requires
            self.wf(),
        ensures
            r@.len() == self.subscriptions_spec().len(),
            forall|i: int|
                0 <= i < r@.len() ==> #[trigger] r@[i] == port_filter_spec(
                    self.subscriptions_spec()[i].port_spec(),
                    self.node_id_spec(),
                ),
    {
        let mut r: Vec<crate::filter::Filter> = Vec::new();
        let mut i: usize = 0;
        while i < self.subscriptions.len()
            invariant
                self.wf(),
                i <= self.subscriptions@.len(),
                r@.len() == i,
                forall|j: int|
                    0 <= j < i ==> #[trigger] r@[j] == port_filter_spec(
                        self.subscriptions@[j].port_spec(),
                        self.node_id,
                    ),
            decreases self.subscriptions@.len() - i,
        {
            assert(self.subscriptions_spec()[i as int].wf());
            let port = self.subscriptions[i].port();
            let f = match port.kind {
                PortKind::Message => crate::filter::subject_filter(port.id),
                PortKind::Request => crate::filter::service_filter(port.id, true, self.node_id.unwrap()),
                PortKind::Response => crate::filter::service_filter(port.id, false, self.node_id.unwrap()),
            };
            r.push(f);
            i = i + 1;
        }
        r
    }
}

} // verus!

verus! {

/// At the level of a subscription: once the session of a source has outlived the timeout, a
/// frame from that source that does not start a transfer delivers nothing and leaves that
/// source without a session.
pub proof fn lemma_expired_subscription_drops_frames(
    before: Subscription,
    after: Subscription,
    frame: CanFrame,
    r: Option<Transfer>,
)
    requires
        before.wf(),
        accepted(before, after, frame, r),
        !crate::frame::id_flag24(frame.id@),
        before.slots_spec()[crate::frame::id_source(frame.id@) as int].session is Some,
        deadline_passed(
            before.slots_spec()[crate::frame::id_source(frame.id@) as int].session->Some_0.start,
            before.timeout_spec(),
            frame.timestamp,
        ),
        frame.data@.len() == 0 || !tail_fields(frame.data@.last()).start,
    ensures
        r is None,
        after.slots_spec()[crate::frame::id_source(frame.id@) as int].session is None,
{
    let src = crate::frame::id_source(frame.id@) as int;
    let b = frame.id@;
    assert(((b & 0x7f) as u8) < 128) by (bit_vector);
    let slot = before.slots_spec()[src];
    let evicted = evict_all(before.slots_spec(), frame.timestamp, before.timeout_spec());
    assert(evicted[src] == slot_evict(slot, frame.timestamp, before.timeout_spec()));
    lemma_expired_session_drops_frames(
        slot,
        frame.data@,
        frame.timestamp,
        before.timeout_spec(),
        before.max_payload_spec(),
    );
}

} // verus!

verus! {

/// The bytes that a run of frames carries, tail bytes left out, in order
pub open spec fn frame_bodies(datas: Seq<Seq<u8>>) -> Seq<u8>
    decreases datas.len(),
{
    if datas.len() == 0 {
        Seq::empty()
    } else {
        frame_bodies(datas.drop_last()) + datas.last().drop_last()
    }
}

#[verifier::spinoff_prover]
#[verifier::rlimit(40)]
proof fn lemma_bodies_prefix(payload: Seq<u8>, mtu: nat, tid: u8, k: int)
    requires
        crate::tx::valid_mtu(mtu),
        payload.len() > mtu - 1,
        0 <= k <= frame_count(payload.len() + 2, (mtu - 1) as nat),
    ensures
        ({
            let cap = (mtu - 1) as int;
            let full = crate::tx::framed_bytes(payload);
            frame_bodies(crate::tx::transfer_frames(payload, mtu, tid).take(k)) == full.subrange(
                0,
                if k * cap < full.len() {
                    k * cap
                } else {
                    full.len() as int
                },
            )
        }),
    decreases k,
{
    let frames = crate::tx::transfer_frames(payload, mtu, tid);
    let cap = (mtu - 1) as nat;
    let full = crate::tx::framed_bytes(payload);
    let len = full.len();
    if k == 0 {
        assert(frames.take(0) =~= Seq::<Seq<u8>>::empty());
        assert(full.subrange(0, 0) =~= Seq::<u8>::empty());
    } else {
        let j = k - 1;
        crate::tx::lemma_frame_count(len, cap, j);
        lemma_bodies_prefix(payload, mtu, tid, j);
        assert(frames.take(k).drop_last() =~= frames.take(j));
        assert(frames.take(k).last() == frames[j]);
        let start = j * cap;
        assert(start + cap == k * cap) by (nonlinear_arith)
            requires start == j * cap, j == k - 1;
        let end = if start + cap < len { start + cap } else { len as int };
        assert(frames[j] == crate::tx::multi_frame_data(full, cap, j, tid));
        assert(frames[j].drop_last() =~= full.subrange(start, end));
        assert(frame_bodies(frames.take(k)) == frame_bodies(frames.take(j)) + frames[j].drop_last());
        assert(full.subrange(0, start) + full.subrange(start, end) =~= full.subrange(0, end));
    }
}

/// The frames of a multi-frame transfer carry, tail bytes left out, the payload followed by its
/// CRC, least significant byte first; so the last two bytes they carry are the CRC of the
/// bytes before them, which is the check that reassembly makes.
#[verifier::spinoff_prover]
pub proof fn lemma_frames_carry_payload_and_crc(payload: Seq<u8>, mtu: nat, tid: u8)
    requires
        crate::tx::valid_mtu(mtu),
        payload.len() > mtu - 1,
    ensures
        frame_bodies(crate::tx::transfer_frames(payload, mtu, tid)) == payload + crc_le_bytes(
            crc_of(payload),
        ),
        crc_matches(frame_bodies(crate::tx::transfer_frames(payload, mtu, tid))),
{
    let frames = crate::tx::transfer_frames(payload, mtu, tid);
    let cap = (mtu - 1) as nat;
    let full = crate::tx::framed_bytes(payload);
    let len = full.len();
    let n = frame_count(len, cap);
    assert((n - 1) * cap < len && len <= n * cap) by (nonlinear_arith)
        requires
            cap > 0,
            len > 0,
            n == (len + cap - 1) / cap as int,
    ;
    lemma_bodies_prefix(payload, mtu, tid, n as int);
    assert(frames.take(n as int) =~= frames);
    assert(full.subrange(0, len as int) =~= full);
    assert(full.subrange(0, len - 2) =~= payload);
    assert(full.subrange(len - 2, len as int) =~= crc_le_bytes(crc_of(payload)));
}

} // verus!

verus! {

/// Publishing and receiving, end to end: the frames of a transfer of `payload` with transfer
/// id `tid`, sent by node `source` with `priority` on the subject of a message subscription,
/// arrive one after another, frame `k` at `times[k]`, each within the subscription's timeout of
/// the first. If the payload bound admits the payload and the transfer id does not repeat the
/// last one delivered from that node within the timeout, the last frame delivers a transfer
/// with exactly that payload, transfer id, source, port and priority, stamped with the arrival
/// time of the first frame, and no frame before it delivers anything.
#[verifier::spinoff_prover]
#[verifier::rlimit(40)]
pub proof fn lemma_subscription_round_trip(
    subs: Seq<Subscription>,
    frames: Seq<CanFrame>,
    rs: Seq<Option<Transfer>>,
    payload: Seq<u8>,
    mtu: nat,
    tid: u8,
    priority: u8,
    source: u8,
    times: Seq<Microseconds48>,
)
    requires
        round_trip_setup(subs, frames, rs, payload, mtu, tid, priority, source, times),
    ensures
        rs.len() >= 1,
        rs.last() is Some,
        rs.last()->Some_0.payload@ == payload,
        rs.last()->Some_0.transfer_id == tid,
        rs.last()->Some_0.source == Some(source),
        rs.last()->Some_0.port == subs[0].port_spec(),
        rs.last()->Some_0.priority == priority,
        rs.last()->Some_0.timestamp == times[0],
        forall|k: int| 0 <= k < rs.len() - 1 ==> rs[k] is None,
{
    let s0 = subs[0];
    let subject = s0.port_spec().id;
    let timeout = s0.timeout_spec();
    let max = s0.max_payload_spec();
    let src = source as int;
    let datas = crate::tx::transfer_frames(payload, mtu, tid);
    let n = frames.len() as int;
    crate::frame::lemma_message_id_fields(priority, subject, source, false);
    let slot0 = slot_evict(s0.slots_spec()[src], times[0], timeout);
    lemma_transfer_round_trip(payload, mtu, tid, priority, subject, source, slot0, times, timeout, max);
    assert(n >= 1);
    assert forall|k: int| 0 <= k < n - 1 implies (#[trigger] rs[k]) is None by {
        lemma_subscription_delivery(subs, frames, rs, payload, mtu, tid, priority, source, times, k);
    }
    lemma_subscription_delivery(subs, frames, rs, payload, mtu, tid, priority, source, times, n - 1);
    assert(datas.take(n) =~= datas);
}

/// The setting of the end-to-end round trip: a run of subscriptions, each the result of
/// accepting one frame of the transfer into the one before
pub open spec fn round_trip_setup(
    subs: Seq<Subscription>,
    frames: Seq<CanFrame>,
    rs: Seq<Option<Transfer>>,
    payload: Seq<u8>,
    mtu: nat,
    tid: u8,
    priority: u8,
    source: u8,
    times: Seq<Microseconds48>,
) -> bool {
    &&& crate::tx::valid_mtu(mtu)
    &&& tid < 32
    &&& priority < 8
    &&& source < 128
    &&& subs.len() == frames.len() + 1
    &&& rs.len() == frames.len()
    &&& times.len() == frames.len()
    &&& subs[0].wf()
    &&& subs[0].port_spec().kind == PortKind::Message
    &&& payload.len() <= subs[0].max_payload_spec()
    &&& !is_duplicate(subs[0].slots_spec()[source as int].last, tid, subs[0].timeout_spec(), times[0])
    &&& frames.len() == crate::tx::transfer_frames(payload, mtu, tid).len()
    &&& forall|k: int|
        0 <= k < frames.len() ==> (#[trigger] frames[k]).id@ == crate::frame::message_id_bits(
            priority,
            subs[0].port_spec().id,
            source,
            false,
        ) && frames[k].data@ == crate::tx::transfer_frames(payload, mtu, tid)[k]
            && frames[k].timestamp == times[k]
    &&& forall|k: int|
        0 < k < frames.len() ==> !deadline_passed(times[0], subs[0].timeout_spec(), #[trigger] times[k])
    &&& forall|k: int| 0 <= k < frames.len() ==> #[trigger] accepted(subs[k], subs[k + 1], frames[k], rs[k])
}

/// What frame `k` of the round trip delivers is what the session model delivers.
#[verifier::spinoff_prover]
#[verifier::rlimit(40)]
proof fn lemma_subscription_delivery(
    subs: Seq<Subscription>,
    frames: Seq<CanFrame>,
    rs: Seq<Option<Transfer>>,
    payload: Seq<u8>,
    mtu: nat,
    tid: u8,
    priority: u8,
    source: u8,
    times: Seq<Microseconds48>,
    k: int,
)
    requires
        round_trip_setup(subs, frames, rs, payload, mtu, tid, priority, source, times),
        0 <= k < frames.len(),
    ensures
        ({
            let s0 = subs[0];
            let slot0 = slot_evict(s0.slots_spec()[source as int], times[0], s0.timeout_spec());
            let d = feed(
                slot0,
                crate::tx::transfer_frames(payload, mtu, tid).take(k + 1),
                times,
                s0.timeout_spec(),
                s0.max_payload_spec(),
            ).1;
            &&& (rs[k] is Some <==> d is Some)
            &&& rs[k] is Some ==> rs[k]->Some_0.payload@ == d->Some_0.payload
                && rs[k]->Some_0.transfer_id == d->Some_0.transfer_id
                && rs[k]->Some_0.timestamp == d->Some_0.timestamp
                && rs[k]->Some_0.source == Some(source)
                && rs[k]->Some_0.port == s0.port_spec()
                && rs[k]->Some_0.priority == priority
        }),
{
    let s0 = subs[0];
    let subject = s0.port_spec().id;
    let timeout = s0.timeout_spec();
    let src = source as int;
    let datas = crate::tx::transfer_frames(payload, mtu, tid);
    lemma_subscription_prefix(subs, frames, rs, payload, mtu, tid, priority, source, times, k);
    crate::frame::lemma_message_id_fields(priority, subject, source, false);
    assert(accepted(subs[k], subs[k + 1], frames[k], rs[k]));
    assert(frames[k].id@ == crate::frame::message_id_bits(priority, subject, source, false));
    assert(datas.take(k + 1).drop_last() =~= datas.take(k));
    assert(datas.take(k + 1).last() == datas[k]);
    let evicted = evict_all(subs[k].slots_spec(), times[k], timeout);
    assert(evicted[src] == slot_evict(subs[k].slots_spec()[src], times[k], timeout));
}

#[verifier::spinoff_prover]
proof fn lemma_subscription_prefix(
    subs: Seq<Subscription>,
    frames: Seq<CanFrame>,
    rs: Seq<Option<Transfer>>,
    payload: Seq<u8>,
    mtu: nat,
    tid: u8,
    priority: u8,
    source: u8,
    times: Seq<Microseconds48>,
    k: int,
)
    requires
        round_trip_setup(subs, frames, rs, payload, mtu, tid, priority, source, times),
        0 <= k < frames.len(),
    ensures
        subs[k].wf(),
        subs[k].port_spec() == subs[0].port_spec(),
        subs[k].timeout_spec() == subs[0].timeout_spec(),
        subs[k].max_payload_spec() == subs[0].max_payload_spec(),
        slot_evict(subs[k].slots_spec()[source as int], times[k], subs[0].timeout_spec()) == feed(
            slot_evict(subs[0].slots_spec()[source as int], times[0], subs[0].timeout_spec()),
            crate::tx::transfer_frames(payload, mtu, tid).take(k),
            times,
            subs[0].timeout_spec(),
            subs[0].max_payload_spec(),
        ).0,
    decreases k,
{
    let s0 = subs[0];
    let subject = s0.port_spec().id;
    let timeout = s0.timeout_spec();
    let max = s0.max_payload_spec();
    let src = source as int;
    let datas = crate::tx::transfer_frames(payload, mtu, tid);
    let slot0 = slot_evict(s0.slots_spec()[src], times[0], timeout);
    if k == 0 {
        assert(datas.take(0) =~= Seq::<Seq<u8>>::empty());
    } else {
        let j = k - 1;
        lemma_subscription_prefix(subs, frames, rs, payload, mtu, tid, priority, source, times, j);
        assert(accepted(subs[j], subs[j + 1], frames[j], rs[j]));
        crate::frame::lemma_message_id_fields(priority, subject, source, false);
        assert(frames[j].id@ == crate::frame::message_id_bits(priority, subject, source, false));
        assert(datas.take(k).drop_last() =~= datas.take(j));
        assert(datas.take(k).last() == datas[j]);
        let evicted = evict_all(subs[j].slots_spec(), times[j], timeout);
        assert(evicted[src] == slot_evict(subs[j].slots_spec()[src], times[j], timeout));
        let next = feed(slot0, datas.take(k), times, timeout, max).0;
        assert(subs[k].slots_spec()[src] == next);
        // After k frames of a transfer that is not over, the session started at the first
        // frame, and the k-th frame arrives within the timeout of it
        let cap = (mtu - 1) as nat;
        assert(!deadline_passed(times[0], timeout, times[k]));
        assert(payload.len() > cap) by {
            if payload.len() <= cap {
                assert(datas.len() == 1);
            }
        }
        crate::tx::lemma_frame_count(payload.len() + 2, cap, k);
        lemma_feed_prefix(payload, mtu, tid, slot0, times, timeout, max, k);
    }
}

} // verus!
