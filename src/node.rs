//! A node: a transmitter and a receiver for one link, and the heartbeat that every node
//! publishes once per second

use crate::frame::CanFrame;
use crate::publisher::Publisher;
use crate::queue::OutOfMemoryError;
use crate::rx::{receiver_accepted, Receiver, Transfer};
use crate::time::{Microseconds48, MicrosecondsDuration48};
use crate::tx::{sent, valid_mtu, Transmitter};
use vstd::prelude::*;

verus! {

/// The subject on which heartbeats are published
pub const HEARTBEAT_SUBJECT: u16 = 7509;

/// The priority of heartbeats (nominal)
pub const HEARTBEAT_PRIORITY: u8 = 4;

/// The service that answers with a node's information record
pub const GET_INFO_SERVICE: u16 = 430;

/// The serialized heartbeat: uptime in seconds (32 bits, least significant byte first),
/// health, mode, and the vendor-specific status code, one byte each
pub open spec fn heartbeat_bytes(uptime: u32, health: u8, mode: u8, vendor_status: u8) -> Seq<u8> {
    seq![
        (uptime % 256) as u8,
        ((uptime / 256) % 256) as u8,
        ((uptime / 65536) % 256) as u8,
        (uptime / 16777216) as u8,
        health,
        mode,
        vendor_status,
    ]
}

/// Serializes a heartbeat
pub fn heartbeat_payload(uptime: u32, health: u8, mode: u8, vendor_status: u8) -> (r: Vec<u8>)
    ensures
        r@ == heartbeat_bytes(uptime, health, mode, vendor_status),
{
    let mut r: Vec<u8> = Vec::new();
    r.push((uptime % 256) as u8);
    r.push(((uptime / 256) % 256) as u8);
    r.push(((uptime / 65536) % 256) as u8);
    r.push((uptime / 16777216) as u8);
    r.push(health);
    r.push(mode);
    r.push(vendor_status);
    assert(r@ =~= heartbeat_bytes(uptime, health, mode, vendor_status));
    r
}

/// A node on one link
pub struct Node {
    transmitter: Transmitter,
    receiver: Receiver,
    node_id: u8,
    heartbeat: Publisher,
    uptime: u32,
    health: u8,
    mode: u8,
    vendor_status: u8,
}

impl Node {
    /// The transmitter of outgoing frames
    pub closed spec fn transmitter_spec(&self) -> Transmitter {
        self.transmitter
    }

    /// The receiver of incoming frames
    pub closed spec fn receiver_spec(&self) -> Receiver {
        self.receiver
    }

    /// The id of this node
    pub closed spec fn node_id_spec(&self) -> u8 {
        self.node_id
    }

    /// The heartbeat publisher
    pub closed spec fn heartbeat_spec(&self) -> Publisher {
        self.heartbeat
    }

    /// Seconds since the node started
    pub closed spec fn uptime_spec(&self) -> u32 {
        self.uptime
    }

    /// The health, mode and vendor-specific status that heartbeats report
    pub closed spec fn status_spec(&self) -> (u8, u8, u8) {
        (self.health, self.mode, self.vendor_status)
    }

    /// The parts are well formed
    pub open spec fn wf(&self) -> bool {
        &&& self.transmitter_spec().wf()
        &&& self.receiver_spec().wf()
        &&& self.heartbeat_spec().wf()
        &&& self.heartbeat_spec().priority_spec() == HEARTBEAT_PRIORITY
        &&& self.heartbeat_spec().source_spec() == self.node_id_spec()
        &&& self.node_id_spec() < 128
    }

    /// Creates a node with id `node_id` on a link with the given MTU
    pub fn new(node_id: u8, mtu: usize, queue_capacity: usize) -> (r: Node)
        requires
            node_id < 128,
            valid_mtu(mtu as nat),
        ensures
            r.wf(),
            r.uptime_spec() == 0,
            r.status_spec() == (0u8, 0u8, 0u8),
            r.heartbeat_spec().source_spec() == node_id,
            r.node_id_spec() == node_id,
            r.heartbeat_spec().next_transfer_id_spec() == 0,
            r.receiver_spec().subscriptions_spec() == Seq::<crate::rx::Subscription>::empty(),
            r.receiver_spec().node_id_spec() == Some(node_id),
            r.transmitter_spec().queue_spec()@ == Seq::<CanFrame>::empty(),
            r.transmitter_spec().queue_spec().capacity_spec() == queue_capacity,
            r.transmitter_spec().mtu_spec() == mtu,
    {
        // A heartbeat that has waited a second is stale
        let timeout = MicrosecondsDuration48::new(crate::time::U48::from_u32(1_000_000));
        Node {
            transmitter: Transmitter::new(mtu, queue_capacity),
            receiver: Receiver::new(Some(node_id)),
            node_id,
            heartbeat: Publisher::new(node_id, timeout, HEARTBEAT_PRIORITY),
            uptime: 0,
            health: 0,
            mode: 0,
            vendor_status: 0,
        }
    }

    /// The transmitter, for a link driver to take frames from its queue
    pub fn transmitter_mut(&mut self) -> (r: &mut Transmitter)
        ensures
            *r == old(self).transmitter_spec(),
            *final(r) == final(self).transmitter_spec(),
            final(self).receiver_spec() == old(self).receiver_spec(),
            final(self).heartbeat_spec() == old(self).heartbeat_spec(),
            final(self).uptime_spec() == old(self).uptime_spec(),
            final(self).status_spec() == old(self).status_spec(),
    {
        &mut self.transmitter
    }

    /// The receiver of incoming frames
    pub fn receiver(&self) -> (r: &Receiver)
        ensures
            *r == self.receiver_spec(),
    {
        &self.receiver
    }

    /// The receiver, to subscribe and unsubscribe
    pub fn receiver_mut(&mut self) -> (r: &mut Receiver)
        ensures
            *r == old(self).receiver_spec(),
            *final(r) == final(self).receiver_spec(),
            final(self).transmitter_spec() == old(self).transmitter_spec(),
            final(self).heartbeat_spec() == old(self).heartbeat_spec(),
            final(self).uptime_spec() == old(self).uptime_spec(),
            final(self).status_spec() == old(self).status_spec(),
    {
        &mut self.receiver
    }

    /// Sets the health, mode and vendor-specific status that heartbeats report
    pub fn set_status(&mut self, health: u8, mode: u8, vendor_status: u8)
        requires
            old(self).wf(),
            health < 4,
            mode < 8,
        ensures
            final(self).wf(),
            final(self).status_spec() == (health, mode, vendor_status),
            final(self).uptime_spec() == old(self).uptime_spec(),
            final(self).heartbeat_spec() == old(self).heartbeat_spec(),
            final(self).transmitter_spec() == old(self).transmitter_spec(),
            final(self).receiver_spec() == old(self).receiver_spec(),
    {
        self.health = health;
        self.mode = mode;
        self.vendor_status = vendor_status;
    }

    /// Accepts an incoming frame, and returns the transfer that it completes, if any
    pub fn accept_frame(&mut self, frame: &CanFrame) -> (r: Option<Transfer>)
        requires
            old(self).wf(),
        ensures
            final(self).wf(),
            receiver_accepted(old(self).receiver_spec(), final(self).receiver_spec(), *frame, r),
            final(self).transmitter_spec() == old(self).transmitter_spec(),
            final(self).heartbeat_spec() == old(self).heartbeat_spec(),
            final(self).uptime_spec() == old(self).uptime_spec(),
            final(self).status_spec() == old(self).status_spec(),
    {
        self.receiver.accept(frame)
    }

    /// Runs the tasks due once per second: counts a second of uptime and publishes a
    /// heartbeat that reports it
    pub fn run_per_second_tasks(&mut self, now: Microseconds48) -> (r: Result<(), OutOfMemoryError>)
        requires
            old(self).wf(),
        ensures
            final(self).wf(),
            final(self).uptime_spec() == if old(self).uptime_spec() == u32::MAX {
                u32::MAX
            } else {
                (old(self).uptime_spec() + 1) as u32
            },
            final(self).status_spec() == old(self).status_spec(),
            final(self).receiver_spec() == old(self).receiver_spec(),
            r is Ok ==> final(self).heartbeat_spec().next_transfer_id_spec() == (
            old(self).heartbeat_spec().next_transfer_id_spec() + 1) % 32,
            r is Err ==> final(self).heartbeat_spec().next_transfer_id_spec()
                == old(self).heartbeat_spec().next_transfer_id_spec(),
            sent(
                old(self).transmitter_spec(),
                final(self).transmitter_spec(),
                r,
                crate::frame::message_id_bits(
                    HEARTBEAT_PRIORITY,
                    HEARTBEAT_SUBJECT,
                    old(self).heartbeat_spec().source_spec(),
                    false,
                ),
                old(self).heartbeat_spec().next_transfer_id_spec(),
                heartbeat_bytes(
                    final(self).uptime_spec(),
                    old(self).status_spec().0,
                    old(self).status_spec().1,
                    old(self).status_spec().2,
                ),
                (now.0@ + old(self).heartbeat_spec().timeout_spec().0@) % crate::time::u48_modulus(),
            ),
    {
        if self.uptime < u32::MAX {
            self.uptime = self.uptime + 1;
        }
        let payload = heartbeat_payload(self.uptime, self.health, self.mode, self.vendor_status);
        self.heartbeat.publish(now, HEARTBEAT_SUBJECT, payload.as_slice(), &mut self.transmitter)
    }

    /// Answers a GetInfo request with the serialized information record `info`, to be sent
    /// before `deadline`: the response goes to the requesting node with the request's
    /// priority and transfer id. Returns `None`, queuing nothing, when the transfer is not a
    /// GetInfo request from a node.
    pub fn respond_to_get_info(
        &mut self,
        request: &Transfer,
        info: &[u8],
        deadline: Microseconds48,
    ) -> (r: Option<Result<(), OutOfMemoryError>>)
        requires
            old(self).wf(),
            request.priority < 8,
            request.transfer_id < 32,
            info@.len() + 128 < usize::MAX,
        ensures
            final(self).wf(),
            final(self).receiver_spec() == old(self).receiver_spec(),
            final(self).heartbeat_spec() == old(self).heartbeat_spec(),
            final(self).uptime_spec() == old(self).uptime_spec(),
            final(self).status_spec() == old(self).status_spec(),
            (r is Some) == (request.port == crate::rx::Port {
                kind: crate::rx::PortKind::Request,
                id: GET_INFO_SERVICE,
            } && request.source is Some && request.source->Some_0 < 128),
            r is None ==> final(self).transmitter_spec() == old(self).transmitter_spec(),
            r is Some ==> sent(
                old(self).transmitter_spec(),
                final(self).transmitter_spec(),
                r->Some_0,
                crate::frame::service_id_bits(
                    request.priority,
                    GET_INFO_SERVICE,
                    false,
                    request.source->Some_0,
                    old(self).node_id_spec(),
                ),
                request.transfer_id,
                info@,
                deadline.0@,
            ),
    {
        let get_info = crate::rx::Port { kind: crate::rx::PortKind::Request, id: GET_INFO_SERVICE };
        if request.port != get_info {
            return None;
        }
        match request.source {
            Some(requester) => {
                if requester >= 128 {
                    return None;
                }
                Some(
                    crate::requester::send_response(
                        deadline,
                        request.priority,
                        GET_INFO_SERVICE,
                        requester,
                        self.node_id,
                        request.transfer_id,
                        info,
                        &mut self.transmitter,
                    ),
                )
            },
            None => None,
        }
    }
}

} // verus!
