//! Publishers: transfer ids and deadlines for the messages of one subject

use crate::frame::{message_id_bits, CanId};
use crate::queue::OutOfMemoryError;
use crate::time::{u48_modulus, Microseconds48, MicrosecondsDuration48};
use crate::tx::{send_transfer, sent, Transmitter};
use vstd::prelude::*;

verus! {

/// Assembles transfers and manages transfer IDs to send messages
///
/// The subject ID is not part of this struct because it is used as a key in the map of
/// publishers.
pub struct Publisher {
    /// The ID of the next transfer sent
    next_transfer_id: u8,
    /// Timeout for sending a transfer, measured from the time the payload is serialized
    timeout: MicrosecondsDuration48,
    /// Priority for transfers
    priority: u8,
    /// ID of this node
    source: u8,
}

impl Publisher {
    /// The id that the next transfer gets
    pub closed spec fn next_transfer_id_spec(&self) -> u8 {
        self.next_transfer_id
    }

    /// How long after publication a transfer may still be sent
    pub closed spec fn timeout_spec(&self) -> MicrosecondsDuration48 {
        self.timeout
    }

    /// The priority of the transfers
    pub closed spec fn priority_spec(&self) -> u8 {
        self.priority
    }

    /// The node that sends the transfers
    pub closed spec fn source_spec(&self) -> u8 {
        self.source
    }

    /// Every field is in the range of its protocol field
    pub open spec fn wf(&self) -> bool {
        &&& self.next_transfer_id_spec() < 32
        &&& self.priority_spec() < 8
        &&& self.source_spec() < 128
    }

    /// Creates a message transmitter
    ///
    /// node: The ID of this node
    ///
    /// priority: The priority to use for messages
    pub fn new(node_id: u8, timeout: MicrosecondsDuration48, priority: u8) -> (r: Publisher)
        requires
            node_id < 128,
            priority < 8,
        ensures
            r.wf(),
            r.next_transfer_id_spec() == 0,
            r.timeout_spec() == timeout,
            r.priority_spec() == priority,
            r.source_spec() == node_id,
    {
        Publisher { next_transfer_id: 0, timeout, priority, source: node_id }
    }

    /// The id that the next transfer gets
    pub fn next_transfer_id(&self) -> (r: u8)
        ensures
            r == self.next_transfer_id_spec(),
    {
        self.next_transfer_id
    }

    /// Queues a serialized message, to be sent before `now` plus the timeout
    pub fn publish(
        &mut self,
        now: Microseconds48,
        subject: u16,
        payload: &[u8],
        transmitter: &mut Transmitter,
    ) -> (r: Result<(), OutOfMemoryError>)
        requires
            old(self).wf(),
            old(transmitter).wf(),
            subject < 8192,
            payload@.len() + 128 < usize::MAX,
        ensures
            final(self).wf(),
            final(self).timeout_spec() == old(self).timeout_spec(),
            final(self).priority_spec() == old(self).priority_spec(),
            final(self).source_spec() == old(self).source_spec(),
            r is Ok ==> final(self).next_transfer_id_spec() == (old(self).next_transfer_id_spec() + 1)
                % 32,
            r is Err ==> final(self).next_transfer_id_spec() == old(self).next_transfer_id_spec(),
            sent(
                *old(transmitter),
                *final(transmitter),
                r,
                message_id_bits(old(self).priority_spec(), subject, old(self).source_spec(), false),
                old(self).next_transfer_id_spec(),
                payload@,
                (now.0@ + old(self).timeout_spec().0@) % u48_modulus(),
            ),
    {
        let deadline = now.add_duration(self.timeout);
        self.send_payload(subject, payload, deadline, transmitter)
    }

    /// Queues a serialized message with the given deadline
    pub fn send_payload(
        &mut self,
        subject: u16,
        payload: &[u8],
        deadline: Microseconds48,
        transmitter: &mut Transmitter,
    ) -> (r: Result<(), OutOfMemoryError>)
        requires
            old(self).wf(),
            old(transmitter).wf(),
            subject < 8192,
            payload@.len() + 128 < usize::MAX,
        ensures
            final(self).wf(),
            final(self).timeout_spec() == old(self).timeout_spec(),
            final(self).priority_spec() == old(self).priority_spec(),
            final(self).source_spec() == old(self).source_spec(),
            r is Ok ==> final(self).next_transfer_id_spec() == (old(self).next_transfer_id_spec() + 1)
                % 32,
            r is Err ==> final(self).next_transfer_id_spec() == old(self).next_transfer_id_spec(),
            sent(
                *old(transmitter),
                *final(transmitter),
                r,
                message_id_bits(old(self).priority_spec(), subject, old(self).source_spec(), false),
                old(self).next_transfer_id_spec(),
                payload@,
                deadline.0@,
            ),
    {
        let id = CanId::message(self.priority, subject, self.source);
        let transfer_id = self.next_transfer_id;
        let r = send_transfer(deadline, id, transfer_id, payload, transmitter);
        if r.is_ok() {
            self.next_transfer_id = (self.next_transfer_id + 1) % 32;
        }
        r
    }
}

} // verus!
