//! Requesters and responders: service transfers, with transfer ids kept per destination

use crate::frame::{service_id_bits, CanId};
use crate::queue::OutOfMemoryError;
use crate::time::{u48_modulus, Microseconds48, MicrosecondsDuration48};
use crate::tx::{send_transfer, sent, Transmitter};
use vstd::prelude::*;

verus! {

/// Sends service requests and keeps a transfer id for each destination node
pub struct Requester {
    /// The id of the next request to each of the 128 nodes
    next_transfer_ids: Vec<u8>,
    timeout: MicrosecondsDuration48,
    priority: u8,
    source: u8,
}

impl Requester {
    /// The id that the next request to each node gets
    pub closed spec fn next_transfer_ids_spec(&self) -> Seq<u8> {
        self.next_transfer_ids@
    }

    /// How long after it is made a request may still be sent
    pub closed spec fn timeout_spec(&self) -> MicrosecondsDuration48 {
        self.timeout
    }

    /// The priority of the requests
    pub closed spec fn priority_spec(&self) -> u8 {
        self.priority
    }

    /// The node that sends the requests
    pub closed spec fn source_spec(&self) -> u8 {
        self.source
    }

    /// One transfer id for each node, and every field in the range of its protocol field
    pub open spec fn wf(&self) -> bool {
        &&& self.next_transfer_ids_spec().len() == 128
        &&& forall|i: int| 0 <= i < 128 ==> #[trigger] self.next_transfer_ids_spec()[i] < 32
        &&& self.priority_spec() < 8
        &&& self.source_spec() < 128
    }

    /// Creates a requester for the node `node_id`
    pub fn new(node_id: u8, timeout: MicrosecondsDuration48, priority: u8) -> (r: Requester)
        requires
            node_id < 128,
            priority < 8,
        ensures
            r.wf(),
            forall|i: int| 0 <= i < 128 ==> #[trigger] r.next_transfer_ids_spec()[i] == 0,
            r.timeout_spec() == timeout,
            r.priority_spec() == priority,
            r.source_spec() == node_id,
    {
        let mut ids: Vec<u8> = Vec::new();
        let mut i: usize = 0;
        while i < 128
            invariant
                i <= 128,
                ids@.len() == i,
                forall|j: int| 0 <= j < i ==> #[trigger] ids@[j] == 0,
            decreases 128 - i,
        {
            ids.push(0);
            i = i + 1;
        }
        Requester { next_transfer_ids: ids, timeout, priority, source: node_id }
    }

    /// The id that the next request to `destination` gets
    pub fn next_transfer_id(&self, destination: u8) -> (r: u8)
        requires
            self.wf(),
            destination < 128,
        ensures
            r == self.next_transfer_ids_spec()[destination as int],
    {
        self.next_transfer_ids[destination as usize]
    }

    /// Queues a serialized request to `destination`, to be sent before `now` plus the timeout
    pub fn send_request(
        &mut self,
        now: Microseconds48,
        service: u16,
        destination: u8,
        payload: &[u8],
        transmitter: &mut Transmitter,
    ) -> (r: Result<(), OutOfMemoryError>)
        requires
            old(self).wf(),
            old(transmitter).wf(),
            service < 512,
            destination < 128,
            payload@.len() + 128 < usize::MAX,
        ensures
            final(self).wf(),
            final(self).timeout_spec() == old(self).timeout_spec(),
            final(self).priority_spec() == old(self).priority_spec(),
            final(self).source_spec() == old(self).source_spec(),
            r is Err ==> final(self).next_transfer_ids_spec() == old(self).next_transfer_ids_spec(),
            r is Ok ==> final(self).next_transfer_ids_spec() == old(self).next_transfer_ids_spec().update(
                destination as int,
                ((old(self).next_transfer_ids_spec()[destination as int] + 1) % 32) as u8,
            ),
            sent(
                *old(transmitter),
                *final(transmitter),
                r,
                service_id_bits(
                    old(self).priority_spec(),
                    service,
                    true,
                    destination,
                    old(self).source_spec(),
                ),
                old(self).next_transfer_ids_spec()[destination as int],
                payload@,
                (now.0@ + old(self).timeout_spec().0@) % u48_modulus(),
            ),
    {
        let deadline = now.add_duration(self.timeout);
        let id = CanId::service(self.priority, service, true, destination, self.source);
        let transfer_id = self.next_transfer_ids[destination as usize];
        let r = send_transfer(deadline, id, transfer_id, payload, transmitter);
        if r.is_ok() {
            self.next_transfer_ids.set(destination as usize, (transfer_id + 1) % 32);
            assert(self.wf()) by {
                assert forall|i: int| 0 <= i < 128 implies #[trigger] self.next_transfer_ids_spec()[i]
                    < 32 by {
                    if i != destination as int {
                        assert(old(self).next_transfer_ids_spec()[i] < 32);
                    }
                }
            }
        }
        r
    }
}

/// Queues a serialized response to a request from `requester`, with the request's transfer
/// id, to be sent before `deadline`
pub fn send_response(
    deadline: Microseconds48,
    priority: u8,
    service: u16,
    requester: u8,
    source: u8,
    transfer_id: u8,
    payload: &[u8],
    transmitter: &mut Transmitter,
) -> (r: Result<(), OutOfMemoryError>)
    requires
        old(transmitter).wf(),
        priority < 8,
        service < 512,
        requester < 128,
        source < 128,
        transfer_id < 32,
        payload@.len() + 128 < usize::MAX,
    ensures
        sent(
            *old(transmitter),
            *final(transmitter),
            r,
            service_id_bits(priority, service, false, requester, source),
            transfer_id,
            payload@,
            deadline.0@,
        ),
{
    let id = CanId::service(priority, service, false, requester, source);
    send_transfer(deadline, id, transfer_id, payload, transmitter)
}

} // verus!
