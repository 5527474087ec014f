//! The transfer layer of a UAVCAN/CAN v1 node
//!
//! Outgoing transfers are split into frames with tail bytes and a CRC and kept in a queue
//! ordered by identifier; incoming frames are reassembled into transfers per source node, with
//! deadlines and duplicate suppression. Around that stand bit cursors for payloads, 48-bit
//! wrapping time, the reduction of acceptance filters to what a controller offers, and the
//! pieces that a bxCAN link driver needs.

use vstd::prelude::*;

pub mod crc;
pub mod cursor;
pub mod filter;
pub mod frame;
pub mod link;
pub mod node;
pub mod publisher;
pub mod queue;
pub mod requester;
pub mod rx;
pub mod time;
pub mod tx;

verus! {

} // verus!
