//! CAN identifiers, tail bytes and frames

use crate::time::Microseconds48;
use vstd::prelude::*;

verus! {

/// The number of distinct 29-bit identifiers
pub open spec fn can_id_modulus() -> int {
    0x2000_0000
}

/// An error indicating that a frame did not have the correct format for this protocol
#[derive(Copy, Clone, Debug, PartialEq, Eq, Structural)]
pub struct InvalidFrameFormat;

/// Whether a raw 29-bit value is an identifier of this protocol: bit 23 is reserved and
/// must be clear, and so must bit 7 of a message identifier
pub open spec fn id_conforms(bits: u32) -> bool {
    &&& bits < 0x2000_0000
    &&& bits & 0x80_0000 == 0
    &&& (bits & 0x200_0000 == 0 ==> bits & 0x80 == 0)
}

/// The priority field, bits 28..26
pub open spec fn id_priority(bits: u32) -> u8 {
    ((bits >> 26u32) & 7) as u8
}

/// Whether an identifier belongs to a service transfer (bit 25)
pub open spec fn id_is_service(bits: u32) -> bool {
    bits & 0x200_0000 != 0
}

/// For a message, whether it was sent by an anonymous node; for a service, whether it is a
/// request (bit 24)
pub open spec fn id_flag24(bits: u32) -> bool {
    bits & 0x100_0000 != 0
}

/// The subject of a message identifier, bits 20..8
pub open spec fn id_subject(bits: u32) -> u16 {
    ((bits >> 8u32) & 0x1fff) as u16
}

/// The service of a service identifier, bits 22..14
pub open spec fn id_service(bits: u32) -> u16 {
    ((bits >> 14u32) & 0x1ff) as u16
}

/// The destination of a service identifier, bits 13..7
pub open spec fn id_destination(bits: u32) -> u8 {
    ((bits >> 7u32) & 0x7f) as u8
}

/// The source node (or pseudo-id of an anonymous sender), bits 6..0
pub open spec fn id_source(bits: u32) -> u8 {
    (bits & 0x7f) as u8
}

/// The identifier of a message: reserved bits 22 and 21 are sent as ones
pub open spec fn message_id_bits(priority: u8, subject: u16, source: u8, anonymous: bool) -> u32 {
    ((priority as u32) << 26u32) | (if anonymous { 0x100_0000u32 } else { 0u32 }) | 0x60_0000u32
        | ((subject as u32) << 8u32) | (source as u32)
}

/// The identifier of a service request or response
pub open spec fn service_id_bits(
    priority: u8,
    service: u16,
    request: bool,
    destination: u8,
    source: u8,
) -> u32 {
    ((priority as u32) << 26u32) | 0x200_0000u32 | (if request { 0x100_0000u32 } else { 0u32 })
        | ((service as u32) << 14u32) | ((destination as u32) << 7u32) | (source as u32)
}

/// A 29-bit CAN identifier of this protocol
#[derive(Copy, Clone, Debug, PartialEq, Eq, Structural, PartialOrd, Ord, Hash)]
pub struct CanId(u32);

impl View for CanId {
    type V = u32;

    /// The identifier bits; the type's invariant keeps them conforming
    closed spec fn view(&self) -> u32 {
        if id_conforms(self.0) {
            self.0
        } else {
            0
        }
    }
}

/// Every identifier conforms to the protocol.
pub proof fn lemma_can_id_conforms(id: CanId)
    ensures
        id_conforms(id@),
{
    assert(id_conforms(0u32)) by (bit_vector);
}

impl CanId {
    #[verifier::type_invariant]
    spec fn conforming(self) -> bool {
        id_conforms(self.0)
    }

    /// Checks a raw identifier
    pub fn try_from(bits: u32) -> (r: Result<CanId, InvalidFrameFormat>)
        ensures
            id_conforms(bits) <==> r is Ok,
            r is Ok ==> r->Ok_0@ == bits,
    {
        if bits < 0x2000_0000 && bits & 0x80_0000 == 0 && (bits & 0x200_0000 != 0 || bits & 0x80
            == 0) {
            Ok(CanId(bits))
        } else {
            Err(InvalidFrameFormat)
        }
    }

    /// The identifier bits
    pub fn as_u32(&self) -> (r: u32)
        ensures
            r == self@,
    {
        proof {
            use_type_invariant(self);
        }
        self.0
    }

    /// The identifier of a message from a node
    pub fn message(priority: u8, subject: u16, source: u8) -> (r: CanId)
        requires
            priority < 8,
            subject < 8192,
            source < 128,
        ensures
            r@ == message_id_bits(priority, subject, source, false),
    {
        let bits: u32 = ((priority as u32) << 26u32) | 0u32 | 0x60_0000u32 | ((subject as u32)
            << 8u32) | (source as u32);
        proof {
            lemma_message_id_fields(priority, subject, source, false);
        }
        CanId(bits)
    }

    /// The identifier of a message from an anonymous node, carrying a pseudo-id
    pub fn anonymous_message(priority: u8, subject: u16, pseudo_id: u8) -> (r: CanId)
        requires
            priority < 8,
            subject < 8192,
            pseudo_id < 128,
        ensures
            r@ == message_id_bits(priority, subject, pseudo_id, true),
    {
        let bits: u32 = ((priority as u32) << 26u32) | 0x100_0000u32 | 0x60_0000u32 | ((
        subject as u32) << 8u32) | (pseudo_id as u32);
        proof {
            lemma_message_id_fields(priority, subject, pseudo_id, true);
        }
        CanId(bits)
    }

    /// The identifier of a service request or response
    pub fn service(priority: u8, service: u16, request: bool, destination: u8, source: u8) -> (r:
        CanId)
        requires
            priority < 8,
            service < 512,
            destination < 128,
            source < 128,
        ensures
            r@ == service_id_bits(priority, service, request, destination, source),
    {
        let flag: u32 = if request {
            0x100_0000u32
        } else {
            0u32
        };
        let bits: u32 = ((priority as u32) << 26u32) | 0x200_0000u32 | flag | ((service as u32)
            << 14u32) | ((destination as u32) << 7u32) | (source as u32);
        proof {
            lemma_service_id_fields(priority, service, request, destination, source);
        }
        CanId(bits)
    }

    /// The priority field
    pub fn priority(&self) -> (r: u8)
        ensures
            r == id_priority(self@),
    {
        let b = self.as_u32();
        ((b >> 26u32) & 7) as u8
    }

    /// Whether this is a service identifier
    pub fn is_service(&self) -> (r: bool)
        ensures
            r == id_is_service(self@),
    {
        self.as_u32() & 0x200_0000 != 0
    }

    /// The anonymous flag of a message, or the request flag of a service
    pub fn flag24(&self) -> (r: bool)
        ensures
            r == id_flag24(self@),
    {
        self.as_u32() & 0x100_0000 != 0
    }

    /// The subject field of a message identifier
    pub fn subject(&self) -> (r: u16)
        ensures
            r == id_subject(self@),
    {
        let b = self.as_u32();
        ((b >> 8u32) & 0x1fff) as u16
    }

    /// The service field of a service identifier
    pub fn service_id(&self) -> (r: u16)
        ensures
            r == id_service(self@),
    {
        let b = self.as_u32();
        ((b >> 14u32) & 0x1ff) as u16
    }

    /// The destination field of a service identifier
    pub fn destination(&self) -> (r: u8)
        ensures
            r == id_destination(self@),
    {
        let b = self.as_u32();
        ((b >> 7u32) & 0x7f) as u8
    }

    /// The source field
    pub fn source(&self) -> (r: u8)
        ensures
            r == id_source(self@),
    {
        (self.as_u32() & 0x7f) as u8
    }
}

/// A message identifier conforms, and its fields read back as they were written.
pub proof fn lemma_message_id_fields(priority: u8, subject: u16, source: u8, anonymous: bool)
    requires
        priority < 8,
        subject < 8192,
        source < 128,
    ensures
        id_conforms(message_id_bits(priority, subject, source, anonymous)),
        id_priority(message_id_bits(priority, subject, source, anonymous)) == priority,
        !id_is_service(message_id_bits(priority, subject, source, anonymous)),
        id_flag24(message_id_bits(priority, subject, source, anonymous)) == anonymous,
        id_subject(message_id_bits(priority, subject, source, anonymous)) == subject,
        id_source(message_id_bits(priority, subject, source, anonymous)) == source,
{
    let p = priority as u32;
    let s = subject as u32;
    let n = source as u32;
    let f: u32 = if anonymous { 0x100_0000u32 } else { 0u32 };
    let b = message_id_bits(priority, subject, source, anonymous);
    assert(b == (p << 26u32) | f | 0x60_0000u32 | (s << 8u32) | n);
    assert(b < 0x2000_0000 && b & 0x80_0000 == 0 && b & 0x200_0000 == 0 && b & 0x80 == 0
        && ((b >> 26u32) & 7) == p && ((b & 0x100_0000 != 0) == (f != 0))
        && ((b >> 8u32) & 0x1fff) == s && (b & 0x7f) == n) by (bit_vector)
        requires
            p < 8,
            s < 8192,
            n < 128,
            f == 0 || f == 0x100_0000,
            b == (p << 26u32) | f | 0x60_0000u32 | (s << 8u32) | n,
    ;
}

/// A service identifier conforms, and its fields read back as they were written.
pub proof fn lemma_service_id_fields(
    priority: u8,
    service: u16,
    request: bool,
    destination: u8,
    source: u8,
)
    requires
        priority < 8,
        service < 512,
        destination < 128,
        source < 128,
    ensures
        id_conforms(service_id_bits(priority, service, request, destination, source)),
        id_priority(service_id_bits(priority, service, request, destination, source)) == priority,
        id_is_service(service_id_bits(priority, service, request, destination, source)),
        id_flag24(service_id_bits(priority, service, request, destination, source)) == request,
        id_service(service_id_bits(priority, service, request, destination, source)) == service,
        id_destination(service_id_bits(priority, service, request, destination, source))
            == destination,
        id_source(service_id_bits(priority, service, request, destination, source)) == source,
{
    let p = priority as u32;
    let s = service as u32;
    let d = destination as u32;
    let n = source as u32;
    let f: u32 = if request { 0x100_0000u32 } else { 0u32 };
    let b = service_id_bits(priority, service, request, destination, source);
    assert(b == (p << 26u32) | 0x200_0000u32 | f | (s << 14u32) | (d << 7u32) | n);
    assert(b < 0x2000_0000 && b & 0x80_0000 == 0 && b & 0x200_0000 != 0 && ((b >> 26u32) & 7)
        == p && ((b & 0x100_0000 != 0) == (f != 0)) && ((b >> 14u32) & 0x1ff) == s && ((b
        >> 7u32) & 0x7f) == d && (b & 0x7f) == n) by (bit_vector)
        requires
            p < 8,
            s < 512,
            d < 128,
            n < 128,
            f == 0 || f == 0x100_0000,
            b == (p << 26u32) | 0x200_0000u32 | f | (s << 14u32) | (d << 7u32) | n,
    ;
}

/// The tail byte that ends every frame: start of transfer (bit 7), end of transfer (bit 6),
/// toggle (bit 5) and the transfer id (bits 4..0)
pub open spec fn tail_byte(sot: bool, eot: bool, toggle: bool, transfer_id: u8) -> u8 {
    ((if sot { 0x80u8 } else { 0u8 }) | (if eot { 0x40u8 } else { 0u8 }) | (if toggle {
        0x20u8
    } else {
        0u8
    }) | transfer_id) as u8
}

/// The fields of a tail byte
#[derive(Copy, Clone, Debug, PartialEq, Eq, Structural)]
pub struct TailByte {
    pub start: bool,
    pub end: bool,
    pub toggle: bool,
    pub transfer_id: u8,
}

/// The fields that a tail byte holds
pub open spec fn tail_fields(b: u8) -> TailByte {
    TailByte {
        start: b & 0x80 != 0,
        end: b & 0x40 != 0,
        toggle: b & 0x20 != 0,
        transfer_id: b & 0x1f,
    }
}

impl TailByte {
    /// Encodes the fields as a byte
    pub fn encode(&self) -> (r: u8)
        requires
            self.transfer_id < 32,
        ensures
            r == tail_byte(self.start, self.end, self.toggle, self.transfer_id),
            tail_fields(r) == *self,
    {
        let s: u8 = if self.start {
            0x80u8
        } else {
            0u8
        };
        let e: u8 = if self.end {
            0x40u8
        } else {
            0u8
        };
        let t: u8 = if self.toggle {
            0x20u8
        } else {
            0u8
        };
        let tid: u8 = self.transfer_id;
        let r: u8 = s | e | t | tid;
        assert((r & 0x80 != 0) == (s != 0) && (r & 0x40 != 0) == (e != 0) && (r & 0x20 != 0) == (t
            != 0) && (r & 0x1f) == tid) by (bit_vector)
            requires
                s == 0 || s == 0x80,
                e == 0 || e == 0x40,
                t == 0 || t == 0x20,
                tid < 32,
                r == s | e | t | tid,
        ;
        r
    }

    /// Reads the fields of a tail byte
    pub fn decode(b: u8) -> (r: TailByte)
        ensures
            r == tail_fields(b),
            r.transfer_id < 32,
    {
        assert((b & 0x1f) < 32) by (bit_vector);
        TailByte { start: b & 0x80 != 0, end: b & 0x40 != 0, toggle: b & 0x20 != 0, transfer_id: b & 0x1f }
    }
}

/// A CAN frame: a timestamp (the deadline of an outgoing frame, the arrival time of an
/// incoming one), an identifier and up to 64 bytes of data
#[derive(Clone, Debug, PartialEq, Eq)]
pub struct CanFrame {
    pub timestamp: Microseconds48,
    pub id: CanId,
    pub data: Vec<u8>,
}

impl CanFrame {
    /// Creates a frame
    pub fn new(timestamp: Microseconds48, id: CanId, data: &[u8]) -> (r: CanFrame)
        ensures
            r.timestamp == timestamp,
            r.id == id,
            r.data@ == data@,
    {
        CanFrame { timestamp, id, data: copy_range(data, 0, data.len()) }
    }
}

/// Copies `data[start..end]` into a new vector
pub fn copy_range(data: &[u8], start: usize, end: usize) -> (r: Vec<u8>)
    requires
        start <= end <= data@.len(),
    ensures
        r@ == data@.subrange(start as int, end as int),
{
    let mut r: Vec<u8> = Vec::with_capacity(end - start);
    let mut i: usize = start;
    while i < end
        invariant
            start <= i <= end <= data@.len(),
            r@ == data@.subrange(start as int, i as int),
        decreases end - i,
    {
        r.push(data[i]);
        i = i + 1;
    }
    r
}

/// Builds a frame from what a link driver received: an extended identifier, if the frame had
/// one, and its data, if it was a data frame
pub fn frame_from_parts(extended_id: Option<u32>, data: Option<&[u8]>, timestamp:
    Microseconds48) -> (r: Result<CanFrame, InvalidFrameFormat>)
    ensures
        r is Ok <==> (extended_id is Some && id_conforms(extended_id->Some_0) && data is Some),
        r is Ok ==> r->Ok_0.id@ == extended_id->Some_0 && r->Ok_0.data@ == data->Some_0@
            && r->Ok_0.timestamp == timestamp,
{
    let bits = match extended_id {
        Some(b) => b,
        None => return Err(InvalidFrameFormat),
    };
    let id = match CanId::try_from(bits) {
        Ok(id) => id,
        Err(e) => return Err(e),
    };
    match data {
        Some(d) => Ok(CanFrame::new(timestamp, id, d)),
        None => Err(InvalidFrameFormat),
    }
}


/// A tail byte reads back the fields it was made from.
pub proof fn lemma_tail_round_trip(sot: bool, eot: bool, toggle: bool, transfer_id: u8)
    requires
        transfer_id < 32,
    ensures
        tail_fields(tail_byte(sot, eot, toggle, transfer_id)) == (TailByte {
            start: sot,
            end: eot,
            toggle,
            transfer_id,
        }),
{
    let s: u8 = if sot { 0x80u8 } else { 0u8 };
    let e: u8 = if eot { 0x40u8 } else { 0u8 };
    let t: u8 = if toggle { 0x20u8 } else { 0u8 };
    let tid = transfer_id;
    let r = tail_byte(sot, eot, toggle, transfer_id);
    assert(r == s | e | t | tid);
    assert((r & 0x80 != 0) == (s != 0) && (r & 0x40 != 0) == (e != 0) && (r & 0x20 != 0) == (t
        != 0) && (r & 0x1f) == tid) by (bit_vector)
        requires
            s == 0 || s == 0x80,
            e == 0 || e == 0x40,
            t == 0 || t == 0x20,
            tid < 32,
            r == s | e | t | tid,
    ;
}

} // verus!
