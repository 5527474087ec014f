//! CRC-16/CCITT-FALSE, the checksum that ends every multi-frame transfer
//!
//! Polynomial 0x1021, initial value 0xFFFF, no reflection, no final XOR.

use vstd::prelude::*;

verus! {

/// The CRC value before any byte has been added
pub const CRC_INITIAL: u16 = 0xffff;

/// One bit of polynomial division: shift left, and subtract the polynomial when the top bit
/// falls out
pub open spec fn crc_bit(c: u16) -> u16 {
    if c & 0x8000 != 0 {
        ((c << 1u16) ^ 0x1021u16) as u16
    } else {
        (c << 1u16) as u16
    }
}

/// The CRC after adding one byte to a CRC state
pub open spec fn crc_byte(c: u16, b: u8) -> u16 {
    let x = (c ^ ((b as u16) << 8u16)) as u16;
    crc_bit(crc_bit(crc_bit(crc_bit(crc_bit(crc_bit(crc_bit(crc_bit(x))))))))
}

/// The CRC state after adding the bytes of `s`, in order, to the state `c`
pub open spec fn crc_from(c: u16, s: Seq<u8>) -> u16
    decreases s.len(),
{
    if s.len() == 0 {
        c
    } else {
        crc_byte(crc_from(c, s.drop_last()), s.last())
    }
}

/// The CRC of a byte sequence
pub open spec fn crc_of(s: Seq<u8>) -> u16 {
    crc_from(CRC_INITIAL, s)
}

/// The two bytes of a CRC, least significant first
pub open spec fn crc_le_bytes(c: u16) -> Seq<u8> {
    seq![(c & 0xff) as u8, (c >> 8u16) as u8]
}

/// The two bytes of a CRC, most significant first
pub open spec fn crc_be_bytes(c: u16) -> Seq<u8> {
    seq![(c >> 8u16) as u8, (c & 0xff) as u8]
}

fn crc_bit_exec(c: u16) -> (r: u16)
    ensures
        r == crc_bit(c),
{
    if c & 0x8000 != 0 {
        (c << 1u16) ^ 0x1021u16
    } else {
        c << 1u16
    }
}

/// Adds one byte to a CRC state
pub fn crc_add_byte(c: u16, b: u8) -> (r: u16)
    ensures
        r == crc_byte(c, b),
{
    let mut x: u16 = c ^ ((b as u16) << 8u16);
    x = crc_bit_exec(x);
    x = crc_bit_exec(x);
    x = crc_bit_exec(x);
    x = crc_bit_exec(x);
    x = crc_bit_exec(x);
    x = crc_bit_exec(x);
    x = crc_bit_exec(x);
    x = crc_bit_exec(x);
    x
}

/// Adds a run of bytes to a CRC state
pub fn crc_add_bytes(c: u16, data: &[u8]) -> (r: u16)
    ensures
        r == crc_from(c, data@),
{
    let mut v: u16 = c;
    let mut i: usize = 0;
    while i < data.len()
        invariant
            i <= data@.len(),
            v == crc_from(c, data@.take(i as int)),
        decreases data@.len() - i,
    {
        assert(data@.take(i + 1).drop_last() =~= data@.take(i as int));
        v = crc_add_byte(v, data[i]);
        i = i + 1;
    }
    assert(data@.take(i as int) =~= data@);
    v
}

/// The CRC of a byte slice
pub fn crc16(data: &[u8]) -> (r: u16)
    ensures
        r == crc_of(data@),
{
    crc_add_bytes(CRC_INITIAL, data)
}

/// Adding bytes one run after another gives the CRC of the whole.
pub proof fn lemma_crc_append(c: u16, a: Seq<u8>, b: Seq<u8>)
    ensures
        crc_from(c, a + b) == crc_from(crc_from(c, a), b),
    decreases b.len(),
{
    if b.len() == 0 {
        assert(a + b =~= a);
    } else {
        assert((a + b).drop_last() =~= a + b.drop_last());
        lemma_crc_append(c, a, b.drop_last());
    }
}

/// From any state, adding that state's own two bytes, most significant first, leaves zero.
pub proof fn lemma_crc_be_residue(c: u16)
    ensures
        crc_byte(crc_byte(c, (c >> 8u16) as u8), (c & 0xff) as u8) == 0,
{
    let hi = (c >> 8u16) as u8;
    let lo = (c & 0xff) as u8;
    let x0 = (c ^ ((hi as u16) << 8u16)) as u16;
    assert(x0 == c & 0xff) by (bit_vector)
        requires hi == (c >> 8u16) as u8, x0 == (c ^ ((hi as u16) << 8u16)) as u16;
    let x1 = crc_bit(x0);
    let x2 = crc_bit(x1);
    let x3 = crc_bit(x2);
    let x4 = crc_bit(x3);
    let x5 = crc_bit(x4);
    let x6 = crc_bit(x5);
    let x7 = crc_bit(x6);
    let x8 = crc_bit(x7);
    let y0 = (x8 ^ ((lo as u16) << 8u16)) as u16;
    let y1 = crc_bit(y0);
    let y2 = crc_bit(y1);
    let y3 = crc_bit(y2);
    let y4 = crc_bit(y3);
    let y5 = crc_bit(y4);
    let y6 = crc_bit(y5);
    let y7 = crc_bit(y6);
    let y8 = crc_bit(y7);
    assert(y8 == 0) by (bit_vector)
        requires
            lo == (c & 0xff) as u8,
            x0 == c & 0xff,
            x1 == (if x0 & 0x8000 != 0 { ((x0 << 1u16) ^ 0x1021u16) as u16 } else { (x0 << 1u16) as u16 }),
            x2 == (if x1 & 0x8000 != 0 { ((x1 << 1u16) ^ 0x1021u16) as u16 } else { (x1 << 1u16) as u16 }),
            x3 == (if x2 & 0x8000 != 0 { ((x2 << 1u16) ^ 0x1021u16) as u16 } else { (x2 << 1u16) as u16 }),
            x4 == (if x3 & 0x8000 != 0 { ((x3 << 1u16) ^ 0x1021u16) as u16 } else { (x3 << 1u16) as u16 }),
            x5 == (if x4 & 0x8000 != 0 { ((x4 << 1u16) ^ 0x1021u16) as u16 } else { (x4 << 1u16) as u16 }),
            x6 == (if x5 & 0x8000 != 0 { ((x5 << 1u16) ^ 0x1021u16) as u16 } else { (x5 << 1u16) as u16 }),
            x7 == (if x6 & 0x8000 != 0 { ((x6 << 1u16) ^ 0x1021u16) as u16 } else { (x6 << 1u16) as u16 }),
            x8 == (if x7 & 0x8000 != 0 { ((x7 << 1u16) ^ 0x1021u16) as u16 } else { (x7 << 1u16) as u16 }),
            y0 == (x8 ^ ((lo as u16) << 8u16)) as u16,
            y1 == (if y0 & 0x8000 != 0 { ((y0 << 1u16) ^ 0x1021u16) as u16 } else { (y0 << 1u16) as u16 }),
            y2 == (if y1 & 0x8000 != 0 { ((y1 << 1u16) ^ 0x1021u16) as u16 } else { (y1 << 1u16) as u16 }),
            y3 == (if y2 & 0x8000 != 0 { ((y2 << 1u16) ^ 0x1021u16) as u16 } else { (y2 << 1u16) as u16 }),
            y4 == (if y3 & 0x8000 != 0 { ((y3 << 1u16) ^ 0x1021u16) as u16 } else { (y3 << 1u16) as u16 }),
            y5 == (if y4 & 0x8000 != 0 { ((y4 << 1u16) ^ 0x1021u16) as u16 } else { (y4 << 1u16) as u16 }),
            y6 == (if y5 & 0x8000 != 0 { ((y5 << 1u16) ^ 0x1021u16) as u16 } else { (y5 << 1u16) as u16 }),
            y7 == (if y6 & 0x8000 != 0 { ((y6 << 1u16) ^ 0x1021u16) as u16 } else { (y6 << 1u16) as u16 }),
            y8 == (if y7 & 0x8000 != 0 { ((y7 << 1u16) ^ 0x1021u16) as u16 } else { (y7 << 1u16) as u16 }),
    ;
}

/// The CRC of any byte sequence followed by its own CRC, most significant byte first, is zero.
pub proof fn lemma_crc_residue_be(x: Seq<u8>)
    ensures
        crc_of(x + crc_be_bytes(crc_of(x))) == 0,
{
    let c = crc_of(x);
    lemma_crc_append(CRC_INITIAL, x, crc_be_bytes(c));
    let t = crc_be_bytes(c);
    assert(t.drop_last().drop_last() =~= Seq::<u8>::empty());
    assert(crc_from(c, t.drop_last().drop_last()) == c);
    assert(t.drop_last().last() == t[0]);
    assert(crc_from(c, t.drop_last()) == crc_byte(c, t[0]));
    assert(crc_from(c, t) == crc_byte(crc_byte(c, t[0]), t[1]));
    lemma_crc_be_residue(c);
}

/// The CRC of a byte sequence followed by its own CRC, least significant byte first, is zero
/// whenever the two bytes of that CRC are equal (so that both byte orders coincide).
pub proof fn lemma_crc_residue_le(x: Seq<u8>)
    requires
        (crc_of(x) & 0xff) as u8 == (crc_of(x) >> 8u16) as u8,
    ensures
        crc_of(x + crc_le_bytes(crc_of(x))) == 0,
{
    let c = crc_of(x);
    assert(crc_le_bytes(c) =~= crc_be_bytes(c));
    lemma_crc_residue_be(x);
}

} // verus!
