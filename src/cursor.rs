//! Little-endian bit cursors for reading and writing bit-packed payloads
//!
//! Bit `i` of a buffer is bit `i % 8` of byte `i / 8`, least significant bit first. Integers
//! are written least significant bit first.

use vstd::arithmetic::div_mod::{lemma_div_denominator, lemma_mod_breakdown};
use vstd::arithmetic::power2::{lemma_pow2_pos, lemma_pow2_unfold, pow2};
use vstd::prelude::*;

verus! {

/// The bits of a byte buffer, in stream order
pub open spec fn buffer_bits(b: Seq<u8>) -> Seq<bool> {
    Seq::new(8 * b.len(), |i: int| (b[i / 8] >> ((i % 8) as u8)) & 1 == 1)
}

/// Bit `i` of a stream, where bits past the end read as zero
pub open spec fn bit_at(bits: Seq<bool>, i: int) -> bool {
    if 0 <= i < bits.len() {
        bits[i]
    } else {
        false
    }
}

/// The `n` bits of a stream that start at `pos`, zero past the end
pub open spec fn bit_window(bits: Seq<bool>, pos: int, n: nat) -> Seq<bool> {
    Seq::new(n, |i: int| bit_at(bits, pos + i))
}

/// The low `n` bits of `v`, least significant first
pub open spec fn nat_bits(v: nat, n: nat) -> Seq<bool> {
    Seq::new(n, |i: int| (v / pow2(i as nat)) % 2 == 1)
}

/// The number whose bits, least significant first, are `s`
pub open spec fn bits_value(s: Seq<bool>) -> nat
    decreases s.len(),
{
    if s.len() == 0 {
        0
    } else {
        (if s[0] {
            1nat
        } else {
            0nat
        }) + 2 * bits_value(s.drop_first())
    }
}

/// The stream after bits `pos .. pos + field.len()` are replaced by `field`
pub open spec fn overwrite(bits: Seq<bool>, pos: int, field: Seq<bool>) -> Seq<bool> {
    bits.subrange(0, pos) + field + bits.subrange(pos + field.len(), bits.len() as int)
}

/// Dropping the lowest bit of `v` shifts its bits down by one.
proof fn lemma_nat_bits_drop_first(v: nat, n: nat)
    requires
        n > 0,
    ensures
        nat_bits(v, n).drop_first() =~= nat_bits(v / 2, (n - 1) as nat),
{
    assert forall|i: int| 0 <= i < n - 1 implies nat_bits(v, n).drop_first()[i] == nat_bits(
        v / 2,
        (n - 1) as nat,
    )[i] by {
        lemma_pow2_unfold((i + 1) as nat);
        lemma_pow2_pos(i as nat);
        lemma_div_denominator(v as int, 2, pow2(i as nat) as int);
    }
}

/// The value of the low `n` bits of `v` is `v` modulo 2^n.
pub proof fn lemma_bits_value_nat_bits(v: nat, n: nat)
    ensures
        bits_value(nat_bits(v, n)) == v % pow2(n),
    decreases n,
{
    if n == 0 {
        vstd::arithmetic::power2::lemma2_to64();
    } else {
        lemma_nat_bits_drop_first(v, n);
        lemma_bits_value_nat_bits(v / 2, (n - 1) as nat);
        lemma_pow2_unfold(n);
        lemma_pow2_pos((n - 1) as nat);
        lemma_mod_breakdown(v as int, 2, pow2((n - 1) as nat) as int);
        vstd::arithmetic::power2::lemma2_to64();
        assert(pow2(0) == 1);
        assert(v / pow2(0) == v);
        assert(nat_bits(v, n)[0] == (v % 2 == 1));
    }
}

/// Writing an integer that fits in `n` bits at `pos` and then reading `n` bits at `pos` gives
/// the integer back; the bits outside the field are left as they were.
pub proof fn lemma_write_then_read(bits: Seq<bool>, pos: int, v: nat, n: nat)
    requires
        0 <= pos,
        pos + n <= bits.len(),
        v < pow2(n),
    ensures
        bits_value(bit_window(overwrite(bits, pos, nat_bits(v, n)), pos, n)) == v,
        overwrite(bits, pos, nat_bits(v, n)).len() == bits.len(),
        forall|i: int|
            0 <= i < bits.len() && !(pos <= i < pos + n) ==> #[trigger] overwrite(
                bits,
                pos,
                nat_bits(v, n),
            )[i] == bits[i],
{
    let w = overwrite(bits, pos, nat_bits(v, n));
    assert(bit_window(w, pos, n) =~= nat_bits(v, n));
    lemma_bits_value_nat_bits(v, n);
    vstd::arithmetic::div_mod::lemma_small_mod(v, pow2(n));
}


/// Where field `k` of a run of fields starts, relative to the first: the sum of the widths of
/// the fields before it (each field is a value and a width in bits)
pub open spec fn field_offset(fields: Seq<(nat, nat)>, k: int) -> int
    decreases k,
{
    if k <= 0 {
        0
    } else {
        field_offset(fields, k - 1) + fields[k - 1].1
    }
}

/// The stream after the fields are written one after another from `pos`
pub open spec fn write_fields(bits: Seq<bool>, pos: int, fields: Seq<(nat, nat)>) -> Seq<bool>
    decreases fields.len(),
{
    if fields.len() == 0 {
        bits
    } else {
        let k = fields.len() - 1;
        overwrite(
            write_fields(bits, pos, fields.drop_last()),
            pos + field_offset(fields, k),
            nat_bits(fields[k].0, fields[k].1),
        )
    }
}

proof fn lemma_field_offset_prefix(fields: Seq<(nat, nat)>, k: int)
    requires
        0 <= k < fields.len(),
    ensures
        field_offset(fields.drop_last(), k) == field_offset(fields, k),
    decreases k,
{
    if k > 0 {
        lemma_field_offset_prefix(fields, k - 1);
    }
}

proof fn lemma_field_offset_monotone(fields: Seq<(nat, nat)>, j: int, k: int)
    requires
        0 <= j <= k,
    ensures
        field_offset(fields, j) <= field_offset(fields, k),
    decreases k,
{
    if j < k {
        lemma_field_offset_monotone(fields, j, k - 1);
    }
}

/// Writing a run of fields, each holding a value that fits its width, one after another, and
/// then reading each field at its offset gives back the value written there.
pub proof fn lemma_write_fields_then_read(bits: Seq<bool>, pos: int, fields: Seq<(nat, nat)>)
    requires
        0 <= pos,
        pos + field_offset(fields, fields.len() as int) <= bits.len(),
        forall|k: int| 0 <= k < fields.len() ==> #[trigger] fields[k].0 < pow2(fields[k].1),
    ensures
        write_fields(bits, pos, fields).len() == bits.len(),
        forall|k: int|
            0 <= k < fields.len() ==> #[trigger] bits_value(
                bit_window(write_fields(bits, pos, fields), pos + field_offset(fields, k), fields[k].1),
            ) == fields[k].0,
    decreases fields.len(),
{
    if fields.len() > 0 {
        let n = fields.len() - 1;
        let init = fields.drop_last();
        assert forall|k: int| 0 <= k < init.len() implies #[trigger] init[k].0 < pow2(init[k].1) by {
            assert(init[k] == fields[k]);
        }
        lemma_field_offset_prefix(fields, n);
        lemma_field_offset_monotone(fields, 0, n);
        lemma_field_offset_monotone(fields, n, n + 1);
        lemma_write_fields_then_read(bits, pos, init);
        let before = write_fields(bits, pos, init);
        let off = pos + field_offset(fields, n);
        lemma_write_then_read(before, off, fields[n].0, fields[n].1);
        let after = write_fields(bits, pos, fields);
        assert forall|k: int| 0 <= k < fields.len() implies #[trigger] bits_value(
            bit_window(after, pos + field_offset(fields, k), fields[k].1),
        ) == fields[k].0 by {
            if k < n {
                lemma_field_offset_prefix(fields, k);
                lemma_field_offset_monotone(fields, k + 1, n);
                assert(init[k] == fields[k]);
                assert(bit_window(after, pos + field_offset(fields, k), fields[k].1) =~= bit_window(
                    before,
                    pos + field_offset(fields, k),
                    fields[k].1,
                ));
            }
        }
    }
}

proof fn lemma_set_bit(old: u8, s: u8, b: bool, new: u8, j: u8)
    requires
        s < 8,
        j < 8,
        new == if b {
            old | (1u8 << s)
        } else {
            old & !(1u8 << s)
        },
    ensures
        ((new >> j) & 1 == 1) == if j == s {
            b
        } else {
            (old >> j) & 1 == 1
        },
{
    if b {
        assert(((new >> j) & 1 == 1) == if j == s { true } else { (old >> j) & 1 == 1 })
            by (bit_vector)
            requires s < 8, j < 8, new == old | (1u8 << s);
    } else {
        assert(((new >> j) & 1 == 1) == if j == s { false } else { (old >> j) & 1 == 1 })
            by (bit_vector)
            requires s < 8, j < 8, new == old & !(1u8 << s);
    }
}

/// Reads bit `pos` of a byte buffer
fn get_bit(bytes: &Vec<u8>, pos: usize) -> (r: bool)
    ensures
        r == bit_at(buffer_bits(bytes@), pos as int),
{
    if pos / 8 < bytes.len() {
        let s: u8 = (pos % 8) as u8;
        (bytes[pos / 8] >> s) & 1 == 1
    } else {
        false
    }
}

/// Sets bit `pos` of a byte buffer
fn set_bit(bytes: &mut Vec<u8>, pos: usize, b: bool)
    requires
        pos < buffer_bits(old(bytes)@).len(),
    ensures
        buffer_bits(final(bytes)@) == buffer_bits(old(bytes)@).update(pos as int, b),
        final(bytes)@.len() == old(bytes)@.len(),
{
    let k: usize = pos / 8;
    let s: u8 = (pos % 8) as u8;
    let old_byte: u8 = bytes[k];
    let new_byte: u8 = if b {
        old_byte | (1u8 << s)
    } else {
        old_byte & !(1u8 << s)
    };
    let ghost before = bytes@;
    bytes.set(k, new_byte);
    proof {
        let nb = buffer_bits(bytes@);
        let ob = buffer_bits(before).update(pos as int, b);
        assert forall|i: int| 0 <= i < nb.len() implies nb[i] == ob[i] by {
            if i / 8 == k {
                lemma_set_bit(old_byte, s, b, new_byte, (i % 8) as u8);
            }
        }
        assert(nb =~= ob);
    }
}

/// A cursor that writes bits into a buffer, least significant bit first
pub struct WriteCursor {
    bytes: Vec<u8>,
    bit_pos: usize,
}

impl WriteCursor {
    /// The bits of the buffer
    pub closed spec fn bits(&self) -> Seq<bool> {
        buffer_bits(self.bytes@)
    }

    /// The bytes of the buffer
    pub closed spec fn bytes_spec(&self) -> Seq<u8> {
        self.bytes@
    }

    /// The position of the next bit to be written
    pub closed spec fn pos(&self) -> nat {
        self.bit_pos as nat
    }

    /// Creates a cursor at the start of a buffer
    pub fn new(bytes: Vec<u8>) -> (r: WriteCursor)
        ensures
            r.bytes_spec() == bytes@,
            r.bits() == buffer_bits(bytes@),
            r.pos() == 0,
    {
        WriteCursor { bytes, bit_pos: 0 }
    }

    /// The position of the next bit to be written
    pub fn bit_position(&self) -> (r: usize)
        ensures
            r == self.pos(),
    {
        self.bit_pos
    }

    /// Gives back the buffer
    pub fn into_bytes(self) -> (r: Vec<u8>)
        ensures
            r@ == self.bytes_spec(),
            buffer_bits(r@) == self.bits(),
    {
        self.bytes
    }

    /// Writes one bit
    pub fn write_bool(&mut self, value: bool)
        requires
            old(self).pos() < old(self).bits().len(),
            old(self).pos() + 1 < usize::MAX,
        ensures
            final(self).bits() == old(self).bits().update(old(self).pos() as int, value),
            final(self).pos() == old(self).pos() + 1,
            final(self).bytes_spec().len() == old(self).bytes_spec().len(),
    {
        set_bit(&mut self.bytes, self.bit_pos, value);
        self.bit_pos = self.bit_pos + 1;
    }

    /// Writes the low `n` bits of `value`, least significant first
    pub fn write_bits(&mut self, value: u64, n: u32)
        requires
            n <= 64,
            old(self).pos() + n <= old(self).bits().len(),
            old(self).pos() + n < usize::MAX,
        ensures
            final(self).bits() == overwrite(old(self).bits(), old(self).pos() as int, nat_bits(value as nat, n as nat)),
            final(self).pos() == old(self).pos() + n,
            final(self).bytes_spec().len() == old(self).bytes_spec().len(),
    {
        let ghost b0 = self.bits();
        let ghost p0 = self.pos() as int;
        let mut cur: u64 = value;
        let mut i: u32 = 0;
        proof {
            vstd::arithmetic::power2::lemma2_to64();
            assert(overwrite(b0, p0, nat_bits(value as nat, 0)) =~= b0);
        }
        while i < n
            invariant
                i <= n <= 64,
                p0 + n <= b0.len(),
                p0 + n < usize::MAX,
                self.pos() == p0 + i,
                self.bits().len() == b0.len(),
                self.bytes_spec().len() == old(self).bytes_spec().len(),
                self.bits() == overwrite(b0, p0, nat_bits(value as nat, i as nat)),
                cur == value as nat / pow2(i as nat),
            decreases n - i,
        {
            let bit = cur % 2 == 1;
            let ghost before = self.bits();
            self.write_bool(bit);
            proof {
                lemma_pow2_unfold((i + 1) as nat);
                lemma_pow2_pos(i as nat);
                lemma_div_denominator(value as int, pow2(i as nat) as int, 2);
                assert(self.bits() =~= overwrite(b0, p0, nat_bits(value as nat, (i + 1) as nat)));
            }
            cur = cur / 2;
            i = i + 1;
        }
    }

    /// Writes whole bytes
    pub fn write_bytes(&mut self, data: &[u8])
        requires
            old(self).pos() + 8 * data@.len() <= old(self).bits().len(),
            old(self).pos() + 8 * data@.len() < usize::MAX,
        ensures
            final(self).pos() == old(self).pos() + 8 * data@.len(),
            final(self).bytes_spec().len() == old(self).bytes_spec().len(),
            forall|k: int|
                0 <= k < data@.len() ==> #[trigger] bits_value(
                    bit_window(final(self).bits(), old(self).pos() + 8 * k, 8),
                ) == data@[k],
    {
        let ghost p0 = self.pos() as int;
        let mut i: usize = 0;
        while i < data.len()
            invariant
                i <= data@.len(),
                self.pos() == p0 + 8 * i,
                p0 + 8 * data@.len() <= self.bits().len(),
                p0 + 8 * data@.len() < usize::MAX,
                self.bytes_spec().len() == old(self).bytes_spec().len(),
                forall|k: int|
                    0 <= k < i ==> #[trigger] bits_value(bit_window(self.bits(), p0 + 8 * k, 8))
                        == data@[k],
            decreases data@.len() - i,
        {
            let ghost before = self.bits();
            self.write_bits(data[i] as u64, 8);
            proof {
                vstd::arithmetic::power2::lemma2_to64();
                lemma_write_then_read(before, p0 + 8 * i, data@[i as int] as nat, 8);
                assert forall|k: int| 0 <= k < i + 1 implies #[trigger] bits_value(
                    bit_window(self.bits(), p0 + 8 * k, 8),
                ) == data@[k] by {
                    if k < i {
                        assert(bit_window(self.bits(), p0 + 8 * k, 8) =~= bit_window(
                            before,
                            p0 + 8 * k,
                            8,
                        ));
                    }
                }
            }
            i = i + 1;
        }
    }

    /// Writes zero bits up to the next multiple of 8
    pub fn align_to_8_bits(&mut self)
        requires
            old(self).pos() <= old(self).bits().len(),
            old(self).pos() + 8 < usize::MAX,
        ensures
            final(self).pos() % 8 == 0,
            old(self).pos() <= final(self).pos() < old(self).pos() + 8,
            final(self).pos() <= final(self).bits().len(),
            final(self).bits() == overwrite(
                old(self).bits(),
                old(self).pos() as int,
                Seq::new((final(self).pos() - old(self).pos()) as nat, |i: int| false),
            ),
            final(self).bytes_spec().len() == old(self).bytes_spec().len(),
    {
        let ghost b0 = self.bits();
        let ghost p0 = self.pos() as int;
        let ghost up = p0 + (8 - p0 % 8) % 8;
        proof {
            assert(overwrite(b0, p0, Seq::new(0, |i: int| false)) =~= b0);
        }
        while self.bit_pos % 8 != 0
            invariant
                p0 <= self.pos() <= up,
                up % 8 == 0,
                up < p0 + 8,
                up <= b0.len(),
                p0 + 8 < usize::MAX,
                self.pos() <= b0.len(),
                b0.len() % 8 == 0,
                self.bits().len() == b0.len(),
                self.bytes_spec().len() == old(self).bytes_spec().len(),
                self.bits() == overwrite(b0, p0, Seq::new((self.pos() - p0) as nat, |i: int| false)),
            decreases p0 + 8 - self.pos(),
        {
            self.write_bool(false);
            proof {
                assert(self.bits() =~= overwrite(b0, p0, Seq::new((self.pos() - p0) as nat, |i: int| false)));
            }
        }
    }
}

/// A cursor that reads bits from a buffer, least significant bit first; past the end of the
/// buffer it reads zeros
pub struct ReadCursor {
    bytes: Vec<u8>,
    bit_pos: usize,
}

impl ReadCursor {
    /// The bits of the buffer
    pub closed spec fn bits(&self) -> Seq<bool> {
        buffer_bits(self.bytes@)
    }

    /// The position of the next bit to be read
    pub closed spec fn pos(&self) -> nat {
        self.bit_pos as nat
    }

    /// Creates a cursor at the start of a buffer
    pub fn new(bytes: Vec<u8>) -> (r: ReadCursor)
        ensures
            r.bits() == buffer_bits(bytes@),
            r.pos() == 0,
    {
        ReadCursor { bytes, bit_pos: 0 }
    }

    /// The position of the next bit to be read
    pub fn bit_position(&self) -> (r: usize)
        ensures
            r == self.pos(),
    {
        self.bit_pos
    }

    /// Reads one bit
    pub fn read_bool(&mut self) -> (r: bool)
        requires
            old(self).pos() < usize::MAX,
        ensures
            r == bit_at(old(self).bits(), old(self).pos() as int),
            final(self).bits() == old(self).bits(),
            final(self).pos() == old(self).pos() + 1,
    {
        let r = get_bit(&self.bytes, self.bit_pos);
        self.bit_pos = self.bit_pos + 1;
        r
    }

    /// Reads `n` bits as an integer, least significant first
    pub fn read_bits(&mut self, n: u32) -> (r: u64)
        requires
            n <= 64,
            old(self).pos() + n < usize::MAX,
        ensures
            r == bits_value(bit_window(old(self).bits(), old(self).pos() as int, n as nat)),
            final(self).bits() == old(self).bits(),
            final(self).pos() == old(self).pos() + n,
    {
        let ghost w = bit_window(self.bits(), self.pos() as int, n as nat);
        let mut r: u64 = 0;
        let mut i: u32 = n;
        proof {
            vstd::arithmetic::power2::lemma2_to64();
            assert(w.subrange(n as int, n as int) =~= Seq::<bool>::empty());
        }
        while i > 0
            invariant
                i <= n <= 64,
                self.pos() + n < usize::MAX,
                w == bit_window(self.bits(), self.pos() as int, n as nat),
                r == bits_value(w.subrange(i as int, n as int)),
                r < pow2((n - i) as nat),
            decreases i,
        {
            i = i - 1;
            let bit = get_bit(&self.bytes, self.bit_pos + i as usize);
            proof {
                assert(w.subrange(i as int, n as int).drop_first() =~= w.subrange(i + 1, n as int));
                vstd::arithmetic::power2::lemma2_to64();
                if n - i - 1 < 63 {
                    vstd::arithmetic::power2::lemma_pow2_strictly_increases((n - i - 1) as nat, 63);
                }
                lemma_pow2_unfold((n - i) as nat);
                assert(r < pow2((n - i - 1) as nat));
                vstd::arithmetic::power2::lemma2_to64_rest();
                assert(r < 0x8000_0000_0000_0000);
            }
            r = 2 * r + if bit {
                1u64
            } else {
                0u64
            };
        }
        assert(w.subrange(0, n as int) =~= w);
        self.bit_pos = self.bit_pos + n as usize;
        r
    }

    /// Skips to the next multiple of 8 bits
    pub fn align_to_8_bits(&mut self)
        requires
            old(self).pos() + 8 < usize::MAX,
        ensures
            final(self).pos() % 8 == 0,
            old(self).pos() <= final(self).pos() < old(self).pos() + 8,
            final(self).bits() == old(self).bits(),
    {
        let rem = self.bit_pos % 8;
        if rem != 0 {
            self.bit_pos = self.bit_pos + (8 - rem);
        }
    }

    /// Starts reading a composite value of `extent` bytes: aligns, hands back a cursor over
    /// those bytes (reading zeros past the end of this buffer), and moves this cursor past them
    ///
    /// Bytes of the extent that the caller does not read are skipped, and bytes it reads past
    /// the end of the data are zero.
    pub fn read_composite(&mut self, extent: usize) -> (r: ReadCursor)
        requires
            old(self).pos() + 8 + 8 * extent < usize::MAX,
        ensures
            ({
                let start = (old(self).pos() + 7) / 8;
                &&& r.pos() == 0
                &&& forall|i: int|
                    0 <= i < 8 * extent ==> #[trigger] bit_at(r.bits(), i) == bit_at(
                        old(self).bits(),
                        8 * start + i,
                    )
                &&& final(self).pos() == 8 * (start + extent)
                &&& final(self).pos() % 8 == 0
                &&& final(self).bits() == old(self).bits()
            }),
    {
        self.align_to_8_bits();
        let start: usize = self.bit_pos / 8;
        let len = self.bytes.len();
        let begin: usize = if start < len {
            start
        } else {
            len
        };
        let end: usize = if start + extent < len {
            start + extent
        } else {
            len
        };
        let sub = crate::frame::copy_range(self.bytes.as_slice(), begin, end);
        self.bit_pos = 8 * (start + extent);
        let r = ReadCursor { bytes: sub, bit_pos: 0 };
        proof {
            assert(start == (old(self).pos() + 7) / 8);
            assert forall|i: int| 0 <= i < 8 * extent implies #[trigger] bit_at(r.bits(), i)
                == bit_at(self.bits(), 8 * start + i) by {
                assert((8 * start + i) / 8 == start + i / 8);
                assert((8 * start + i) % 8 == i % 8);
            }
        }
        r
    }
}

/// Reading a field written by a write cursor gives the value written: after `write_bits` of a
/// value that fits in `n` bits, a read cursor over the same bytes at the same position reads
/// that value back.
pub proof fn lemma_cursor_round_trip(w: WriteCursor, w2: WriteCursor, value: u64, n: u32)
    requires
        n <= 64,
        (value as nat) < pow2(n as nat),
        w.pos() + n <= w.bits().len(),
        w2.bits() == overwrite(w.bits(), w.pos() as int, nat_bits(value as nat, n as nat)),
        w2.pos() == w.pos() + n,
    ensures
        bits_value(bit_window(w2.bits(), w.pos() as int, n as nat)) == value,
        w2.pos() == w.pos() + n,
{
    lemma_write_then_read(w.bits(), w.pos() as int, value as nat, n as nat);
}

} // verus!
