use canadensis::crc::{crc16, crc_add_bytes};
use canadensis::cursor::{ReadCursor, WriteCursor};

#[derive(Debug, PartialEq)]
struct Inner {
    a: bool,
    b: bool,
    c: bool,
    // Really 5 bits
    d: u8,
}

#[derive(Debug, PartialEq)]
struct Outer {
    // Really 13 bits
    a: u16,
    /// A sealed 8-bit composite type
    inner: Inner,
    // Really 41 bits
    b: u64,
}

/// Sealed: the extent is the size
const INNER_EXTENT_BYTES: usize = 1;

fn serialize_inner(value: &Inner, cursor: &mut WriteCursor) {
    cursor.write_bool(value.a);
    cursor.write_bool(value.b);
    cursor.write_bool(value.c);
    cursor.write_bits(value.d as u64, 5);
}

fn deserialize_inner(cursor: &mut ReadCursor) -> Inner {
    Inner {
        a: cursor.read_bool(),
        b: cursor.read_bool(),
        c: cursor.read_bool(),
        d: cursor.read_bits(5) as u8,
    }
}

fn serialize_outer_to_bytes(value: &Outer, bytes: &mut [u8]) {
    let mut cursor = WriteCursor::new(vec![0u8; bytes.len()]);
    cursor.write_bits(value.a as u64, 13);
    cursor.align_to_8_bits();
    // composite: aligned before and after
    cursor.align_to_8_bits();
    serialize_inner(&value.inner, &mut cursor);
    cursor.align_to_8_bits();
    cursor.align_to_8_bits();
    cursor.write_bits(value.b, 41);
    bytes.copy_from_slice(&cursor.into_bytes());
}

fn deserialize_outer_from_bytes(bytes: &[u8]) -> Outer {
    let mut cursor = ReadCursor::new(bytes.to_vec());
    let a = cursor.read_bits(13) as u16;
    cursor.align_to_8_bits();
    let mut inner_cursor = cursor.read_composite(INNER_EXTENT_BYTES);
    let inner = deserialize_inner(&mut inner_cursor);
    cursor.align_to_8_bits();
    let b = cursor.read_bits(41);
    Outer { a, inner, b }
}

#[test]
fn round_trip_1() {
    let value = Outer {
        a: 0x1621,
        inner: Inner {
            a: false,
            b: true,
            c: true,
            d: 0x19,
        },
        b: 0x137ab90ceda,
    };

    let expected_bytes: [u8; 9] = [
        // value.a and 3 bits of padding
        0x21, 0x16,
        // value.inner
        0b11001_110,
        // value.b and 7 bits of padding
        0xda, 0xce, 0x90, 0xab, 0x37, 0x01,
    ];

    let mut actual_bytes = [0u8; 9];
    serialize_outer_to_bytes(&value, &mut actual_bytes);

    assert_eq!(expected_bytes, actual_bytes);

    let deserialized = deserialize_outer_from_bytes(&actual_bytes);
    assert_eq!(value, deserialized);
}

#[test]
fn read_past_end_is_zero() {
    let mut cursor = ReadCursor::new(vec![0xff]);
    assert_eq!(cursor.read_bits(4), 0xf);
    assert_eq!(cursor.read_bits(8), 0xf);
    assert_eq!(cursor.read_bits(16), 0);
    assert!(!cursor.read_bool());
}

#[test]
fn composite_extent_truncates_and_zero_extends() {
    // An extent of 2 bytes, of which the reader only reads one: the outer cursor still moves
    // past both
    let mut cursor = ReadCursor::new(vec![0x01, 0xaa, 0xbb, 0xcc]);
    let _ = cursor.read_bool();
    let mut sub = cursor.read_composite(2);
    assert_eq!(cursor.bit_position(), 24);
    assert_eq!(sub.read_bits(8), 0xaa);
    assert_eq!(cursor.read_bits(8), 0xcc);
    // An extent that runs past the data reads zeros
    let mut tail = ReadCursor::new(vec![0x12]);
    let mut sub2 = tail.read_composite(4);
    assert_eq!(sub2.read_bits(32), 0x12);
}

#[test]
fn write_then_read_values() {
    let mut w = WriteCursor::new(vec![0u8; 16]);
    w.write_bits(0x5, 3);
    w.write_bool(true);
    w.write_bits(0xdead_beef_cafe_f00d, 64);
    w.align_to_8_bits();
    assert_eq!(w.bit_position() % 8, 0);
    w.write_bytes(&[1, 2, 3]);
    let bytes = w.into_bytes();
    let mut r = ReadCursor::new(bytes);
    assert_eq!(r.read_bits(3), 0x5);
    assert!(r.read_bool());
    assert_eq!(r.read_bits(64), 0xdead_beef_cafe_f00d);
    r.align_to_8_bits();
    assert_eq!(r.read_bits(8), 1);
    assert_eq!(r.read_bits(8), 2);
    assert_eq!(r.read_bits(8), 3);
}

#[test]
fn crc_check_value() {
    // CRC-16/CCITT-FALSE check value
    assert_eq!(crc16(b"123456789"), 0x29b1);
    assert_eq!(crc16(&[]), 0xffff);
    assert_eq!(crc16(&[0, 1, 2, 3, 4, 5, 6, 7, 8, 9]), 0xc241);
    assert_eq!(crc_add_bytes(crc16(b"1234"), b"56789"), 0x29b1);
}

#[test]
fn crc_residue() {
    let x = b"some payload bytes".to_vec();
    let c = crc16(&x);
    let mut be = x.clone();
    be.push((c >> 8) as u8);
    be.push((c & 0xff) as u8);
    assert_eq!(crc16(&be), 0);
    // With the CRC appended least significant byte first, the residue is zero only when both
    // bytes of the CRC are equal
    let mut le = vec![0u8];
    let c0 = crc16(&le);
    le.push((c0 & 0xff) as u8);
    le.push((c0 >> 8) as u8);
    assert_ne!(crc16(&le), 0);
}
