use canadensis::time::{Microseconds48, MicrosecondsDuration48, U48};
use std::cmp::Ordering;

fn u48(value: u64) -> U48 {
    U48::try_from(value).unwrap()
}

#[test]
fn u48_wrapping_sub() {
    assert_eq!(u48(0).wrapping_sub(u48(1)), u48(0xffff_ffff_ffff));
    assert_eq!(u48(0).wrapping_sub(u48(0x10)), u48(0xffff_ffff_fff0));
}

fn compare(ticks1: u64, ticks2: u64) -> Ordering {
    let ticks1 = u48(ticks1);
    let ticks2 = u48(ticks2);
    Microseconds48::new(ticks1).overflow_safe_compare(&Microseconds48::new(ticks2))
}

#[test]
fn instant_u48_compare() {
    // Basic equality
    assert_eq!(compare(0, 0), Ordering::Equal);
    assert_eq!(compare(127, 127), Ordering::Equal);
    assert_eq!(compare(255, 255), Ordering::Equal);
    assert_eq!(compare(0xffff_ffff_ffff, 0xffff_ffff_ffff), Ordering::Equal);

    // With a difference of less than or equal to 2^47 - 1, comparison assumes that overflow
    // hasn't happened and works normally
    assert_eq!(compare(0, 10), Ordering::Less);
    assert_eq!(compare(0, 0xff_fffe), Ordering::Less);
    assert_eq!(compare(0, 0xff_ffff), Ordering::Less);
    assert_eq!(compare(0, 0x7fff_ffff_fffe), Ordering::Less);
    assert_eq!(compare(0, 0x7fff_ffff_ffff), Ordering::Less);
    // When the difference reaches 2^47, comparison thinks that overflow has happened and the
    // result is reversed.
    assert_eq!(compare(0, 0x8000_0000_0000), Ordering::Greater);
    assert_eq!(compare(0, 0x8000_0000_0001), Ordering::Greater);
    assert_eq!(compare(0, 0xffff_ffff_ffff), Ordering::Greater);
}

fn duration(from: u64, to: u64) -> u64 {
    Microseconds48::new(u48(to))
        .duration_since(&Microseconds48::new(u48(from)))
        .as_microseconds()
        .as_u64()
}

#[test]
fn duration_u48() {
    // Basics
    assert_eq!(duration(0, 0), 0);
    assert_eq!(duration(0, 1), 1);
    assert_eq!(duration(0, 0xffff_ffff_ffff), 0xffff_ffff_ffff);
    // Overflow
    assert_eq!(duration(0xffff_ffff_ffff, 0), 1);
    assert_eq!(duration(0xffff_ffff_ffff, 1), 2);
    assert_eq!(
        duration(0xffff_ffff_ffff, 0xffff_ffff_fffe),
        0xffff_ffff_ffff
    );
}

#[test]
fn u48_wrapping_add_wraps() {
    assert_eq!(u48(0xffff_ffff_ffff).wrapping_add(u48(1)), u48(0));
    assert_eq!(u48(0xffff_ffff_fff0).wrapping_add(u48(0x20)), u48(0x10));
    assert_eq!(u48(3).wrapping_add(u48(4)), u48(7));
}

#[test]
fn u48_try_from_rejects_wide_values() {
    assert!(U48::try_from(0x1_0000_0000_0000).is_err());
    assert!(U48::try_from(0xffff_ffff_ffff).is_ok());
    assert!(U48::try_from_i32(-1).is_err());
    assert!(U48::try_from_i8(-3).is_err());
    assert_eq!(U48::try_from_i8(127).unwrap(), u48(127));
    assert!(U48::try_from_i16(-300).is_err());
    assert_eq!(U48::try_from_i16(300).unwrap(), u48(300));
    assert_eq!(U48::try_from_i32(5).unwrap(), u48(5));
    assert_eq!(u48(0x1_0000_0000).try_into_u32().is_err(), true);
    assert_eq!(u48(0xffff_ffff).try_into_u32().unwrap(), 0xffff_ffff);
}

#[test]
fn u48_arithmetic() {
    assert_eq!(u48(10).add(u48(5)), u48(15));
    assert_eq!(u48(10).sub(u48(4)), u48(6));
    assert_eq!(u48(10).mul(3), u48(30));
    assert_eq!(u48(10).div(3), u48(3));
    assert_eq!(u48(10).rem(3), u48(1));
    assert_eq!(u48(0x100).shr(4), u48(0x10));
    assert_eq!(U48::from_u8(200), u48(200));
    assert_eq!(U48::from_u16(60000), u48(60000));
    assert_eq!(U48::from_u32(0xdead_beef), u48(0xdead_beef));
    assert_eq!(U48::max_value(), u48(0xffff_ffff_ffff));
    assert_eq!(U48::min_value(), u48(0));
}

#[test]
fn overflow_safe_compare_at_half_range() {
    // compare(0, 2^47 - 1) is Less; compare(0, 2^47) is Greater (wrap assumed)
    assert_eq!(compare(0, 0x7fff_ffff_ffff), Ordering::Less);
    assert_eq!(compare(0, 0x8000_0000_0000), Ordering::Greater);
    assert_eq!(compare(10, 3), Ordering::Greater);
}

#[test]
fn add_duration_wraps() {
    let t = Microseconds48::new(u48(0xffff_ffff_fffe));
    let later = t.add_duration(MicrosecondsDuration48::new(u48(5)));
    assert_eq!(later.ticks(), u48(3));
}
