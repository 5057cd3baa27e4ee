use rust_core::mem::is_little_endian;

#[test]
fn u8_arithmetic_reports_overflow() {
    assert_eq!(rust_core::u8::add_with_overflow(200, 55), (255, false));
    assert_eq!(rust_core::u8::add_with_overflow(200, 56), (0, true));
    assert_eq!(rust_core::u8::sub_with_overflow(3, 4), (255, true));
    assert_eq!(rust_core::u8::sub_with_overflow(4, 4), (0, false));
    assert_eq!(rust_core::u8::mul_with_overflow(16, 16), (0, true));
    assert_eq!(rust_core::u8::mul_with_overflow(15, 17), (255, false));
}

#[test]
fn i8_arithmetic_reports_overflow() {
    assert_eq!(rust_core::i8::add_with_overflow(127, 1), (-128, true));
    assert_eq!(rust_core::i8::add_with_overflow(-128, -1), (127, true));
    assert_eq!(rust_core::i8::add_with_overflow(-3, 5), (2, false));
    assert_eq!(rust_core::i8::sub_with_overflow(-128, 1), (127, true));
    assert_eq!(rust_core::i8::mul_with_overflow(-128, -1), (-128, true));
    assert_eq!(rust_core::i8::mul_with_overflow(-8, 16), (-128, false));
}

#[test]
fn u16_arithmetic_reports_overflow() {
    assert_eq!(rust_core::u16::add_with_overflow(65535, 1), (0, true));
    assert_eq!(rust_core::u16::sub_with_overflow(0, 1), (65535, true));
    assert_eq!(rust_core::u16::mul_with_overflow(256, 256), (0, true));
    assert_eq!(rust_core::u16::mul_with_overflow(255, 257), (65535, false));
}

#[test]
fn u32_arithmetic_reports_overflow() {
    assert_eq!(rust_core::u32::add_with_overflow(u32::MAX, 2), (1, true));
    assert_eq!(rust_core::u32::sub_with_overflow(1, 2), (u32::MAX, true));
    assert_eq!(rust_core::u32::mul_with_overflow(1 << 16, 1 << 16), (0, true));
    assert_eq!(rust_core::u32::mul_with_overflow(3, 5), (15, false));
}

#[test]
fn u64_arithmetic_reports_overflow() {
    assert_eq!(rust_core::u64::add_with_overflow(u64::MAX, 2), (1, true));
    assert_eq!(rust_core::u64::sub_with_overflow(1, 2), (u64::MAX, true));
    assert_eq!(rust_core::u64::mul_with_overflow(1 << 32, 1 << 32), (0, true));
    assert_eq!(rust_core::u64::mul_with_overflow(1 << 31, 1 << 32), (1 << 63, false));
}

#[test]
fn uint_arithmetic_reports_overflow() {
    assert_eq!(rust_core::uint::add_with_overflow(usize::MAX, 2), (1, true));
    assert_eq!(rust_core::uint::sub_with_overflow(1, 2), (usize::MAX, true));
    assert_eq!(rust_core::uint::mul_with_overflow(usize::MAX, 2), (usize::MAX - 1, true));
    assert_eq!(rust_core::uint::mul_with_overflow(6, 7), (42, false));
}

#[test]
fn signed_arithmetic_reports_overflow() {
    assert_eq!(rust_core::i16::add_with_overflow(i16::MAX, 1), (i16::MIN, true));
    assert_eq!(rust_core::i16::sub_with_overflow(i16::MIN, 1), (i16::MAX, true));
    assert_eq!(rust_core::i16::mul_with_overflow(-2, 3), (-6, false));
    assert_eq!(rust_core::i32::add_with_overflow(i32::MAX, 1), (i32::MIN, true));
    assert_eq!(rust_core::i32::sub_with_overflow(-5, 7), (-12, false));
    assert_eq!(rust_core::i32::mul_with_overflow(i32::MIN, -1), (i32::MIN, true));
    assert_eq!(rust_core::i64::add_with_overflow(i64::MIN, -1), (i64::MAX, true));
    assert_eq!(rust_core::i64::sub_with_overflow(0, i64::MIN), (i64::MIN, true));
    assert_eq!(rust_core::i64::mul_with_overflow(1 << 62, 2), (i64::MIN, true));
    assert_eq!(rust_core::sint::add_with_overflow(isize::MAX, 1), (isize::MIN, true));
    assert_eq!(rust_core::sint::sub_with_overflow(-1, 1), (-2, false));
    assert_eq!(rust_core::sint::mul_with_overflow(isize::MIN, -1), (isize::MIN, true));
    assert_eq!(rust_core::sint::mul_with_overflow(-4, 5), (-20, false));
}

#[test]
fn bswap_turns_the_bytes_round() {
    assert_eq!(rust_core::u16::bswap(0x1234), 0x3412);
    assert_eq!(rust_core::u32::bswap(0x12345678), 0x78563412);
    assert_eq!(rust_core::u64::bswap(0x0123456789abcdef), 0xefcdab8967452301);
    assert_eq!(rust_core::i16::bswap(0x00ff), -256);
    assert_eq!(rust_core::i32::bswap(0x000000ff), -16777216);
    assert_eq!(rust_core::i64::bswap(1), 1 << 56);
    assert_eq!(rust_core::uint::bswap(1), 1usize.swap_bytes());
    assert_eq!(rust_core::sint::bswap(-2), (-2isize).swap_bytes());
}

#[test]
fn to_be_and_to_le_follow_the_machine() {
    assert_eq!(is_little_endian(), 1u16.to_le() == 1);
    assert_eq!(rust_core::u16::to_be(0x1234), 0x1234u16.to_be());
    assert_eq!(rust_core::u16::to_le(0x1234), 0x1234u16.to_le());
    assert_eq!(rust_core::u32::to_be(0x12345678), 0x12345678u32.to_be());
    assert_eq!(rust_core::u32::to_le(0x12345678), 0x12345678u32.to_le());
    assert_eq!(rust_core::u64::to_be(0x0123456789abcdef), 0x0123456789abcdefu64.to_be());
    assert_eq!(rust_core::u64::to_le(0x0123456789abcdef), 0x0123456789abcdefu64.to_le());
    assert_eq!(rust_core::i16::to_be(0x1234), 0x1234i16.to_be());
    assert_eq!(rust_core::i16::to_le(0x1234), 0x1234i16.to_le());
    assert_eq!(rust_core::i32::to_be(-2), (-2i32).to_be());
    assert_eq!(rust_core::i32::to_le(-2), (-2i32).to_le());
    assert_eq!(rust_core::i64::to_be(77), 77i64.to_be());
    assert_eq!(rust_core::i64::to_le(77), 77i64.to_le());
    assert_eq!(rust_core::uint::to_be(77), 77usize.to_be());
    assert_eq!(rust_core::uint::to_le(77), 77usize.to_le());
    assert_eq!(rust_core::sint::to_be(-77), (-77isize).to_be());
    assert_eq!(rust_core::sint::to_le(-77), (-77isize).to_le());
}

#[test]
fn mem_swap_and_replace() {
    let mut a = 1;
    let mut b = 2;
    rust_core::mem::swap(&mut a, &mut b);
    assert_eq!((a, b), (2, 1));
    assert_eq!(rust_core::mem::replace(&mut a, 9), 2);
    assert_eq!(a, 9);
}

#[test]
fn sizes_and_alignments() {
    assert_eq!(rust_core::mem::size_of::<u32>(), 4);
    assert_eq!(rust_core::mem::size_of_val(&0u64), 8);
    assert_eq!(rust_core::mem::nonzero_size_of::<u32>(), 1);
    assert_eq!(rust_core::mem::nonzero_size_of::<()>(), 0);
    assert_eq!(rust_core::mem::nonzero_size_of_val(&7u8), 1);
    assert_eq!(rust_core::mem::min_align_of::<u16>(), 2);
    assert_eq!(rust_core::mem::min_align_of_val(&0u8), 1);
}

#[test]
fn rc_shares_one_value() {
    let a = rust_core::rc::Rc::new(vec![1, 2]);
    let b = rust_core::clone::Clone::clone(&a);
    assert_eq!(a.borrow(), &vec![1, 2]);
    assert!(std::ptr::eq(a.borrow(), b.borrow()));
    let x = rust_core::rc::Rc::new(3u8);
    let y = rust_core::rc::Rc::new(4u8);
    assert!(rust_core::order::Ord::lt(&x, &y));
    assert!(rust_core::order::Ord::le(&x, &y));
    assert!(rust_core::order::Ord::gt(&y, &x));
    assert!(rust_core::order::Ord::ge(&y, &x));
    assert!(rust_core::order::Eq::ne(&x, &y));
    assert!(rust_core::order::Eq::eq(&x, &rust_core::rc::Rc::new(3u8)));
}

#[test]
fn byte_order_on_either_kind_of_machine() {
    assert_eq!(rust_core::u16::to_be_on(0x1234, true), 0x3412);
    assert_eq!(rust_core::u16::to_be_on(0x1234, false), 0x1234);
    assert_eq!(rust_core::u16::to_le_on(0x1234, true), 0x1234);
    assert_eq!(rust_core::u16::to_le_on(0x1234, false), 0x3412);
    assert_eq!(rust_core::u32::to_be_on(0x12345678, true), 0x78563412);
    assert_eq!(rust_core::u32::to_be_on(0x12345678, false), 0x12345678);
    assert_eq!(rust_core::u32::to_le_on(0x12345678, true), 0x12345678);
    assert_eq!(rust_core::u32::to_le_on(0x12345678, false), 0x78563412);
    assert_eq!(rust_core::u64::to_be_on(1, true), 1 << 56);
    assert_eq!(rust_core::u64::to_be_on(1, false), 1);
    assert_eq!(rust_core::u64::to_le_on(1, true), 1);
    assert_eq!(rust_core::u64::to_le_on(1, false), 1 << 56);
    assert_eq!(rust_core::i16::to_be_on(0x00ff, true), -256);
    assert_eq!(rust_core::i16::to_be_on(0x00ff, false), 0x00ff);
    assert_eq!(rust_core::i16::to_le_on(0x00ff, true), 0x00ff);
    assert_eq!(rust_core::i16::to_le_on(0x00ff, false), -256);
    assert_eq!(rust_core::i32::to_be_on(0xff, true), -16777216);
    assert_eq!(rust_core::i32::to_be_on(0xff, false), 0xff);
    assert_eq!(rust_core::i32::to_le_on(0xff, true), 0xff);
    assert_eq!(rust_core::i32::to_le_on(0xff, false), -16777216);
    assert_eq!(rust_core::i64::to_be_on(1, true), 1 << 56);
    assert_eq!(rust_core::i64::to_be_on(1, false), 1);
    assert_eq!(rust_core::i64::to_le_on(1, true), 1);
    assert_eq!(rust_core::i64::to_le_on(1, false), 1 << 56);
    assert_eq!(rust_core::uint::to_be_on(1, true), 1usize.swap_bytes());
    assert_eq!(rust_core::uint::to_be_on(1, false), 1);
    assert_eq!(rust_core::uint::to_le_on(1, true), 1);
    assert_eq!(rust_core::uint::to_le_on(1, false), 1usize.swap_bytes());
    assert_eq!(rust_core::sint::to_be_on(-2, true), (-2isize).swap_bytes());
    assert_eq!(rust_core::sint::to_be_on(-2, false), -2);
    assert_eq!(rust_core::sint::to_le_on(-2, true), -2);
    assert_eq!(rust_core::sint::to_le_on(-2, false), (-2isize).swap_bytes());
}

#[test]
fn the_bytes_of_one_tell_the_byte_order() {
    assert!(rust_core::mem::low_byte_first(&[1, 0]));
    assert!(!rust_core::mem::low_byte_first(&[0, 1]));
    assert_eq!(rust_core::mem::low_byte_first(&1u16.to_ne_bytes()), is_little_endian());
}

#[test]
fn the_preferred_alignment_is_the_one_that_is_needed() {
    assert_eq!(rust_core::mem::pref_align_of::<u8>(), 1);
    assert_eq!(rust_core::mem::pref_align_of::<u16>(), std::mem::align_of::<u16>());
    assert_eq!(rust_core::mem::pref_align_of_val(&7u32), rust_core::mem::min_align_of::<u32>());
}
