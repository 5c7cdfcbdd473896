use pngme::endian::{u32_from_be, u32_to_be};
use pngme::text::decimal_string;

#[test]
fn decimal_numerals() {
    assert_eq!(decimal_string(0), "0");
    assert_eq!(decimal_string(7), "7");
    assert_eq!(decimal_string(9), "9");
    assert_eq!(decimal_string(10), "10");
    assert_eq!(decimal_string(42), "42");
    assert_eq!(decimal_string(100), "100");
    assert_eq!(decimal_string(1009), "1009");
    assert_eq!(decimal_string(2882656334), "2882656334");
    assert_eq!(decimal_string(4294967295), "4294967295");
    assert_eq!(decimal_string(u64::MAX), "18446744073709551615");
}

#[test]
fn decimal_numerals_agree_with_the_standard_library() {
    let mut n: u64 = 1;
    for _ in 0..64 {
        assert_eq!(decimal_string(n), format!("{}", n));
        assert_eq!(decimal_string(n - 1), format!("{}", n - 1));
        n = n.wrapping_mul(2);
    }
}

#[test]
fn big_endian_bytes_of_an_integer() {
    assert_eq!(u32_to_be(0), [0, 0, 0, 0]);
    assert_eq!(u32_to_be(42), [0, 0, 0, 42]);
    assert_eq!(u32_to_be(0x0102_0304), [1, 2, 3, 4]);
    assert_eq!(u32_to_be(2882656334), [0xab, 0xd1, 0xd8, 0x4e]);
    assert_eq!(u32_to_be(u32::MAX), [255, 255, 255, 255]);
}

#[test]
fn an_integer_from_big_endian_bytes() {
    let bytes = [9, 1, 2, 3, 4, 0xab, 0xd1, 0xd8, 0x4e, 255, 255, 255, 255];
    assert_eq!(u32_from_be(&bytes, 1), 0x0102_0304);
    assert_eq!(u32_from_be(&bytes, 5), 2882656334);
    assert_eq!(u32_from_be(&bytes, 9), u32::MAX);
    assert_eq!(u32_from_be(&bytes, 0), 0x0901_0203);
}

#[test]
fn big_endian_bytes_agree_with_the_standard_library() {
    for x in [0u32, 1, 255, 256, 65535, 65536, 0x00ff_ffff, 0x0100_0000, 0xdead_beef, u32::MAX] {
        assert_eq!(u32_to_be(x), x.to_be_bytes());
        assert_eq!(u32_from_be(&x.to_be_bytes(), 0), x);
    }
}
