use pngme::text::{decimal_string, push_decimal};
use pngme::wire::{append_bytes, read_be, to_be_bytes};

#[test]
fn numbers_are_written_most_significant_byte_first() {
    assert_eq!(to_be_bytes(0), [0, 0, 0, 0]);
    assert_eq!(to_be_bytes(42), [0, 0, 0, 42]);
    assert_eq!(to_be_bytes(0x0102_0304), [1, 2, 3, 4]);
    assert_eq!(to_be_bytes(2882656334), [0xab, 0xd1, 0xd8, 0x4e]);
    assert_eq!(to_be_bytes(u32::MAX), [255, 255, 255, 255]);
}

#[test]
fn numbers_are_read_where_they_stand() {
    let bytes = [9, 1, 2, 3, 4, 9, 255, 255, 255, 255];
    assert_eq!(read_be(&bytes, 1), 0x0102_0304);
    assert_eq!(read_be(&bytes, 0), 0x0901_0203);
    assert_eq!(read_be(&bytes, 6), u32::MAX);
}

#[test]
fn what_is_written_is_read_back() {
    for n in [0u32, 1, 255, 256, 65535, 65536, 0x00ff_ffff, 0x0100_0000, 0x8000_0000, u32::MAX] {
        assert_eq!(to_be_bytes(n), n.to_be_bytes());
        assert_eq!(read_be(&to_be_bytes(n), 0), n);
    }
}

#[test]
fn bytes_are_appended_in_order() {
    let mut out = vec![1u8, 2];
    append_bytes(&mut out, &[3, 4, 5]);
    append_bytes(&mut out, &[]);
    append_bytes(&mut out, &[6]);
    assert_eq!(out, vec![1, 2, 3, 4, 5, 6]);
}

#[test]
fn numbers_in_decimal() {
    assert_eq!(decimal_string(0), "0");
    assert_eq!(decimal_string(7), "7");
    assert_eq!(decimal_string(10), "10");
    assert_eq!(decimal_string(42), "42");
    assert_eq!(decimal_string(1009), "1009");
    assert_eq!(decimal_string(2882656334), "2882656334");
    assert_eq!(decimal_string(u64::MAX), "18446744073709551615");
}

#[test]
fn decimal_digits_are_appended() {
    let mut out = b"n=".to_vec();
    push_decimal(&mut out, 305);
    assert_eq!(out, b"n=305".to_vec());
}
