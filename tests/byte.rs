use dnstp::byte::{
    apply_split_bytes, four_byte_combine, four_byte_split, push_split_bytes, two_byte_combine,
    two_byte_extraction, two_byte_split,
};

#[test]
fn combine() {
    assert_eq!(769, two_byte_combine(3, 1));
}

#[test]
fn split() {
    assert_eq!((3, 1), two_byte_split(769));
}

#[test]
fn back_and_forth() {
    let aim = 30_000;

    let (split_1, split_2) = two_byte_split(aim);
    let combined = two_byte_combine(split_1, split_2);

    assert_eq!(aim, combined);
}

#[test]
fn four_bytes_both_ways() {
    assert_eq!((0x12, 0x34, 0x56, 0x78), four_byte_split(0x1234_5678));
    assert_eq!(0x1234_5678, four_byte_combine(0x12, 0x34, 0x56, 0x78));
    assert_eq!(u32::MAX, four_byte_combine(255, 255, 255, 255));
}

#[test]
fn extraction_and_writing() {
    let buffer = [0u8, 1, 2, 3];
    assert_eq!(258, two_byte_extraction(&buffer, 1));

    let mut out = [0u8; 4];
    apply_split_bytes(&mut out, 0xABCD, 2);
    assert_eq!([0, 0, 0xAB, 0xCD], out);

    let mut v = vec![9u8];
    push_split_bytes(&mut v, 0x0102);
    assert_eq!(vec![9, 1, 2], v);
}
