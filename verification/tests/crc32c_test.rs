//! The storage checksum.

use tick_compare::contracts::crc32c::crc32c;

#[test]
fn test_crc32c_standard_vector() {
    let input = b"123456789";
    let res = crc32c(input);
    assert_eq!(res, 0xE3069283, "CRC32C must match standard Castagnoli vector");
}

#[test]
fn crc32c_empty_and_zeros() {
    assert_eq!(crc32c(&[]), 0);
    assert_eq!(crc32c(&[0u8; 32]), 0x8A9136AA);
}
