use fstore::endian::u32_from_le;
use fstore::endian::u32_to_le;
use fstore::endian::u64_from_le;
use fstore::endian::u64_to_le;

#[test]
fn u64_encodes_low_byte_first() {
    assert_eq!(u64_to_le(0), vec![0u8; 8]);
    assert_eq!(u64_to_le(19), vec![0x13u8, 0, 0, 0, 0, 0, 0, 0]);
    assert_eq!(
        u64_to_le(0x0102_0304_0506_0708),
        vec![8u8, 7, 6, 5, 4, 3, 2, 1]
    );
    assert_eq!(u64_to_le(u64::MAX), vec![0xFFu8; 8]);
}

#[test]
fn u32_encodes_low_byte_first() {
    assert_eq!(u32_to_le(1), vec![1u8, 0, 0, 0]);
    assert_eq!(u32_to_le(0xAABB_CCDD), vec![0xDDu8, 0xCC, 0xBB, 0xAA]);
    assert_eq!(u32_to_le(u32::MAX), vec![0xFFu8; 4]);
}

#[test]
fn decoding_reads_at_the_offset() {
    let data = [9u8, 8, 7, 6, 5, 4, 3, 2, 1, 0, 0xFF, 0xEE];
    assert_eq!(u64_from_le(&data, 0), 0x0203_0405_0607_0809);
    assert_eq!(u64_from_le(&data, 4), 0xEEFF_0001_0203_0405);
    assert_eq!(u32_from_le(&data, 0), 0x0607_0809);
    assert_eq!(u32_from_le(&data, 8), 0xEEFF_0001);
}

#[test]
fn encoding_agrees_with_std_and_round_trips() {
    for value in [0u64, 1, 255, 256, 65_535, 1 << 32, u64::MAX - 1, u64::MAX] {
        let bytes = u64_to_le(value);
        assert_eq!(bytes, value.to_le_bytes().to_vec());
        assert_eq!(u64_from_le(&bytes, 0), value);
    }
    for value in [0u32, 1, 255, 256, 0x0100_0000, u32::MAX] {
        let bytes = u32_to_le(value);
        assert_eq!(bytes, value.to_le_bytes().to_vec());
        assert_eq!(u32_from_le(&bytes, 0), value);
    }
}
