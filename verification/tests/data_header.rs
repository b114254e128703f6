use fstore::crypto::B3BlockHasher;
use fstore::crypto::NullBlockHasher;
use fstore::data_header::BlockFlags;
use fstore::data_header::BlockSerializer;
use fstore::data_header::DataHeader;
use fstore::error::StoreErrorKind;

#[test]
fn data_header_can_create_data_block() {
    let _db = DataHeader::<B3BlockHasher>::new();
}

#[test]
fn data_header_can_serialize_data_block() {
    let data = [0, 0, 1, 0];
    println!(
        "{:?}",
        DataHeader::<NullBlockHasher>::new().unwrap().serialize(&data)
    );
}

#[test]
fn data_header_can_deserialize_data_block() {
    let data = [0u8];
    let mut serialized = DataHeader::<B3BlockHasher>::new().unwrap();
    let mut db2 = DataHeader::<B3BlockHasher>::new().unwrap();
    db2.deserialize(serialized.serialize(&data)).unwrap();
    db2.serialize(&data);
    assert_eq!(db2, serialized);
}

#[test]
fn data_header_can_set_delet_flag() {
    let mut tflag = 0b0;
    assert_eq!(DataHeader::<B3BlockHasher>::set_delete_flag(false, tflag), 0);
    assert_eq!(DataHeader::<B3BlockHasher>::set_delete_flag(true, tflag), 1);
    tflag = 0b1;
    assert_eq!(DataHeader::<B3BlockHasher>::set_delete_flag(false, tflag), 0);
    assert_eq!(DataHeader::<B3BlockHasher>::set_delete_flag(true, tflag), 1);
}

#[test]
fn new_header_is_live_and_empty() {
    let header = DataHeader::<B3BlockHasher>::new().unwrap();
    assert_eq!(header.data_size().unwrap(), 0);
    assert_eq!(header.state_flag, 0);
    assert_eq!(header.state_flag(), 0);
    assert_eq!(header.address_next(), 0);
    assert!(header.digest().is_empty());
}

#[test]
fn header_width_is_twenty_and_the_digest() {
    assert_eq!(DataHeader::<NullBlockHasher>::size(), 20);
    assert_eq!(DataHeader::<B3BlockHasher>::size(), 52);
    assert_eq!(DataHeader::<B3BlockHasher>::read_ahead_size(), 8);
    assert_eq!(DataHeader::<B3BlockHasher>::delete_offset(), 8);
    assert_eq!(DataHeader::<B3BlockHasher>::delete_flag(), 1);
}

#[test]
fn null_header_serializes_to_exact_bytes() {
    let payload = [1u8, 2, 3, 4, 5, 6, 7, 8, 9, 10, 11, 12, 13, 255];
    let mut header = DataHeader::<NullBlockHasher>::new().unwrap();
    let bytes = header.serialize(&payload).clone();
    assert_eq!(
        bytes,
        vec![0x0Eu8, 0, 0, 0, 0, 0, 0, 0, 0, 0, 0, 0, 0, 0, 0, 0, 0, 0, 0, 0]
    );
    assert_eq!(header.data_size().unwrap(), 14);
}

#[test]
fn blake3_header_ends_in_the_digest_of_the_payload() {
    let payload = [9u8, 9, 9, 9];
    let mut header = DataHeader::<B3BlockHasher>::new().unwrap();
    header.state_flag = 0x0102_0304;
    let bytes = header.serialize(&payload).clone();
    assert_eq!(bytes.len(), 52);
    assert_eq!(&bytes[0..8], &[4u8, 0, 0, 0, 0, 0, 0, 0]);
    assert_eq!(&bytes[8..12], &[4u8, 3, 2, 1]);
    assert_eq!(&bytes[12..20], &[0u8; 8]);
    assert_eq!(&bytes[20..], blake3::hash(&payload).as_bytes());
    assert_eq!(header.digest().as_slice(), blake3::hash(&payload).as_bytes());
}

#[test]
fn header_round_trips_through_its_bytes() {
    let payloads: [&[u8]; 4] = [&[], &[0], &[1, 2, 3], &[255; 300]];
    for payload in payloads {
        for flags in [0u32, 1, 0xDEAD_BEEF] {
            let mut written = DataHeader::<B3BlockHasher>::new().unwrap();
            written.state_flag = flags;
            let bytes = written.serialize(payload).clone();
            let mut read = DataHeader::<B3BlockHasher>::new().unwrap();
            read.deserialize(&bytes).unwrap();
            assert_eq!(read, written);
            assert_eq!(read.data_size().unwrap(), payload.len());
            assert_eq!(read.state_flag(), flags);
            assert_eq!(read.address_next(), 0);
            assert_eq!(read.digest().as_slice(), blake3::hash(payload).as_bytes());
        }
    }
}

#[test]
fn deserialize_reads_every_field() {
    let mut bytes = vec![0x01u8, 0x02, 0, 0, 0, 0, 0, 0];
    bytes.extend_from_slice(&[1, 0, 0, 0x80]);
    bytes.extend_from_slice(&[0xFF, 0xFF, 0xFF, 0xFF, 0xFF, 0xFF, 0xFF, 0xFF]);
    bytes.extend_from_slice(&[77, 88]);
    let mut header = DataHeader::<NullBlockHasher>::new().unwrap();
    header.deserialize(&bytes).unwrap();
    assert_eq!(header.data_size().unwrap(), 513);
    assert_eq!(header.state_flag, 0x8000_0001);
    assert_eq!(header.address_next(), u64::MAX);
    assert!(header.digest().is_empty());
}

#[test]
fn deserialize_rejects_a_truncated_header() {
    let mut header = DataHeader::<B3BlockHasher>::new().unwrap();
    let err = header.deserialize(&vec![1u8; 51]).unwrap_err();
    assert_eq!(err.kind, StoreErrorKind::TruncatedHeader);
    assert_eq!(err.message(), "Block header is truncated.");
    assert_eq!(header.data_size().unwrap(), 0);
    let mut null = DataHeader::<NullBlockHasher>::new().unwrap();
    assert_eq!(
        null.deserialize(&vec![1u8; 19]).unwrap_err().kind,
        StoreErrorKind::TruncatedHeader
    );
    null.deserialize(&vec![1u8; 20]).unwrap();
}

#[test]
fn read_ahead_is_payload_length_plus_rest_of_header() {
    let prefix = vec![14u8, 0, 0, 0, 0, 0, 0, 0];
    assert_eq!(DataHeader::<NullBlockHasher>::read_ahead(&prefix).unwrap(), 26);
    assert_eq!(DataHeader::<B3BlockHasher>::read_ahead(&prefix).unwrap(), 58);
    let mut header = DataHeader::<B3BlockHasher>::new().unwrap();
    let bytes = header.serialize(&[5u8; 1000]).clone();
    assert_eq!(DataHeader::<B3BlockHasher>::read_ahead(&bytes).unwrap(), 1000 + 12 + 32);
}

#[test]
fn read_ahead_rejects_short_and_oversized() {
    let short = DataHeader::<B3BlockHasher>::read_ahead(&vec![0u8; 7]).unwrap_err();
    assert_eq!(short.kind, StoreErrorKind::TruncatedHeader);
    let huge = DataHeader::<B3BlockHasher>::read_ahead(&vec![0xFFu8; 8]).unwrap_err();
    assert_eq!(huge.kind, StoreErrorKind::InvalidSize);
    assert_eq!(huge.message(), "Unexpected data size encountered.");
    let edge = vec![0xF3u8, 0xFF, 0xFF, 0xFF, 0xFF, 0xFF, 0xFF, 0x7F];
    assert_eq!(DataHeader::<NullBlockHasher>::read_ahead(&edge).unwrap(), i64::MAX);
    assert_eq!(
        DataHeader::<B3BlockHasher>::read_ahead(&edge).unwrap_err().kind,
        StoreErrorKind::InvalidSize
    );
}

#[test]
fn delete_flag_toggle_leaves_other_bits() {
    for flags in [0u32, 1, 2, 3, 0xFFFF_FFFE, 0xFFFF_FFFF, 0x8000_0001, 0x1234_5678] {
        let set = DataHeader::<NullBlockHasher>::set_delete_flag(true, flags);
        let cleared = DataHeader::<NullBlockHasher>::set_delete_flag(false, flags);
        assert_eq!(set & 1, 1);
        assert_eq!(cleared & 1, 0);
        assert_eq!(set >> 1, flags >> 1);
        assert_eq!(cleared >> 1, flags >> 1);
    }
    assert_eq!(DataHeader::<NullBlockHasher>::set_delete_flag(true, 6), 7);
    assert_eq!(DataHeader::<NullBlockHasher>::set_delete_flag(false, 7), 6);
}

#[test]
fn verify_detects_a_flipped_payload_byte() {
    let payload = vec![1u8, 244, 231, 13, 42, 1, 2, 3, 4, 5, 6, 7];
    let mut header = DataHeader::<B3BlockHasher>::new().unwrap();
    let bytes = header.serialize(&payload).clone();
    header.verify(&payload).unwrap();
    for i in 0..payload.len() {
        let mut flipped = payload.clone();
        flipped[i] ^= 0x10;
        let err = header.verify(&flipped).unwrap_err();
        assert_eq!(err.kind, StoreErrorKind::IntegrityError);
        assert_eq!(err.message(), "Block Hashes do not match.");
        let mut read = DataHeader::<B3BlockHasher>::new().unwrap();
        let err = read.deserialize_with_payload(&bytes, &flipped).unwrap_err();
        assert_eq!(err.kind, StoreErrorKind::IntegrityError);
        assert_eq!(read.data_size().unwrap(), 12);
    }
    let mut read = DataHeader::<B3BlockHasher>::new().unwrap();
    read.deserialize_with_payload(&bytes, &payload).unwrap();
    assert_eq!(read, header);
}

#[test]
fn payload_aware_deserialize_reports_truncation_first() {
    let mut read = DataHeader::<B3BlockHasher>::new().unwrap();
    let err = read.deserialize_with_payload(&vec![0u8; 10], &[1, 2]).unwrap_err();
    assert_eq!(err.kind, StoreErrorKind::TruncatedHeader);
}

#[test]
fn null_hasher_accepts_any_payload() {
    let mut header = DataHeader::<NullBlockHasher>::new().unwrap();
    header.serialize(&[1u8, 2, 3]);
    header.verify(&[1u8, 2, 3]).unwrap();
    header.verify(&[9u8, 9]).unwrap();
}

#[test]
fn data_size_of_empty_payload_is_zero() {
    let mut header = DataHeader::<B3BlockHasher>::new().unwrap();
    let bytes = header.serialize(&[]).clone();
    assert_eq!(header.data_size().unwrap(), 0);
    assert_eq!(&bytes[20..], blake3::hash(&[]).as_bytes());
}
