use fstore::data_block::BlockChecksum;
use fstore::data_block::BlockFlags;
use fstore::data_block::BlockSerializer;
use fstore::data_block::DataBlock;
use fstore::error::StoreErrorKind;

struct ByteSum;

impl BlockChecksum for ByteSum {
    fn checksum_of(&self, _data: vstd::seq::Seq<u8>) -> u32 {
        unreachable!()
    }

    fn calculate(&self, data: &[u8]) -> u32 {
        data.iter().map(|b| *b as u32).sum()
    }
}

#[test]
fn data_block_can_create_data_block() {
    let _db = DataBlock::new(&vec![0u8; 8], None).unwrap();
}

#[test]
fn data_block_can_serialize_data_block() {
    println!(
        "{:?}",
        DataBlock::new(&vec!(0u8; 16), None).unwrap().serialize()
    );
}

#[test]
fn data_block_can_deserialize_data_block() {
    let mut serialized = DataBlock::new(&vec![50, 24, 24, 100], None).unwrap();
    let mut db2 = DataBlock::new(&Vec::<u8>::new(), None).unwrap();
    db2.deserialize(serialized.serialize()).unwrap();
    db2.serialize();
    assert_eq!(db2, serialized);
}

#[test]
fn data_block_can_set_delet_flag() {
    let mut tflag = 0b0;
    assert_eq!(DataBlock::set_delete_flag(false, tflag), 0);
    assert_eq!(DataBlock::set_delete_flag(true, tflag), 1);
    tflag = 0b1;
    assert_eq!(DataBlock::set_delete_flag(false, tflag), 0);
    assert_eq!(DataBlock::set_delete_flag(true, tflag), 1);
}

#[test]
fn data_block_serializes_to_exact_bytes() {
    let mut db = DataBlock::new(&vec![0u8; 16], None).unwrap();
    assert_eq!(
        db.serialize(),
        &vec![16u8, 0, 0, 0, 0, 0, 0, 0, 0, 0, 0, 0, 0, 0, 0, 0, 0, 0, 0, 0, 0, 0, 0, 0]
    );
    assert_eq!(DataBlock::size(), 24);
    assert_eq!(DataBlock::read_ahead_size(), 8);
    assert_eq!(DataBlock::delete_offset(), 8);
    assert_eq!(DataBlock::delete_flag(), 1);
}

#[test]
fn data_block_keeps_the_checksum_it_is_given() {
    let sum = ByteSum;
    let data = vec![1u8, 2, 3, 250];
    let mut db = DataBlock::new(&data, Some(&sum)).unwrap();
    assert_eq!(db.checksum(), 256);
    assert_eq!(db, DataBlock::with_checksum(&data, 256));
    assert_eq!(DataBlock::new(&data, None).unwrap().checksum(), 0);
    let bytes = db.serialize().clone();
    assert_eq!(&bytes[20..24], &[0u8, 1, 0, 0]);
    assert_eq!(db.data_size().unwrap(), 4);
    let mut back = DataBlock::new(&[], None).unwrap();
    assert!(back != db);
    back.deserialize(&bytes).unwrap();
    assert_eq!(back, db);
}

#[test]
fn data_block_rejects_a_truncated_header() {
    let mut db = DataBlock::new(&[7u8], None).unwrap();
    let err = db.deserialize(&vec![0u8; 23]).unwrap_err();
    assert_eq!(err.kind, StoreErrorKind::TruncatedHeader);
    assert_eq!(db.data_size().unwrap(), 1);
}

#[test]
fn data_block_read_ahead_adds_the_rest_of_the_header() {
    assert_eq!(DataBlock::read_ahead(&vec![14u8, 0, 0, 0, 0, 0, 0, 0]).unwrap(), 30);
    assert_eq!(DataBlock::read_ahead(&vec![0u8, 1, 0, 0, 0, 0, 0, 0, 9, 9]).unwrap(), 272);
    let short = DataBlock::read_ahead(&vec![1u8, 2, 3]).unwrap_err();
    assert_eq!(short.kind, StoreErrorKind::TruncatedHeader);
    let huge = DataBlock::read_ahead(&vec![0xFFu8; 8]).unwrap_err();
    assert_eq!(huge.kind, StoreErrorKind::InvalidSize);
    let edge = vec![0xEFu8, 0xFF, 0xFF, 0xFF, 0xFF, 0xFF, 0xFF, 0x7F];
    assert_eq!(DataBlock::read_ahead(&edge).unwrap(), i64::MAX);
}

#[test]
fn data_block_delete_flag_leaves_other_bits() {
    for flags in [0u32, 1, 2, 3, 0xFFFF_FFFE, 0xFFFF_FFFF, 0x8000_0001, 0x1234_5678] {
        let set = DataBlock::set_delete_flag(true, flags);
        let cleared = DataBlock::set_delete_flag(false, flags);
        assert_eq!(set & 1, 1);
        assert_eq!(cleared & 1, 0);
        assert_eq!(set >> 1, flags >> 1);
        assert_eq!(cleared >> 1, flags >> 1);
    }
}
