use fstore::error::StoreError;
use fstore::error::StoreErrorKind;

#[test]
fn each_kind_has_its_message() {
    let cases = [
        (StoreErrorKind::InvalidDescriptor, "Invalid file descriptor."),
        (StoreErrorKind::TruncatedHeader, "Block header is truncated."),
        (StoreErrorKind::IntegrityError, "Block Hashes do not match."),
        (StoreErrorKind::OutOfBounds, "Value out of bounds."),
        (StoreErrorKind::InvalidSize, "Unexpected data size encountered."),
    ];
    for (kind, text) in cases {
        let e = StoreError::of(kind);
        assert_eq!(e.kind, kind);
        assert_eq!(e.message(), text);
        assert_eq!(e.error, text);
    }
}

#[test]
fn unreadable_version_has_its_own_message() {
    let e = StoreError::unreadable_version();
    assert_eq!(e.kind, StoreErrorKind::InvalidDescriptor);
    assert_eq!(e.message(), "Unexpected version info.");
}

#[test]
fn new_keeps_kind_and_message() {
    let e = StoreError::new(StoreErrorKind::OutOfBounds, "no block 7".to_string());
    assert_eq!(e.kind, StoreErrorKind::OutOfBounds);
    assert_eq!(e.message(), "no block 7");
    assert!(format!("{:?}", e).contains("no block 7"));
}
