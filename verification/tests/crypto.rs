use fstore::crypto::B3BlockHasher;
use fstore::crypto::BlockHasher;
use fstore::crypto::NullBlockHasher;
use fstore::crypto::FIXED_HEADER_SIZE;

fn hex(bytes: &[u8]) -> String {
    let mut out = String::new();
    for b in bytes {
        out.push_str(&format!("{:02x}", b));
    }
    out
}

#[test]
fn blake3_hasher_gives_the_known_digest_of_empty_input() {
    let mut hasher = B3BlockHasher::create();
    assert_eq!(
        hex(hasher.hash(&[])),
        "af1349b9f5f9a1a6a0404dea36dcc9499bcb25c9adc112b7cc9a93cae41f3262"
    );
}

#[test]
fn blake3_hasher_agrees_with_blake3() {
    let inputs: [&[u8]; 4] = [&[], &[0], &[9, 9, 9, 9], &[0, 1, 3, 4, 5, 11, 33, 0]];
    for input in inputs {
        let mut hasher = B3BlockHasher::create();
        let digest = hasher.hash(input).to_vec();
        assert_eq!(digest.len(), 32);
        assert_eq!(digest.as_slice(), blake3::hash(input).as_bytes());
        assert_eq!(&hasher.hash_value, blake3::hash(input).as_bytes());
    }
}

#[test]
fn blake3_hasher_is_a_function_of_its_input() {
    let mut one = B3BlockHasher::create();
    let mut two = B3BlockHasher::default();
    let first = one.hash(&[1, 2, 3]).to_vec();
    one.hash(&[4, 5, 6]);
    assert_eq!(one.hash(&[1, 2, 3]), first.as_slice());
    assert_eq!(two.hash(&[1, 2, 3]), first.as_slice());
    assert_ne!(two.hash(&[1, 2, 4]), first.as_slice());
}

#[test]
fn new_blake3_hasher_holds_zeros() {
    assert_eq!(B3BlockHasher::create().hash_value, [0u8; 32]);
    assert_eq!(B3BlockHasher::default(), B3BlockHasher::create());
}

#[test]
fn digest_widths() {
    assert_eq!(B3BlockHasher::size(), 32);
    assert_eq!(NullBlockHasher::size(), 0);
    assert_eq!(FIXED_HEADER_SIZE, 20);
}

#[test]
fn null_hasher_gives_an_empty_digest() {
    let mut hasher = NullBlockHasher::create();
    assert!(hasher.hash(&[1, 2, 3]).is_empty());
    assert!(hasher.hash(&[]).is_empty());
    let mut other = NullBlockHasher::default();
    assert!(other.hash(&[0]).is_empty());
}
