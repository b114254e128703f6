//! The block header: payload length, state flags, a reserved forward
//! address and the digest of the payload, in that order on disk.

use crate::crypto::BlockHasher;
use crate::crypto::FIXED_HEADER_SIZE;
use crate::endian::append_bytes;
use crate::endian::bytes_equal;
use crate::endian::le_bytes;
use crate::endian::le_value;
use crate::endian::lemma_le_bytes_len;
use crate::endian::lemma_le_value_bound;
use crate::endian::lemma_le_value_of_le_bytes;
use crate::endian::lemma_pow256_widths;
use crate::endian::u32_from_le;
use crate::endian::u32_to_le;
use crate::endian::u64_from_le;
use crate::endian::u64_to_le;
use crate::error::StoreError;
use crate::error::StoreErrorKind;
use core::marker::PhantomData;
use vstd::prelude::*;
use vstd::slice::slice_subrange;
use vstd::slice::slice_to_vec;
use vstd::std_specs::cmp::PartialEqSpecImpl;

verus! {

/// The state flags of a live block.
pub const STATE_FLAG_ALLOC: u32 = 0;

/// The state flags of a deleted block: bit 0 is the delete flag.
pub const STATE_FLAG_DELETE: u32 = 1;

/// The forward address of a block that no block continues.
pub const DEFAULT_ADDR_NEXT: u64 = 0;

/// The number of leading header bytes that tell where the next block
/// starts: the payload length.
pub const READ_AHEAD_SIZE: usize = 8;

/// The offset of the state flags within a header.
pub const DELETE_OFFSET: usize = 8;

/// What a header holds.
pub struct HeaderState {
    /// The number of payload bytes that follow the header.
    pub size_data: u64,
    /// Bit 0 set: the block is deleted. The other bits are reserved.
    pub state_flag: u32,
    /// Reserved for chaining a continuation block; 0 when unused.
    pub address_next: u64,
    /// The digest of the payload.
    pub digest: Seq<u8>,
}

/// A header on disk: the three integers in little-endian order, then the
/// digest.
pub open spec fn header_image(state: HeaderState) -> Seq<u8> {
    le_bytes(state.size_data as nat, 8) + le_bytes(state.state_flag as nat, 4) + le_bytes(
        state.address_next as nat,
        8,
    ) + state.digest
}

/// The header that the first `20 + width` bytes of `bytes` hold, `width`
/// being the digest's.
pub open spec fn header_state(bytes: Seq<u8>, width: nat) -> HeaderState {
    HeaderState {
        size_data: le_value(bytes.subrange(0, 8)) as u64,
        state_flag: le_value(bytes.subrange(8, 12)) as u32,
        address_next: le_value(bytes.subrange(12, 20)) as u64,
        digest: bytes.subrange(20, 20 + width as int),
    }
}

/// The header of a new block that holds `payload`: live, continued by no
/// block, with the length and the digest of `payload`.
pub open spec fn block_header<T: BlockHasher>(payload: Seq<u8>) -> HeaderState {
    HeaderState {
        size_data: payload.len() as u64,
        state_flag: STATE_FLAG_ALLOC,
        address_next: DEFAULT_ADDR_NEXT,
        digest: T::digest(payload),
    }
}

/// From the end of a header's first 8 bytes, how far it is to the next
/// block's header: the rest of this header, then the payload.
pub open spec fn read_ahead_distance(prefix: Seq<u8>, width: nat) -> nat {
    le_value(prefix.subrange(0, 8)) + 12 + width
}

/// `flags` with bit 0 set if `value`, cleared if not.
pub open spec fn with_delete_flag(value: bool, flags: u32) -> u32 {
    if value {
        flags | 1u32
    } else {
        flags & 0xFFFF_FFFEu32
    }
}

/// A header image is 20 bytes and the digest.
pub proof fn lemma_header_image_len(state: HeaderState)
    ensures
        header_image(state).len() == 20 + state.digest.len(),
{
    lemma_le_bytes_len(state.size_data as nat, 8);
    lemma_le_bytes_len(state.state_flag as nat, 4);
    lemma_le_bytes_len(state.address_next as nat, 8);
}

/// Reading a header back from its image gives the header: payload length,
/// flags, forward address and digest all survive, whatever may follow the
/// image.
pub proof fn lemma_header_round_trip(state: HeaderState, rest: Seq<u8>)
    ensures
        header_state(header_image(state) + rest, state.digest.len()) == state,
{
    let size = le_bytes(state.size_data as nat, 8);
    let flag = le_bytes(state.state_flag as nat, 4);
    let next = le_bytes(state.address_next as nat, 8);
    let bytes = header_image(state) + rest;
    lemma_header_image_len(state);
    lemma_le_bytes_len(state.size_data as nat, 8);
    lemma_le_bytes_len(state.state_flag as nat, 4);
    lemma_le_bytes_len(state.address_next as nat, 8);
    lemma_pow256_widths();
    lemma_le_value_of_le_bytes(state.size_data as nat, 8);
    lemma_le_value_of_le_bytes(state.state_flag as nat, 4);
    lemma_le_value_of_le_bytes(state.address_next as nat, 8);
    assert(bytes.subrange(0, 8) =~= size);
    assert(bytes.subrange(8, 12) =~= flag);
    assert(bytes.subrange(12, 20) =~= next);
    assert(bytes.subrange(20, 20 + state.digest.len() as int) =~= state.digest);
}

/// The header of a block reads back from its bytes as it was written, for
/// every payload and every hasher.
pub proof fn lemma_block_header_round_trip<T: BlockHasher>(payload: Seq<u8>)
    ensures
        header_image(block_header::<T>(payload)).len() == 20 + T::digest_width(),
        header_state(header_image(block_header::<T>(payload)), T::digest_width())
            == block_header::<T>(payload),
{
    let state = block_header::<T>(payload);
    T::digest_has_width(payload);
    lemma_header_image_len(state);
    lemma_header_round_trip(state, Seq::<u8>::empty());
    assert(header_image(state) + Seq::<u8>::empty() =~= header_image(state));
}

/// A changed payload is detected wherever the hasher tells the two
/// payloads apart: the digest read back from the header of `payload` is
/// not the digest of `other`, which is when `verify` and
/// `deserialize_with_payload` report an integrity error.
pub proof fn lemma_integrity_detection<T: BlockHasher>(payload: Seq<u8>, other: Seq<u8>)
    requires
        T::digest(other) != T::digest(payload),
    ensures
        header_state(header_image(block_header::<T>(payload)), T::digest_width()).digest
            != T::digest(other),
{
    lemma_block_header_round_trip::<T>(payload);
}

/// Applied to the first 8 bytes of a header image, the read-ahead
/// arithmetic gives the payload length plus the 12 fixed bytes and the
/// digest that are left of the header.
pub proof fn lemma_read_ahead_of_image(state: HeaderState)
    ensures
        read_ahead_distance(header_image(state).subrange(0, 8), state.digest.len())
            == state.size_data + 12 + state.digest.len(),
{
    let prefix = header_image(state).subrange(0, 8);
    lemma_header_image_len(state);
    lemma_le_bytes_len(state.size_data as nat, 8);
    lemma_pow256_widths();
    lemma_le_value_of_le_bytes(state.size_data as nat, 8);
    assert(prefix.subrange(0, 8) =~= le_bytes(state.size_data as nat, 8));
}

/// Setting the delete flag sets bit 0, clearing it clears bit 0, and
/// neither touches any other bit.
pub proof fn lemma_delete_flag_toggle(flags: u32)
    ensures
        with_delete_flag(true, flags) & 1 == 1,
        with_delete_flag(false, flags) & 1 == 0,
        with_delete_flag(true, flags) >> 1 == flags >> 1,
        with_delete_flag(false, flags) >> 1 == flags >> 1,
{
    assert((flags | 1u32) & 1 == 1) by (bit_vector);
    assert((flags & 0xFFFF_FFFEu32) & 1 == 0) by (bit_vector);
    assert((flags | 1u32) >> 1 == flags >> 1) by (bit_vector);
    assert((flags & 0xFFFF_FFFEu32) >> 1 == flags >> 1) by (bit_vector);
}

/// Turns a header into the bytes that go to disk and back.
pub trait BlockSerializer {
    /// The header's bytes for a block that holds `data`.
    fn serialize(&mut self, data: &[u8]) -> &Vec<u8>;

    /// Fills the header from bytes read where a header starts.
    fn deserialize(&mut self, data: &Vec<u8>) -> Result<(), StoreError>;

    /// The size in bytes of a serialized header.
    fn size() -> usize;

    /// The number of leading header bytes that `read_ahead` needs.
    fn read_ahead_size() -> (n: usize)
        ensures
            n == READ_AHEAD_SIZE,
    ;

    /// The offset of the state flags within a header.
    fn delete_offset() -> (n: usize)
        ensures
            n == DELETE_OFFSET,
    ;

    /// The distance from the end of the read-ahead bytes to the next header.
    fn read_ahead(buffer: &Vec<u8>) -> Result<i64, StoreError>;
}

/// The delete flag of a header's state flags.
pub trait BlockFlags {
    /// The state flags that mark a block deleted.
    fn delete_flag() -> (flag: u32)
        ensures
            flag == STATE_FLAG_DELETE,
    ;

    /// `flags` with the delete flag set to `value`: bit 0 is `value`, and
    /// every other bit is as it was.
    fn set_delete_flag(value: bool, flags: u32) -> (out: u32)
        ensures
            out == with_delete_flag(value, flags),
            out & 1 == (if value { 1u32 } else { 0u32 }),
            out >> 1 == flags >> 1,
    ;
}

/// A block header whose digest is `T`'s.
#[derive(Debug)]
pub struct DataHeader<T: BlockHasher> {
    /// size of data in this block
    size_data: u64,
    /// state of block: bit 0 set once the block is deleted
    pub state_flag: u32,
    /// address of the next block that continues this one; 0 for none
    address_next: u64,
    /// digest of the data in this block
    digest: Vec<u8>,
    /// the header as last serialized
    header: Vec<u8>,
    phantom: PhantomData<T>,
}

impl<T: BlockHasher> View for DataHeader<T> {
    type V = HeaderState;

    closed spec fn view(&self) -> HeaderState {
        HeaderState {
            size_data: self.size_data,
            state_flag: self.state_flag,
            address_next: self.address_next,
            digest: self.digest@,
        }
    }
}

impl<T: BlockHasher> DataHeader<T> {
    /// A header of a live, empty block, with no digest yet.
    pub fn new() -> (made: Result<DataHeader<T>, StoreError>)
        ensures
            made is Ok,
            made->Ok_0@ == (HeaderState {
                size_data: 0,
                state_flag: STATE_FLAG_ALLOC,
                address_next: DEFAULT_ADDR_NEXT,
                digest: Seq::<u8>::empty(),
            }),
    {
        Ok(
            DataHeader::<T> {
                size_data: 0,
                state_flag: STATE_FLAG_ALLOC,
                address_next: DEFAULT_ADDR_NEXT,
                digest: Vec::new(),
                header: Vec::new(),
                phantom: PhantomData,
            },
        )
    }

    /// The payload length as a `usize`, where it fits in one.
    pub fn data_size(&self) -> (size: Result<usize, StoreError>)
        ensures
            match size {
                Ok(n) => n == self@.size_data,
                Err(e) => self@.size_data > usize::MAX && e.is_kind(StoreErrorKind::InvalidSize),
            },
    {
        if self.size_data > usize::MAX as u64 {
            Err(StoreError::of(StoreErrorKind::InvalidSize))
        } else {
            Ok(self.size_data as usize)
        }
    }

    /// The state flags.
    pub fn state_flag(&self) -> (flags: u32)
        ensures
            flags == self@.state_flag,
    {
        self.state_flag
    }

    /// The reserved forward address.
    pub fn address_next(&self) -> (address: u64)
        ensures
            address == self@.address_next,
    {
        self.address_next
    }

    /// The digest as stored.
    pub fn digest(&self) -> (digest: &Vec<u8>)
        ensures
            digest@ == self@.digest,
    {
        &self.digest
    }

    /// Checks `payload` against the stored digest.
    pub fn verify(&self, payload: &[u8]) -> (checked: Result<(), StoreError>)
        ensures
            match checked {
                Ok(()) => self@.digest == T::digest(payload@),
                Err(e) => self@.digest != T::digest(payload@) && e.is_kind(
                    StoreErrorKind::IntegrityError,
                ),
            },
    {
        let mut hasher = T::create();
        let same = bytes_equal(hasher.hash(payload), self.digest.as_slice());
        if same {
            Ok(())
        } else {
            Err(StoreError::of(StoreErrorKind::IntegrityError))
        }
    }

    /// Fills the header from `data` as `deserialize` does, then checks
    /// `payload` against the digest read.
    pub fn deserialize_with_payload(&mut self, data: &Vec<u8>, payload: &[u8]) -> (read: Result<
        (),
        StoreError,
    >)
        ensures
            match read {
                Ok(()) => {
                    &&& data@.len() >= 20 + T::digest_width()
                    &&& final(self)@ == header_state(data@, T::digest_width())
                    &&& final(self)@.digest == T::digest(payload@)
                },
                Err(e) => if data@.len() < 20 + T::digest_width() {
                    e.is_kind(StoreErrorKind::TruncatedHeader) && final(self)@ == old(self)@
                } else {
                    &&& e.is_kind(StoreErrorKind::IntegrityError)
                    &&& final(self)@ == header_state(data@, T::digest_width())
                    &&& final(self)@.digest != T::digest(payload@)
                },
            },
    {
        match self.deserialize(data) {
            Ok(()) => self.verify(payload),
            Err(e) => Err(e),
        }
    }
}

impl<T: BlockHasher> PartialEq for DataHeader<T> {
    /// Two headers are equal when they hold the same state.
    fn eq(&self, other: &Self) -> (same: bool) {
        self.size_data == other.size_data && self.state_flag == other.state_flag
            && self.address_next == other.address_next && bytes_equal(
            self.digest.as_slice(),
            other.digest.as_slice(),
        )
    }
}

impl<T: BlockHasher> PartialEqSpecImpl for DataHeader<T> {
    open spec fn obeys_eq_spec() -> bool {
        true
    }

    open spec fn eq_spec(&self, other: &Self) -> bool {
        self@ == other@
    }
}

impl<T: BlockHasher> BlockFlags for DataHeader<T> {
    #[inline]
    fn delete_flag() -> (flag: u32) {
        STATE_FLAG_DELETE
    }

    fn set_delete_flag(value: bool, flags: u32) -> (out: u32) {
        proof {
            lemma_delete_flag_toggle(flags);
        }
        if value {
            flags | STATE_FLAG_DELETE
        } else {
            flags & 0xFFFF_FFFEu32
        }
    }
}

impl<T: BlockHasher> BlockSerializer for DataHeader<T> {
    /// The header of a block that holds `data`: the length of `data`, the
    /// flags and forward address as they are, and the digest of `data`.
    fn serialize(&mut self, data: &[u8]) -> (out: &Vec<u8>)
        ensures
            final(self)@ == (HeaderState {
                size_data: data@.len() as u64,
                state_flag: old(self)@.state_flag,
                address_next: old(self)@.address_next,
                digest: T::digest(data@),
            }),
            final(self)@.size_data == data@.len(),
            out@ == header_image(final(self)@),
            out@.len() == 20 + T::digest_width(),
    {
        self.size_data = data.len() as u64;
        let mut hasher = T::create();
        self.digest = slice_to_vec(hasher.hash(data));
        let mut header = u64_to_le(self.size_data);
        let flags = u32_to_le(self.state_flag);
        append_bytes(&mut header, flags.as_slice());
        let next = u64_to_le(self.address_next);
        append_bytes(&mut header, next.as_slice());
        append_bytes(&mut header, self.digest.as_slice());
        self.header = header;
        proof {
            T::digest_has_width(data@);
            lemma_header_image_len(self@);
        }
        &self.header
    }

    /// Fills the header from the first `size()` bytes of `data`; the digest
    /// is taken as stored. Fewer bytes than that are a truncated header.
    fn deserialize(&mut self, data: &Vec<u8>) -> (read: Result<(), StoreError>)
        ensures
            match read {
                Ok(()) => {
                    &&& data@.len() >= 20 + T::digest_width()
                    &&& final(self)@ == header_state(data@, T::digest_width())
                },
                Err(e) => {
                    &&& data@.len() < 20 + T::digest_width()
                    &&& e.is_kind(StoreErrorKind::TruncatedHeader)
                    &&& final(self)@ == old(self)@
                },
            },
    {
        let size = Self::size();
        if data.len() < size {
            return Err(StoreError::of(StoreErrorKind::TruncatedHeader));
        }
        let bytes = data.as_slice();
        self.size_data = u64_from_le(bytes, 0);
        proof {
            lemma_le_value_bound(data@.subrange(8, 12));
            lemma_pow256_widths();
        }
        self.state_flag = u32_from_le(bytes, 8);
        self.address_next = u64_from_le(bytes, 12);
        self.digest = slice_to_vec(slice_subrange(bytes, FIXED_HEADER_SIZE, size));
        proof {
            lemma_le_value_bound(data@.subrange(0, 8));
            lemma_le_value_bound(data@.subrange(12, 20));
        }
        Ok(())
    }

    /// `20 + D`, for a digest of `D` bytes.
    #[inline]
    fn size() -> (n: usize)
        ensures
            n == 20 + T::digest_width(),
    {
        proof {
            T::header_fits();
        }
        FIXED_HEADER_SIZE + T::size()
    }

    #[inline]
    fn read_ahead_size() -> (n: usize) {
        READ_AHEAD_SIZE
    }

    /// Decodes the payload length from the first 8 bytes of `buffer` and
    /// adds what is left of the header after them.
    fn read_ahead(buffer: &Vec<u8>) -> (distance: Result<i64, StoreError>)
        ensures
            match distance {
                Ok(d) => buffer@.len() >= 8 && d == read_ahead_distance(
                    buffer@,
                    T::digest_width(),
                ),
                Err(e) => if buffer@.len() < 8 {
                    e.is_kind(StoreErrorKind::TruncatedHeader)
                } else {
                    &&& e.is_kind(StoreErrorKind::InvalidSize)
                    &&& read_ahead_distance(buffer@, T::digest_width()) > i64::MAX
                },
            },
    {
        if buffer.len() < READ_AHEAD_SIZE {
            return Err(StoreError::of(StoreErrorKind::TruncatedHeader));
        }
        let size_data = u64_from_le(buffer.as_slice(), 0);
        let rest: usize = Self::size() - Self::read_ahead_size();
        proof {
            lemma_le_value_bound(buffer@.subrange(0, 8));
            lemma_pow256_widths();
        }
        let limit: u64 = 0x7FFF_FFFF_FFFF_FFFF;
        if rest as u64 > limit || size_data > limit - rest as u64 {
            Err(StoreError::of(StoreErrorKind::InvalidSize))
        } else {
            Ok((size_data + rest as u64) as i64)
        }
    }

    #[inline]
    fn delete_offset() -> (n: usize) {
        DELETE_OFFSET
    }
}

} // verus!
