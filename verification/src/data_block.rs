//! The block header of files whose blocks carry a 32-bit checksum in place
//! of a digest: payload length, state flags, forward address, checksum.

use crate::data_header::header_image;
use crate::data_header::header_state;
use crate::data_header::lemma_delete_flag_toggle;
use crate::data_header::lemma_header_image_len;
use crate::data_header::lemma_header_round_trip;
use crate::data_header::read_ahead_distance;
use crate::data_header::with_delete_flag;
use crate::data_header::HeaderState;
use crate::data_header::DEFAULT_ADDR_NEXT;
use crate::data_header::DELETE_OFFSET;
use crate::data_header::READ_AHEAD_SIZE;
use crate::data_header::STATE_FLAG_ALLOC;
use crate::data_header::STATE_FLAG_DELETE;
use crate::endian::append_bytes;
use crate::endian::le_bytes;
use crate::endian::le_value;
use crate::endian::lemma_le_bytes_len;
use crate::endian::lemma_le_value_bound;
use crate::endian::lemma_le_value_of_le_bytes;
use crate::endian::lemma_pow256_widths;
use crate::endian::u32_from_le;
use crate::endian::u32_to_le;
use crate::endian::u64_from_le;
use crate::endian::u64_to_le;
use crate::error::StoreError;
use crate::error::StoreErrorKind;
use vstd::prelude::*;
use vstd::std_specs::cmp::PartialEqSpecImpl;

verus! {

/// The number of bytes of a checksum.
pub const CHECKSUM_SIZE: usize = 4;

/// The number of bytes of a header that ends in a checksum.
pub const BLOCK_HEADER_SIZE: usize = 24;

/// What a header with a checksum holds.
pub struct BlockState {
    /// The number of payload bytes that follow the header.
    pub size_data: u64,
    /// Bit 0 set: the block is deleted. The other bits are reserved.
    pub state_flag: u32,
    /// Reserved for chaining a continuation block; 0 when unused.
    pub address_next: u64,
    /// The checksum of the payload; 0 where none is kept.
    pub checksum: u32,
}

/// The same header with the checksum's four little-endian bytes as its
/// digest.
pub open spec fn as_header(state: BlockState) -> HeaderState {
    HeaderState {
        size_data: state.size_data,
        state_flag: state.state_flag,
        address_next: state.address_next,
        digest: le_bytes(state.checksum as nat, 4),
    }
}

/// A header with a checksum on disk: 24 bytes.
pub open spec fn block_state_image(state: BlockState) -> Seq<u8> {
    header_image(as_header(state))
}

/// The header that the first 24 bytes of `bytes` hold.
pub open spec fn block_state(bytes: Seq<u8>) -> BlockState {
    BlockState {
        size_data: header_state(bytes, 4).size_data,
        state_flag: header_state(bytes, 4).state_flag,
        address_next: header_state(bytes, 4).address_next,
        checksum: le_value(bytes.subrange(20, 24)) as u32,
    }
}

/// Reading a header with a checksum back from its image gives the header.
pub proof fn lemma_block_state_round_trip(state: BlockState, rest: Seq<u8>)
    ensures
        block_state_image(state).len() == BLOCK_HEADER_SIZE,
        block_state(block_state_image(state) + rest) == state,
{
    lemma_le_bytes_len(state.checksum as nat, 4);
    lemma_header_image_len(as_header(state));
    lemma_header_round_trip(as_header(state), rest);
    lemma_pow256_widths();
    lemma_le_value_of_le_bytes(state.checksum as nat, 4);
}

/// Turns a header into the bytes that go to disk and back.
pub trait BlockSerializer {
    /// The header's bytes.
    fn serialize(&mut self) -> &Vec<u8>;

    /// Fills the header from bytes read where a header starts.
    fn deserialize(&mut self, data: &Vec<u8>) -> Result<(), StoreError>;

    /// The size in bytes of a serialized header.
    fn size() -> usize;

    /// The number of leading header bytes that `read_ahead` needs.
    fn read_ahead_size() -> (n: usize)
        ensures
            n == READ_AHEAD_SIZE,
    ;

    /// The offset of the state flags within a header.
    fn delete_offset() -> (n: usize)
        ensures
            n == DELETE_OFFSET,
    ;

    /// The distance from the end of the read-ahead bytes to the next header.
    fn read_ahead(size: &Vec<u8>) -> Result<i64, StoreError>;
}

/// A checksum over the payload of a block. Which checksum is the
/// implementor's choice; it is a function of the implementor and the data.
pub trait BlockChecksum {
    /// The checksum of `data`.
    spec fn checksum_of(&self, data: Seq<u8>) -> u32;

    /// The checksum of `data`.
    fn calculate(&self, data: &[u8]) -> (sum: u32)
        ensures
            sum == self.checksum_of(data@),
    ;
}

/// The delete flag of a header's state flags.
pub trait BlockFlags {
    /// The state flags that mark a block deleted.
    fn delete_flag() -> (flag: u32)
        ensures
            flag == STATE_FLAG_DELETE,
    ;

    /// `flags` with the delete flag set to `value`: bit 0 is `value`, and
    /// every other bit is as it was.
    fn set_delete_flag(value: bool, flags: u32) -> (out: u32)
        ensures
            out == with_delete_flag(value, flags),
            out & 1 == (if value { 1u32 } else { 0u32 }),
            out >> 1 == flags >> 1,
    ;
}

/// A block header with a checksum.
#[derive(Debug)]
pub struct DataBlock {
    /// size of data in this block
    size_data: u64,
    /// state of block: bit 0 set once the block is deleted
    pub state_flag: u32,
    /// address of the next block that continues this one; 0 for none
    address_next: u64,
    /// checksum of data in this block. 0 if not used.
    checksum: u32,
    /// the header as last serialized
    header: Vec<u8>,
}

impl View for DataBlock {
    type V = BlockState;

    closed spec fn view(&self) -> BlockState {
        BlockState {
            size_data: self.size_data,
            state_flag: self.state_flag,
            address_next: self.address_next,
            checksum: self.checksum,
        }
    }
}

impl DataBlock {
    /// The header of a live block that holds `data`, with the checksum of
    /// `data` where a checksum is given and 0 where none is.
    pub fn new(data: &[u8], checksum: Option<&dyn BlockChecksum>) -> (made: Result<
        DataBlock,
        StoreError,
    >)
        ensures
            made is Ok,
            made->Ok_0@.size_data == data@.len(),
            made->Ok_0@.state_flag == STATE_FLAG_ALLOC,
            made->Ok_0@.address_next == DEFAULT_ADDR_NEXT,
            checksum is Some ==> made->Ok_0@.checksum == checksum->Some_0.checksum_of(data@),
            checksum is None ==> made->Ok_0@.checksum == 0,
    {
        let mut cs: u32 = 0;
        if let Some(check) = checksum {
            cs = check.calculate(data);
        }
        Ok(DataBlock::with_checksum(data, cs))
    }

    /// The header of a live block that holds `data` and has `checksum` for
    /// its checksum.
    pub fn with_checksum(data: &[u8], checksum: u32) -> (made: DataBlock)
        ensures
            made@ == (BlockState {
                size_data: data@.len() as u64,
                state_flag: STATE_FLAG_ALLOC,
                address_next: DEFAULT_ADDR_NEXT,
                checksum,
            }),
            made@.size_data == data@.len(),
    {
        DataBlock {
            size_data: data.len() as u64,
            state_flag: STATE_FLAG_ALLOC,
            address_next: DEFAULT_ADDR_NEXT,
            checksum,
            header: Vec::new(),
        }
    }

    /// The checksum that the header carries.
    pub fn checksum(&self) -> (sum: u32)
        ensures
            sum == self@.checksum,
    {
        self.checksum
    }

    /// The payload length as a `usize`, where it fits in one.
    pub fn data_size(&self) -> (size: Result<usize, StoreError>)
        ensures
            match size {
                Ok(n) => n == self@.size_data,
                Err(e) => self@.size_data > usize::MAX && e.is_kind(StoreErrorKind::InvalidSize),
            },
    {
        if self.size_data > usize::MAX as u64 {
            Err(StoreError::of(StoreErrorKind::InvalidSize))
        } else {
            Ok(self.size_data as usize)
        }
    }
}

impl PartialEq for DataBlock {
    /// Two headers are equal when they hold the same state.
    fn eq(&self, other: &Self) -> (same: bool) {
        self.size_data == other.size_data && self.state_flag == other.state_flag
            && self.address_next == other.address_next && self.checksum == other.checksum
    }
}

impl PartialEqSpecImpl for DataBlock {
    open spec fn obeys_eq_spec() -> bool {
        true
    }

    open spec fn eq_spec(&self, other: &Self) -> bool {
        self@ == other@
    }
}

impl BlockFlags for DataBlock {
    #[inline]
    fn delete_flag() -> (flag: u32) {
        STATE_FLAG_DELETE
    }

    fn set_delete_flag(value: bool, flags: u32) -> (out: u32) {
        proof {
            lemma_delete_flag_toggle(flags);
        }
        if value {
            flags | STATE_FLAG_DELETE
        } else {
            flags & 0xFFFF_FFFEu32
        }
    }
}

impl BlockSerializer for DataBlock {
    /// The header's 24 bytes; the header itself stays as it is.
    fn serialize(&mut self) -> (out: &Vec<u8>)
        ensures
            final(self)@ == old(self)@,
            out@ == block_state_image(old(self)@),
            out@.len() == BLOCK_HEADER_SIZE,
    {
        let mut header = u64_to_le(self.size_data);
        let flags = u32_to_le(self.state_flag);
        append_bytes(&mut header, flags.as_slice());
        let next = u64_to_le(self.address_next);
        append_bytes(&mut header, next.as_slice());
        let sum = u32_to_le(self.checksum);
        append_bytes(&mut header, sum.as_slice());
        self.header = header;
        &self.header
    }

    /// Fills the header from the first 24 bytes of `data`. Fewer bytes than
    /// that are a truncated header.
    fn deserialize(&mut self, data: &Vec<u8>) -> (read: Result<(), StoreError>)
        ensures
            match read {
                Ok(()) => data@.len() >= BLOCK_HEADER_SIZE && final(self)@ == block_state(data@),
                Err(e) => {
                    &&& data@.len() < BLOCK_HEADER_SIZE
                    &&& e.is_kind(StoreErrorKind::TruncatedHeader)
                    &&& final(self)@ == old(self)@
                },
            },
    {
        if data.len() < BLOCK_HEADER_SIZE {
            return Err(StoreError::of(StoreErrorKind::TruncatedHeader));
        }
        let bytes = data.as_slice();
        proof {
            lemma_pow256_widths();
            lemma_le_value_bound(data@.subrange(0, 8));
            lemma_le_value_bound(data@.subrange(8, 12));
            lemma_le_value_bound(data@.subrange(12, 20));
            lemma_le_value_bound(data@.subrange(20, 24));
        }
        self.size_data = u64_from_le(bytes, 0);
        self.state_flag = u32_from_le(bytes, 8);
        self.address_next = u64_from_le(bytes, 12);
        self.checksum = u32_from_le(bytes, 20);
        Ok(())
    }

    #[inline]
    fn size() -> (n: usize)
        ensures
            n == BLOCK_HEADER_SIZE,
    {
        BLOCK_HEADER_SIZE
    }

    #[inline]
    fn read_ahead_size() -> (n: usize) {
        READ_AHEAD_SIZE
    }

    /// Decodes the payload length from the first 8 bytes of `size` and
    /// adds the 16 bytes that are left of the header after them.
    fn read_ahead(size: &Vec<u8>) -> (distance: Result<i64, StoreError>)
        ensures
            match distance {
                Ok(d) => size@.len() >= 8 && d == read_ahead_distance(size@, CHECKSUM_SIZE as nat),
                Err(e) => if size@.len() < 8 {
                    e.is_kind(StoreErrorKind::TruncatedHeader)
                } else {
                    &&& e.is_kind(StoreErrorKind::InvalidSize)
                    &&& read_ahead_distance(size@, CHECKSUM_SIZE as nat) > i64::MAX
                },
            },
    {
        if size.len() < READ_AHEAD_SIZE {
            return Err(StoreError::of(StoreErrorKind::TruncatedHeader));
        }
        let size_data = u64_from_le(size.as_slice(), 0);
        let rest: u64 = (BLOCK_HEADER_SIZE - READ_AHEAD_SIZE) as u64;
        proof {
            lemma_le_value_bound(size@.subrange(0, 8));
            lemma_pow256_widths();
        }
        let limit: u64 = 0x7FFF_FFFF_FFFF_FFFF;
        if size_data > limit - rest {
            Err(StoreError::of(StoreErrorKind::InvalidSize))
        } else {
            Ok((size_data + rest) as i64)
        }
    }

    #[inline]
    fn delete_offset() -> (n: usize) {
        DELETE_OFFSET
    }
}

} // verus!
