//! The store engine: the preamble of a store file, the index of its blocks,
//! and what to read and write where.

use crate::crypto::BlockHasher;
use crate::data_header::block_header;
use crate::data_header::header_image;
use crate::data_header::BlockFlags;
use crate::data_header::BlockSerializer;
use crate::data_header::DataHeader;
use crate::data_header::DELETE_OFFSET;
use crate::data_header::READ_AHEAD_SIZE;
use crate::data_header::STATE_FLAG_DELETE;
use crate::endian::append_bytes;
use crate::endian::le_bytes;
use crate::endian::le_value;
use crate::endian::lemma_le_bytes_len;
use crate::endian::lemma_le_bytes_of_le_value;
use crate::endian::lemma_le_value_bound;
use crate::endian::lemma_le_value_of_le_bytes;
use crate::endian::lemma_pow256_widths;
use crate::endian::u32_from_le;
use crate::endian::u32_to_le;
use crate::endian::u64_from_le;
use crate::endian::u64_to_le;
use crate::endian::zero_extended;
use crate::error::StoreError;
use crate::error::StoreErrorKind;
use core::marker::PhantomData;
use vstd::prelude::*;
use vstd::slice::slice_subrange;
use vstd::slice::slice_to_vec;
use vstd::string::StringSliceAdditionalSpecFns;
use vstd::utf8::encode_utf8;
use vstd::utf8::valid_utf8;

verus! {

/// The format version that this library writes and accepts.
pub const STORE_VERSIONNUM: u32 = 1;

/// The number of bytes of a preamble before its tag: version and tag length.
pub const DESCRIPTOR_PREFIX_SIZE: usize = 12;

/// The offset of the start of a file, where the preamble lies.
pub const FILE_START: u64 = 0;

/// The number of bytes of the preamble of this format.
pub const DESCRIPTOR_SIZE: usize = 31;

/// The tag that names this format.
pub open spec fn version_tag() -> Seq<char> {
    "FSTOREV.01BINARYR01"@
}

/// The bytes of the tag.
pub open spec fn tag_bytes() -> Seq<u8> {
    encode_utf8(version_tag())
}

/// The preamble of a store file: version, length of the tag, tag.
pub open spec fn descriptor_image() -> Seq<u8> {
    le_bytes(STORE_VERSIONNUM as nat, 4) + le_bytes(tag_bytes().len(), 8) + tag_bytes()
}

/// Whether a file that starts with `bytes` starts with this format's
/// preamble.
pub open spec fn is_store_descriptor(bytes: Seq<u8>) -> bool {
    bytes.len() >= DESCRIPTOR_SIZE && bytes.subrange(0, DESCRIPTOR_SIZE as int)
        == descriptor_image()
}

/// The tag takes 19 bytes, one for each of its characters.
pub proof fn lemma_tag_bytes()
    ensures
        tag_bytes().len() == 19,
        descriptor_image().len() == DESCRIPTOR_SIZE,
{
    reveal_strlit("FSTOREV.01BINARYR01");
    vstd::utf8::is_ascii_chars_encode_utf8(version_tag());
    lemma_le_bytes_len(STORE_VERSIONNUM as nat, 4);
    lemma_le_bytes_len(tag_bytes().len(), 8);
}

/// Asks `core::str::from_utf8` whether `bytes` are UTF-8 and, if so, for
/// the text they spell: the text whose bytes they are.
#[verifier::external_body]
fn text_of(bytes: &[u8]) -> (text: Option<&str>)
    ensures
        match text {
            Some(s) => valid_utf8(bytes@) && s.spec_bytes() == bytes@,
            None => !valid_utf8(bytes@),
        },
{
    core::str::from_utf8(bytes).ok()
}

/// What the preamble at the start of `bytes` says: the version and the
/// tag, the tag being as long as the preamble itself states.
pub open spec fn descriptor_fields(bytes: Seq<u8>) -> Option<(u32, Seq<u8>)> {
    if bytes.len() < DESCRIPTOR_PREFIX_SIZE {
        None
    } else {
        let size = le_value(bytes.subrange(4, 12));
        if DESCRIPTOR_PREFIX_SIZE + size > bytes.len() {
            None
        } else {
            Some(
                (
                    le_value(bytes.subrange(0, 4)) as u32,
                    bytes.subrange(12, DESCRIPTOR_PREFIX_SIZE + size),
                ),
            )
        }
    }
}

/// Whether the preamble at the start of `bytes` has a tag that is no text.
pub open spec fn unreadable_tag(bytes: Seq<u8>) -> bool {
    descriptor_fields(bytes) matches Some((version, tag)) && !valid_utf8(tag)
}

/// A file starts with this format's preamble exactly when the fields of its
/// preamble are this format's version and tag.
pub proof fn lemma_descriptor_fields(bytes: Seq<u8>)
    ensures
        is_store_descriptor(bytes) <==> descriptor_fields(bytes) == Some(
            (STORE_VERSIONNUM, tag_bytes()),
        ),
{
    lemma_tag_bytes();
    lemma_pow256_widths();
    lemma_le_bytes_len(STORE_VERSIONNUM as nat, 4);
    lemma_le_bytes_len(19, 8);
    let version = le_bytes(STORE_VERSIONNUM as nat, 4);
    let size = le_bytes(19, 8);
    if is_store_descriptor(bytes) {
        let head = bytes.subrange(0, DESCRIPTOR_SIZE as int);
        assert(bytes.subrange(0, 4) =~= head.subrange(0, 4));
        assert(bytes.subrange(4, 12) =~= head.subrange(4, 12));
        assert(bytes.subrange(12, 31) =~= head.subrange(12, 31));
        assert(head.subrange(0, 4) =~= version);
        assert(head.subrange(4, 12) =~= size);
        assert(head.subrange(12, 31) =~= tag_bytes());
        lemma_le_value_of_le_bytes(STORE_VERSIONNUM as nat, 4);
        lemma_le_value_of_le_bytes(19, 8);
    }
    if descriptor_fields(bytes) == Some((STORE_VERSIONNUM, tag_bytes())) {
        lemma_le_value_bound(bytes.subrange(0, 4));
        lemma_le_bytes_of_le_value(bytes.subrange(0, 4));
        lemma_le_bytes_of_le_value(bytes.subrange(4, 12));
        assert(le_value(bytes.subrange(4, 12)) == 19);
        assert(bytes.subrange(0, DESCRIPTOR_SIZE as int) =~= bytes.subrange(0, 4)
            + bytes.subrange(4, 12) + bytes.subrange(12, 31));
    }
}

/// What the engine knows of a store file.
pub struct StoreView {
    /// The offset of the first block: where the preamble ends.
    pub data_start: nat,
    /// The offset of each indexed block's header, in file order.
    pub addresses: Seq<nat>,
    /// Where the block after the last indexed one starts.
    pub end: nat,
}

/// Blocks lie behind the preamble, in order, each at least a header apart
/// from the next, and none reaches past `end`.
pub open spec fn well_formed(view: StoreView, width: nat) -> bool {
    &&& view.data_start <= view.end
    &&& forall|i: int|
        0 <= i < view.addresses.len() ==> view.data_start <= #[trigger] view.addresses[i]
            && view.addresses[i] + 20 + width <= view.end
    &&& forall|i: int, j: int|
        0 <= i < j < view.addresses.len() ==> #[trigger] view.addresses[i] + 20 + width
            <= #[trigger] view.addresses[j]
}

/// The view of a store whose file holds the preamble and nothing else.
pub open spec fn empty_view(data_start: nat) -> StoreView {
    StoreView { data_start, addresses: Seq::<nat>::empty(), end: data_start }
}

/// `view` with one more block at its end, the payload `size` bytes long.
pub open spec fn with_block(view: StoreView, size: nat, width: nat) -> StoreView {
    StoreView {
        data_start: view.data_start,
        addresses: view.addresses.push(view.end),
        end: view.end + 20 + width + size,
    }
}

/// Whether a block with a payload of `size` bytes can follow the blocks of
/// `view`: the way from its read-ahead bytes to the next header fits in an
/// `i64`, and its end fits in a `u64`.
pub open spec fn block_fits(view: StoreView, size: nat, width: nat) -> bool {
    size + 12 + width <= i64::MAX && view.end + 20 + width + size <= u64::MAX
}

/// The payload length that the read-ahead bytes of a block state. Where
/// the file ends within them, the bytes that are left count as filled up
/// with zeros.
pub open spec fn prefix_size(prefix: Seq<u8>) -> nat {
    if prefix.len() < READ_AHEAD_SIZE {
        le_value(prefix)
    } else {
        le_value(prefix.subrange(0, READ_AHEAD_SIZE as int))
    }
}

/// What the caller of the indexing does next.
#[derive(Debug, Clone, Copy, PartialEq, Eq, Structural)]
pub enum IndexStep {
    /// Read `read_ahead_size()` bytes at this offset and hand them to
    /// `index_next`.
    Read(u64),
    /// Every block is indexed: seek to this offset, the first block's.
    Done(u64),
}

/// The step that follows once the index stands at `view`, in a file of
/// `file_len` bytes: one more block while the end of the file is not reached.
pub open spec fn next_step(view: StoreView, file_len: nat) -> IndexStep {
    if view.end < file_len {
        IndexStep::Read(view.end as u64)
    } else {
        IndexStep::Done(view.data_start as u64)
    }
}

/// File offsets as numbers.
pub open spec fn offsets(addresses: Seq<u64>) -> Seq<nat> {
    Seq::new(addresses.len(), |i: int| addresses[i] as nat)
}

/// Store manages the index of a file store.
///
/// Data is written in blocks of arbitrary size, each behind a `DataHeader`.
pub struct Store<T: BlockHasher> {
    /// where the first block starts
    data_start_address: u64,
    /// addresses of the indexed blocks
    block_addresses: Vec<u64>,
    /// where the next block starts
    end_address: u64,
    phantom: PhantomData<T>,
}

impl<T: BlockHasher> View for Store<T> {
    type V = StoreView;

    closed spec fn view(&self) -> StoreView {
        StoreView {
            data_start: self.data_start_address as nat,
            addresses: offsets(self.block_addresses@),
            end: self.end_address as nat,
        }
    }
}

impl<T: BlockHasher> Store<T> {
    #[verifier::type_invariant]
    spec fn inv(self) -> bool {
        well_formed(self@, T::digest_width())
    }

    /// The bytes to put at the start of a new store file.
    pub fn write_file_descriptor() -> (out: Vec<u8>)
        ensures
            out@ == descriptor_image(),
            out@.len() == DESCRIPTOR_SIZE,
    {
        let tag = "FSTOREV.01BINARYR01".as_bytes();
        proof {
            lemma_tag_bytes();
        }
        let mut out = u32_to_le(STORE_VERSIONNUM);
        let size = u64_to_le(tag.len() as u64);
        append_bytes(&mut out, size.as_slice());
        append_bytes(&mut out, tag);
        out
    }

    /// Reads the version and the tag from the start of a file. It is an error
    /// if `bytes` end before the tag does, and an error with a message of
    /// its own if the tag is no text.
    pub fn read_file_descriptor(bytes: &[u8]) -> (read: Result<(u32, String), StoreError>)
        ensures
            match read {
                Ok((version, tag)) => {
                    &&& descriptor_fields(bytes@) matches Some((v, t))
                    &&& version == v
                    &&& valid_utf8(t)
                    &&& encode_utf8(tag@) == t
                },
                Err(e) => if unreadable_tag(bytes@) {
                    e.is_unreadable_version()
                } else {
                    descriptor_fields(bytes@) is None && e.is_kind(
                        StoreErrorKind::InvalidDescriptor,
                    )
                },
            },
    {
        if bytes.len() < DESCRIPTOR_PREFIX_SIZE {
            return Err(StoreError::of(StoreErrorKind::InvalidDescriptor));
        }
        proof {
            lemma_le_value_bound(bytes@.subrange(0, 4));
            lemma_le_value_bound(bytes@.subrange(4, 12));
            lemma_pow256_widths();
        }
        let version = u32_from_le(bytes, 0);
        let size = u64_from_le(bytes, 4);
        if size > (bytes.len() - DESCRIPTOR_PREFIX_SIZE) as u64 {
            return Err(StoreError::of(StoreErrorKind::InvalidDescriptor));
        }
        let end = DESCRIPTOR_PREFIX_SIZE + size as usize;
        match text_of(slice_subrange(bytes, DESCRIPTOR_PREFIX_SIZE, end)) {
            Some(tag) => Ok((version, tag.to_owned())),
            None => Err(StoreError::unreadable_version()),
        }
    }

    /// Whether a version and a tag are those of this format.
    pub fn validate_file_descriptor(value: (u32, String)) -> (valid: bool)
        ensures
            valid == (value.0 == STORE_VERSIONNUM && value.1@ == version_tag()),
    {
        let tag = "FSTOREV.01BINARYR01".to_owned();
        value.0 == STORE_VERSIONNUM && value.1 == tag
    }

    /// A store for a new file, and the preamble to write at offset 0 of
    /// that file. The first block will start where the preamble ends.
    pub fn create() -> (made: (Store<T>, Vec<u8>))
        ensures
            made.0@ == empty_view(DESCRIPTOR_SIZE as nat),
            made.1@ == descriptor_image(),
    {
        let descriptor = Self::write_file_descriptor();
        let start = descriptor.len() as u64;
        let store = Store::<T> {
            data_start_address: start,
            block_addresses: Vec::new(),
            end_address: start,
            phantom: PhantomData,
        };
        assert(store@.addresses =~= Seq::<nat>::empty());
        (store, descriptor)
    }

    /// A store for an existing file that starts with `descriptor`, with no
    /// block indexed yet; `index_blocks` comes next. It is an error if
    /// `descriptor` is not the preamble of this format.
    pub fn new(descriptor: &[u8]) -> (made: Result<Store<T>, StoreError>)
        ensures
            match made {
                Ok(store) => is_store_descriptor(descriptor@) && store@ == empty_view(
                    DESCRIPTOR_SIZE as nat,
                ),
                Err(e) => {
                    &&& !is_store_descriptor(descriptor@)
                    &&& if unreadable_tag(descriptor@) {
                        e.is_unreadable_version()
                    } else {
                        e.is_kind(StoreErrorKind::InvalidDescriptor)
                    }
                },
            },
    {
        match Self::read_file_descriptor(descriptor) {
            Err(e) => {
                proof {
                    lemma_descriptor_fields(descriptor@);
                    vstd::utf8::encode_utf8_valid_utf8(version_tag());
                }
                Err(e)
            },
            Ok(fd) => {
                let ghost tag = fd.1@;
                let valid = Self::validate_file_descriptor(fd);
                proof {
                    lemma_descriptor_fields(descriptor@);
                    vstd::utf8::encode_utf8_decode_utf8(tag);
                    vstd::utf8::encode_utf8_decode_utf8(version_tag());
                }
                if !valid {
                    return Err(StoreError::of(StoreErrorKind::InvalidDescriptor));
                }
                let store = Store::<T> {
                    data_start_address: DESCRIPTOR_SIZE as u64,
                    block_addresses: Vec::new(),
                    end_address: DESCRIPTOR_SIZE as u64,
                    phantom: PhantomData,
                };
                assert(store@.addresses =~= Seq::<nat>::empty());
                Ok(store)
            },
        }
    }

    /// The offset of the first block.
    pub fn data_start_address(&self) -> (address: u64)
        ensures
            address == self@.data_start,
    {
        self.data_start_address
    }

    /// The offset at which the next block starts. The blocks before it
    /// lie in order behind the preamble, a header or more apart.
    pub fn end_address(&self) -> (address: u64)
        ensures
            address == self@.end,
            well_formed(self@, T::digest_width()),
    {
        proof {
            use_type_invariant(self);
        }
        self.end_address
    }

    /// Starts indexing the blocks of a file of `file_len` bytes: forgets
    /// every block and says what to do first.
    pub fn index_blocks(&mut self, file_len: u64) -> (step: IndexStep)
        ensures
            final(self)@ == empty_view(old(self)@.data_start),
            step == next_step(final(self)@, file_len as nat),
    {
        proof {
            use_type_invariant(&*self);
        }
        self.block_addresses = Vec::new();
        assert(self@.addresses =~= Seq::<nat>::empty());
        self.end_address = self.data_start_address;
        self.step(file_len)
    }

    /// Indexes the block whose first bytes are `prefix`, read where the
    /// last step said, and says what to do next. The block starts where the
    /// one before it ended; its own end follows from the payload length in
    /// `prefix`. Where the file ended within the read-ahead bytes, `prefix`
    /// is shorter than they are and counts as filled up with zeros.
    pub fn index_next(&mut self, file_len: u64, prefix: &Vec<u8>) -> (next: Result<
        IndexStep,
        StoreError,
    >)
        ensures
            match next {
                Ok(step) => {
                    &&& block_fits(old(self)@, prefix_size(prefix@), T::digest_width())
                    &&& final(self)@ == with_block(
                        old(self)@,
                        prefix_size(prefix@),
                        T::digest_width(),
                    )
                    &&& step == next_step(final(self)@, file_len as nat)
                },
                Err(e) => {
                    &&& final(self)@ == old(self)@
                    &&& e.is_kind(StoreErrorKind::InvalidSize)
                    &&& !block_fits(old(self)@, prefix_size(prefix@), T::digest_width())
                },
            },
    {
        let read = if prefix.len() < DataHeader::<T>::read_ahead_size() {
            let filled = zero_extended(prefix.as_slice(), DataHeader::<T>::read_ahead_size());
            assert(filled@.subrange(0, 8) =~= filled@);
            DataHeader::<T>::read_ahead(&filled)
        } else {
            DataHeader::<T>::read_ahead(prefix)
        };
        let distance = match read {
            Ok(distance) => distance as u64,
            Err(e) => {
                return Err(e);
            },
        };
        let skip = DataHeader::<T>::read_ahead_size() as u64 + distance;
        match self.push_block(skip) {
            Ok(()) => Ok(self.step(file_len)),
            Err(e) => Err(e),
        }
    }

    /// Where to write a block that holds `buf`, and the header to write
    /// there; `buf` itself goes right behind the header. Nothing is indexed
    /// until `commit` is told that the block is written.
    pub fn write(&self, buf: &[u8]) -> (plan: Result<(u64, Vec<u8>), StoreError>)
        ensures
            match plan {
                Ok((at, header)) => {
                    &&& block_fits(self@, buf@.len(), T::digest_width())
                    &&& at == self@.end
                    &&& header@ == header_image(block_header::<T>(buf@))
                    &&& header@.len() == 20 + T::digest_width()
                },
                Err(e) => {
                    &&& !block_fits(self@, buf@.len(), T::digest_width())
                    &&& e.is_kind(StoreErrorKind::InvalidSize)
                },
            },
    {
        if !self.fits(buf.len()) {
            return Err(StoreError::of(StoreErrorKind::InvalidSize));
        }
        let mut header = match DataHeader::<T>::new() {
            Ok(header) => header,
            Err(e) => {
                return Err(e);
            },
        };
        let image = slice_to_vec(header.serialize(buf).as_slice());
        Ok((self.end_address, image))
    }

    /// Indexes the block that `write` planned, once it is written: a block
    /// with a payload of `size` bytes, at the end.
    pub fn commit(&mut self, size: usize) -> (done: Result<(), StoreError>)
        ensures
            match done {
                Ok(()) => {
                    &&& block_fits(old(self)@, size as nat, T::digest_width())
                    &&& final(self)@ == with_block(old(self)@, size as nat, T::digest_width())
                },
                Err(e) => {
                    &&& !block_fits(old(self)@, size as nat, T::digest_width())
                    &&& e.is_kind(StoreErrorKind::InvalidSize)
                    &&& final(self)@ == old(self)@
                },
            },
    {
        if !self.fits(size) {
            return Err(StoreError::of(StoreErrorKind::InvalidSize));
        }
        self.push_block(DataHeader::<T>::size() as u64 + size as u64)
    }

    /// Whether a block with a payload of `size` bytes can follow the last.
    fn fits(&self, size: usize) -> (fits: bool)
        ensures
            fits == block_fits(self@, size as nat, T::digest_width()),
    {
        let header = DataHeader::<T>::size() as u64;
        let limit: u64 = 0x7FFF_FFFF_FFFF_FFFF;
        let size = size as u64;
        header - 8 <= limit && size <= limit - (header - 8) && header <= u64::MAX - size && header
            + size <= u64::MAX - self.end_address
    }

    /// Indexes a block of `skip` bytes, header and payload, at the end.
    fn push_block(&mut self, skip: u64) -> (done: Result<(), StoreError>)
        requires
            skip >= 20 + T::digest_width(),
        ensures
            match done {
                Ok(()) => {
                    &&& old(self)@.end + skip <= u64::MAX
                    &&& final(self)@ == with_block(
                        old(self)@,
                        (skip - 20 - T::digest_width()) as nat,
                        T::digest_width(),
                    )
                },
                Err(e) => {
                    &&& old(self)@.end + skip > u64::MAX
                    &&& e.is_kind(StoreErrorKind::InvalidSize)
                    &&& final(self)@ == old(self)@
                },
            },
    {
        proof {
            use_type_invariant(&*self);
        }
        let start = self.end_address;
        if skip > u64::MAX - start {
            return Err(StoreError::of(StoreErrorKind::InvalidSize));
        }
        let ghost before = self@;
        let ghost width = T::digest_width();
        let mut addresses: Vec<u64> = Vec::new();
        assert(offsets(addresses@) =~= Seq::<nat>::empty());
        core::mem::swap(&mut addresses, &mut self.block_addresses);
        self.end_address = start + skip;
        addresses.push(start);
        proof {
            let after = StoreView {
                data_start: before.data_start,
                addresses: offsets(addresses@),
                end: (start + skip) as nat,
            };
            assert(after.addresses =~= before.addresses.push(start as nat));
            assert(well_formed(after, width));
        }
        self.block_addresses = addresses;
        Ok(())
    }

    /// What to do next in indexing a file of `file_len` bytes.
    fn step(&self, file_len: u64) -> (step: IndexStep)
        ensures
            step == next_step(self@, file_len as nat),
    {
        if self.end_address < file_len {
            IndexStep::Read(self.end_address)
        } else {
            IndexStep::Done(self.data_start_address)
        }
    }
}

/// The index of a store, by block number.
pub trait StoreIO {
    /// The offset of each indexed block's header, in file order.
    spec fn block_starts(&self) -> Seq<nat>;

    /// How to mark block `index` deleted: where to write which bytes, the
    /// state flags of a deleted block over the flags in the block's header,
    /// and where to seek once they are written, the start of the file.
    fn delete_block(&self, index: usize) -> (plan: Result<(u64, Vec<u8>, u64), StoreError>)
        ensures
            match plan {
                Ok((at, flags, rewind)) => {
                    &&& index < self.block_starts().len()
                    &&& at == self.block_starts()[index as int] + DELETE_OFFSET
                    &&& flags@ == le_bytes(STATE_FLAG_DELETE as nat, 4)
                    &&& rewind == FILE_START
                },
                Err(e) => {
                    &&& index >= self.block_starts().len()
                    &&& e.is_kind(StoreErrorKind::OutOfBounds)
                },
            },
    ;

    /// The number of blocks available for access.
    fn len(&self) -> (n: usize)
        ensures
            n == self.block_starts().len(),
    ;

    /// The address of the block at `index`, if there is such a block.
    fn block_address(&self, index: usize) -> (address: Option<&u64>)
        ensures
            match address {
                Some(a) => index < self.block_starts().len() && *a == self.block_starts()[index as int],
                None => index >= self.block_starts().len(),
            },
    ;

    /// Where to seek to stand at the header of block `index`.
    fn seek(&self, index: usize) -> (address: Result<u64, StoreError>)
        ensures
            match address {
                Ok(a) => index < self.block_starts().len() && a == self.block_starts()[index as int],
                Err(e) => {
                    &&& index >= self.block_starts().len()
                    &&& e.is_kind(StoreErrorKind::OutOfBounds)
                },
            },
    ;
}

impl<T: BlockHasher> StoreIO for Store<T> {
    open spec fn block_starts(&self) -> Seq<nat> {
        self@.addresses
    }

    fn delete_block(&self, index: usize) -> (plan: Result<(u64, Vec<u8>, u64), StoreError>) {
        proof {
            use_type_invariant(self);
        }
        if index < self.block_addresses.len() {
            let address = self.block_addresses[index];
            assert(self@.addresses[index as int] == address);
            let offset = DataHeader::<T>::delete_offset() as u64;
            Ok((address + offset, u32_to_le(DataHeader::<T>::delete_flag()), FILE_START))
        } else {
            Err(StoreError::of(StoreErrorKind::OutOfBounds))
        }
    }

    fn block_address(&self, index: usize) -> (address: Option<&u64>) {
        if index < self.block_addresses.len() {
            Some(&self.block_addresses[index])
        } else {
            None
        }
    }

    fn len(&self) -> (n: usize) {
        self.block_addresses.len()
    }

    fn seek(&self, index: usize) -> (address: Result<u64, StoreError>) {
        if index < self.block_addresses.len() {
            Ok(self.block_addresses[index])
        } else {
            Err(StoreError::of(StoreErrorKind::OutOfBounds))
        }
    }
}

} // verus!
