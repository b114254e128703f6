//! Store files as byte strings: what the writer lays down, what the scan
//! finds in it, and why the two agree.

use crate::crypto::BlockHasher;
use crate::data_header::block_header;
use crate::data_header::header_image;
use crate::data_header::header_state;
use crate::data_header::lemma_header_image_len;
use crate::data_header::lemma_header_round_trip;
use crate::data_header::HeaderState;
use crate::data_header::DELETE_OFFSET;
use crate::data_header::STATE_FLAG_DELETE;
use crate::endian::le_bytes;
use crate::endian::lemma_le_bytes_len;
use crate::endian::lemma_le_value_of_le_bytes;
use crate::endian::lemma_pow256_widths;
use crate::store::descriptor_image;
use crate::store::empty_view;
use crate::data_header::READ_AHEAD_SIZE;
use crate::store::is_store_descriptor;
use crate::store::prefix_size;
use crate::store::lemma_tag_bytes;
use crate::store::with_block;
use crate::store::StoreView;
use crate::store::DESCRIPTOR_SIZE;
use vstd::prelude::*;

verus! {

/// A block of a store file.
pub struct Block {
    /// What the block's header holds.
    pub header: HeaderState,
    /// The bytes behind the header.
    pub payload: Seq<u8>,
}

/// A block on disk: the header, then the payload.
pub open spec fn block_image(block: Block) -> Seq<u8> {
    header_image(block.header) + block.payload
}

/// The header states the payload's length, and the digest has the width
/// that the file was made with.
pub open spec fn sound_block(block: Block, width: nat) -> bool {
    block.header.size_data == block.payload.len() && block.header.digest.len() == width
}

/// Every block of `blocks` is sound.
pub open spec fn sound_blocks(blocks: Seq<Block>, width: nat) -> bool {
    forall|i: int| 0 <= i < blocks.len() ==> sound_block(#[trigger] blocks[i], width)
}

/// The block that appending `payload` writes.
pub open spec fn new_block<T: BlockHasher>(payload: Seq<u8>) -> Block {
    Block { header: block_header::<T>(payload), payload }
}

/// `block` marked deleted: its state flags are those of a deleted block.
pub open spec fn tombstoned(block: Block) -> Block {
    Block {
        header: HeaderState {
            size_data: block.header.size_data,
            state_flag: STATE_FLAG_DELETE,
            address_next: block.header.address_next,
            digest: block.header.digest,
        },
        payload: block.payload,
    }
}

/// Blocks on disk: one behind the other, with nothing in between.
pub open spec fn chain_image(blocks: Seq<Block>) -> Seq<u8>
    decreases blocks.len(),
{
    if blocks.len() == 0 {
        Seq::<u8>::empty()
    } else {
        block_image(blocks[0]) + chain_image(blocks.drop_first())
    }
}

/// A store file: the preamble, then the blocks.
pub open spec fn store_image(blocks: Seq<Block>) -> Seq<u8> {
    descriptor_image() + chain_image(blocks)
}

/// `view` with `blocks` behind its last block.
pub open spec fn extended(view: StoreView, blocks: Seq<Block>, width: nat) -> StoreView
    decreases blocks.len(),
{
    if blocks.len() == 0 {
        view
    } else {
        extended(with_block(view, blocks[0].payload.len(), width), blocks.drop_first(), width)
    }
}

/// The index of a store file that holds `blocks`.
pub open spec fn chain_view(blocks: Seq<Block>, width: nat) -> StoreView {
    extended(empty_view(DESCRIPTOR_SIZE as nat), blocks, width)
}

/// What indexing makes of `file`, one `index_next` after another from
/// `view` on, each fed the read-ahead bytes at the end of the index so far:
/// 8 of them, or as many as the file has left.
pub open spec fn scan(file: Seq<u8>, view: StoreView, width: nat) -> StoreView
    decreases
            (if view.end < file.len() {
                file.len() - view.end
            } else {
                0
            }),
{
    if view.end >= file.len() {
        view
    } else {
        let stop = if view.end + READ_AHEAD_SIZE <= file.len() {
            view.end + READ_AHEAD_SIZE
        } else {
            file.len() as int
        };
        scan(
            file,
            with_block(view, prefix_size(file.subrange(view.end as int, stop)), width),
            width,
        )
    }
}

/// `file` after `bytes` are written at offset `at`, within the file or at
/// its end.
pub open spec fn written(file: Seq<u8>, at: nat, bytes: Seq<u8>) -> Seq<u8> {
    if at + bytes.len() < file.len() {
        file.subrange(0, at as int) + bytes + file.subrange(at as int + bytes.len(), file.len() as int)
    } else {
        file.subrange(0, at as int) + bytes
    }
}

/// What is left of a sound chain behind its first block is sound.
pub proof fn lemma_sound_rest(blocks: Seq<Block>, width: nat)
    requires
        sound_blocks(blocks, width),
        blocks.len() > 0,
    ensures
        sound_blocks(blocks.drop_first(), width),
{
    let rest = blocks.drop_first();
    assert forall|k: int| 0 <= k < rest.len() implies sound_block(#[trigger] rest[k], width) by {
        assert(rest[k] == blocks[k + 1]);
    }
}

/// A block's image is its header's 20 bytes, the digest and the payload.
pub proof fn lemma_block_image_len(block: Block)
    ensures
        block_image(block).len() == 20 + block.header.digest.len() + block.payload.len(),
{
    lemma_header_image_len(block.header);
}

/// A block behind a chain is behind the chain's image.
pub proof fn lemma_chain_image_push(blocks: Seq<Block>, block: Block)
    ensures
        chain_image(blocks.push(block)) == chain_image(blocks) + block_image(block),
    decreases blocks.len(),
{
    if blocks.len() == 0 {
        assert(blocks.push(block).drop_first() =~= blocks);
        assert(chain_image(blocks.push(block)) =~= chain_image(blocks) + block_image(block));
    } else {
        lemma_chain_image_push(blocks.drop_first(), block);
        assert(blocks.push(block).drop_first() =~= blocks.drop_first().push(block));
        assert(chain_image(blocks.push(block)) =~= chain_image(blocks) + block_image(block));
    }
}

/// A block behind a chain is one more block in the chain's index.
pub proof fn lemma_extended_push(view: StoreView, blocks: Seq<Block>, block: Block, width: nat)
    ensures
        extended(view, blocks.push(block), width) == with_block(
            extended(view, blocks, width),
            block.payload.len(),
            width,
        ),
    decreases blocks.len(),
{
    let longer = blocks.push(block);
    if blocks.len() == 0 {
        let one = with_block(view, block.payload.len(), width);
        assert(longer.drop_first() =~= blocks);
        assert(longer[0] == block);
        assert(extended(one, blocks, width) == one);
    } else {
        let one = with_block(view, blocks[0].payload.len(), width);
        lemma_extended_push(one, blocks.drop_first(), block, width);
        assert(longer.drop_first() =~= blocks.drop_first().push(block));
        assert(longer[0] == blocks[0]);
    }
}

/// Where the blocks of a chain lie. With `view` standing at the end of
/// `pre`, the index of `pre` followed by the chain keeps what `view` holds,
/// ends where the file ends, and has at entry `i` behind those of `view`
/// the offset at which header and payload of block `i` are found.
pub proof fn lemma_extended_places(
    pre: Seq<u8>,
    view: StoreView,
    blocks: Seq<Block>,
    width: nat,
    i: int,
)
    requires
        view.end == pre.len(),
        sound_blocks(blocks, width),
        0 <= i < blocks.len(),
    ensures
        ({
            let file = pre + chain_image(blocks);
            let index = extended(view, blocks, width);
            let at = index.addresses[view.addresses.len() + i];
            let header_end = at + 20 + width;
            &&& index.addresses.len() == view.addresses.len() + blocks.len()
            &&& header_end + blocks[i].payload.len() <= file.len()
            &&& file.subrange(at as int, header_end as int) == header_image(blocks[i].header)
            &&& file.subrange(header_end as int, header_end as int + blocks[i].payload.len())
                == blocks[i].payload
        }),
    decreases blocks.len(),
{
    let file = pre + chain_image(blocks);
    let first = blocks[0];
    let rest = blocks.drop_first();
    let view1 = with_block(view, first.payload.len(), width);
    let pre1 = pre + block_image(first);
    lemma_block_image_len(first);
    lemma_header_image_len(first.header);
    assert(file =~= pre1 + chain_image(rest));
    lemma_sound_rest(blocks, width);
    lemma_extended_keeps(pre1, view1, rest, width);
    if i == 0 {
        let at = view.end;
        assert(extended(view, blocks, width).addresses[view.addresses.len() as int] == at);
        assert(file.subrange(at as int, at as int + 20 + width) =~= header_image(first.header));
        assert(file.subrange(at as int + 20 + width, at as int + 20 + width + first.payload.len())
            =~= first.payload);
    } else {
        lemma_extended_places(pre1, view1, rest, width, i - 1);
        assert(rest[i - 1] == blocks[i]);
    }
}

/// The index of `pre` followed by a chain keeps the entries of `view`, has
/// one more for each block, and ends where the file ends.
pub proof fn lemma_extended_keeps(pre: Seq<u8>, view: StoreView, blocks: Seq<Block>, width: nat)
    requires
        view.end == pre.len(),
        sound_blocks(blocks, width),
    ensures
        ({
            let index = extended(view, blocks, width);
            &&& index.data_start == view.data_start
            &&& index.end == (pre + chain_image(blocks)).len()
            &&& index.addresses.len() == view.addresses.len() + blocks.len()
            &&& forall|k: int|
                0 <= k < view.addresses.len() ==> index.addresses[k] == view.addresses[k]
        }),
    decreases blocks.len(),
{
    if blocks.len() > 0 {
        let first = blocks[0];
        let rest = blocks.drop_first();
        let view1 = with_block(view, first.payload.len(), width);
        let pre1 = pre + block_image(first);
        lemma_block_image_len(first);
        assert(pre + chain_image(blocks) =~= pre1 + chain_image(rest));
        lemma_sound_rest(blocks, width);
        lemma_extended_keeps(pre1, view1, rest, width);
    } else {
        assert(pre + chain_image(blocks) =~= pre);
    }
}

/// Scanning `pre` followed by a chain, from the end of `pre`, indexes the
/// chain block by block.
pub proof fn lemma_scan_extends(pre: Seq<u8>, view: StoreView, blocks: Seq<Block>, width: nat)
    requires
        view.end == pre.len(),
        sound_blocks(blocks, width),
    ensures
        scan(pre + chain_image(blocks), view, width) == extended(view, blocks, width),
    decreases blocks.len(),
{
    let file = pre + chain_image(blocks);
    if blocks.len() == 0 {
        assert(file =~= pre);
    } else {
        let first = blocks[0];
        let rest = blocks.drop_first();
        let view1 = with_block(view, first.payload.len(), width);
        let pre1 = pre + block_image(first);
        lemma_block_image_len(first);
        lemma_header_image_len(first.header);
        lemma_le_bytes_len(first.header.size_data as nat, 8);
        lemma_pow256_widths();
        lemma_le_value_of_le_bytes(first.header.size_data as nat, 8);
        assert(file =~= pre1 + chain_image(rest));
        let prefix = file.subrange(view.end as int, view.end as int + 8);
        assert(prefix =~= le_bytes(first.header.size_data as nat, 8));
        assert(prefix.subrange(0, 8) =~= prefix);
        lemma_sound_rest(blocks, width);
        lemma_scan_extends(pre1, view1, rest, width);
    }
}

/// Every store file starts with the preamble, and its first block starts
/// at offset 31, where the preamble ends.
pub proof fn lemma_store_image_descriptor(blocks: Seq<Block>)
    ensures
        is_store_descriptor(store_image(blocks)),
        DESCRIPTOR_SIZE == 31,
{
    lemma_tag_bytes();
    assert(store_image(blocks).subrange(0, DESCRIPTOR_SIZE as int) =~= descriptor_image());
}

/// Indexing a store file finds every block: the scan of the file that
/// holds `blocks` is the index that holds `blocks`.
pub proof fn lemma_scan_of_store_image(blocks: Seq<Block>, width: nat)
    requires
        sound_blocks(blocks, width),
    ensures
        scan(store_image(blocks), empty_view(DESCRIPTOR_SIZE as nat), width) == chain_view(
            blocks,
            width,
        ),
{
    lemma_tag_bytes();
    lemma_scan_extends(descriptor_image(), empty_view(DESCRIPTOR_SIZE as nat), blocks, width);
}

/// The index of a store file has one entry for each block, in order, and
/// ends where the file ends. At entry `i` the file holds the header of
/// block `i`, which reads back as written, and behind it the payload.
pub proof fn lemma_index_is_consistent(blocks: Seq<Block>, width: nat, i: int)
    requires
        sound_blocks(blocks, width),
        0 <= i < blocks.len(),
    ensures
        ({
            let file = store_image(blocks);
            let index = chain_view(blocks, width);
            let at = index.addresses[i];
            let header_end = at + 20 + width;
            &&& index.addresses.len() == blocks.len()
            &&& index.data_start == DESCRIPTOR_SIZE
            &&& index.end == file.len()
            &&& header_end + blocks[i].payload.len() <= file.len()
            &&& header_state(file.subrange(at as int, header_end as int), width)
                == blocks[i].header
            &&& file.subrange(header_end as int, header_end as int + blocks[i].payload.len())
                == blocks[i].payload
        }),
{
    let start = empty_view(DESCRIPTOR_SIZE as nat);
    lemma_tag_bytes();
    lemma_extended_keeps(descriptor_image(), start, blocks, width);
    lemma_extended_places(descriptor_image(), start, blocks, width, i);
    lemma_header_round_trip(blocks[i].header, Seq::<u8>::empty());
    assert(header_image(blocks[i].header) + Seq::<u8>::empty() =~= header_image(
        blocks[i].header,
    ));
}

/// Appending keeps file and index in step: writing the image of a new
/// block at the end of the index gives the file that holds one more block,
/// and the index with one more block is the index of that file.
pub proof fn lemma_append(blocks: Seq<Block>, block: Block, width: nat)
    requires
        sound_blocks(blocks, width),
    ensures
        written(store_image(blocks), chain_view(blocks, width).end, block_image(block))
            == store_image(blocks.push(block)),
        with_block(chain_view(blocks, width), block.payload.len(), width) == chain_view(
            blocks.push(block),
            width,
        ),
{
    let start = empty_view(DESCRIPTOR_SIZE as nat);
    lemma_tag_bytes();
    lemma_extended_keeps(descriptor_image(), start, blocks, width);
    lemma_chain_image_push(blocks, block);
    lemma_extended_push(start, blocks, block, width);
    let file = store_image(blocks);
    assert(file.subrange(0, file.len() as int) =~= file);
    assert(store_image(blocks.push(block)) =~= file + block_image(block));
}

/// The block that appending `payload` writes is sound, for a payload whose
/// length a `u64` can hold.
pub proof fn lemma_new_block_is_sound<T: BlockHasher>(payload: Seq<u8>)
    requires
        payload.len() <= u64::MAX,
    ensures
        sound_block(new_block::<T>(payload), T::digest_width()),
{
    T::digest_has_width(payload);
}

/// Where a deletion lands. With `view` standing at the end of `pre`,
/// writing the flags of a deleted block over the flags of block `i` of the
/// chain behind `pre` gives the file in which block `i` is deleted and all
/// else is as it was; the index of that file is the index of the old one.
pub proof fn lemma_written_flags(
    pre: Seq<u8>,
    view: StoreView,
    blocks: Seq<Block>,
    width: nat,
    i: int,
)
    requires
        view.end == pre.len(),
        sound_blocks(blocks, width),
        0 <= i < blocks.len(),
    ensures
        ({
            let index = extended(view, blocks, width);
            let at = index.addresses[view.addresses.len() + i];
            let deleted = blocks.update(i, tombstoned(blocks[i]));
            &&& written(
                pre + chain_image(blocks),
                at + DELETE_OFFSET as nat,
                le_bytes(STATE_FLAG_DELETE as nat, 4),
            ) == pre + chain_image(deleted)
            &&& extended(view, deleted, width) == index
        }),
    decreases blocks.len(),
{
    let file = pre + chain_image(blocks);
    let flags = le_bytes(STATE_FLAG_DELETE as nat, 4);
    let first = blocks[0];
    let rest = blocks.drop_first();
    let view1 = with_block(view, first.payload.len(), width);
    let pre1 = pre + block_image(first);
    let deleted = blocks.update(i, tombstoned(blocks[i]));
    lemma_block_image_len(first);
    lemma_le_bytes_len(STATE_FLAG_DELETE as nat, 4);
    assert(file =~= pre1 + chain_image(rest));
    lemma_sound_rest(blocks, width);
    lemma_extended_keeps(pre1, view1, rest, width);
    if i == 0 {
        let header = first.header;
        lemma_le_bytes_len(header.size_data as nat, 8);
        lemma_le_bytes_len(header.state_flag as nat, 4);
        lemma_le_bytes_len(header.address_next as nat, 8);
        assert(deleted.drop_first() =~= rest);
        assert(deleted[0] == tombstoned(first));
        assert(extended(view, blocks, width).addresses[view.addresses.len() as int] == view.end);
        assert(written(file, view.end + DELETE_OFFSET as nat, flags) =~= pre + chain_image(
            deleted,
        ));
    } else {
        lemma_written_flags(pre1, view1, rest, width, i - 1);
        assert(rest[i - 1] == blocks[i]);
        assert(deleted.drop_first() =~= rest.update(i - 1, tombstoned(blocks[i])));
        assert(deleted[0] == first);
        assert(pre + chain_image(deleted) =~= pre1 + chain_image(deleted.drop_first()));
    }
}

/// A deletion persists. Writing the flags of a deleted block where
/// `delete_block` says gives the store file in which block `i` is deleted:
/// its header there reads back with bit 0 of the state flags set and all
/// else as before, and indexing that file anew gives the same index.
pub proof fn lemma_tombstone_persists(blocks: Seq<Block>, width: nat, i: int)
    requires
        sound_blocks(blocks, width),
        0 <= i < blocks.len(),
    ensures
        ({
            let index = chain_view(blocks, width);
            let at = index.addresses[i];
            let deleted = blocks.update(i, tombstoned(blocks[i]));
            let file = store_image(deleted);
            let header = header_state(file.subrange(at as int, at as int + 20 + width), width);
            &&& written(
                store_image(blocks),
                at + DELETE_OFFSET as nat,
                le_bytes(STATE_FLAG_DELETE as nat, 4),
            ) == file
            &&& header == tombstoned(blocks[i]).header
            &&& header.state_flag & 1 == 1
            &&& scan(file, empty_view(DESCRIPTOR_SIZE as nat), width) == index
        }),
{
    let start = empty_view(DESCRIPTOR_SIZE as nat);
    let deleted = blocks.update(i, tombstoned(blocks[i]));
    lemma_tag_bytes();
    lemma_written_flags(descriptor_image(), start, blocks, width, i);
    assert(sound_blocks(deleted, width)) by {
        assert forall|k: int| 0 <= k < deleted.len() implies sound_block(
            #[trigger] deleted[k],
            width,
        ) by {
            if k != i {
                assert(deleted[k] == blocks[k]);
            }
        }
    }
    lemma_scan_of_store_image(deleted, width);
    lemma_index_is_consistent(deleted, width, i);
    assert(STATE_FLAG_DELETE & 1 == 1) by (bit_vector);
}

} // verus!
