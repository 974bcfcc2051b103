//! A file as the sequence of its blocks.
//!
//! The sender reads a file block by block; the receiver saves every rebuilt
//! block and in the end joins the saved blocks in the order of their
//! indices. What is stated here ties the two together.

use vstd::prelude::*;
use crate::common::erasure::{
    padded_block, spec_block_count, spec_block_len, spec_block_offset, BLOCK_SIZE,
};

verus! {

/// The bytes of a file that lie in block `block_id`; none beyond the end of
/// the file.
pub open spec fn spec_file_block(file: Seq<u8>, block_id: int) -> Seq<u8> {
    if spec_block_offset(block_id) >= file.len() {
        Seq::empty()
    } else {
        file.subrange(
            spec_block_offset(block_id),
            spec_block_offset(block_id) + spec_block_len(file.len() as int, block_id),
        )
    }
}

/// The first `count` of `blocks`, one behind the other.
pub open spec fn spec_join(blocks: Seq<Seq<u8>>, count: int) -> Seq<u8>
    decreases count,
{
    if count <= 0 {
        Seq::empty()
    } else {
        spec_join(blocks, count - 1) + blocks[count - 1]
    }
}

/// Bytes in the first `count` blocks of a file of `file_size` bytes.
pub open spec fn spec_blocks_total(file_size: int, count: int) -> int
    decreases count,
{
    if count <= 0 {
        0
    } else {
        spec_blocks_total(file_size, count - 1) + spec_block_len(file_size, count - 1)
    }
}

/// How many blocks a file has, and where its last block ends: the blocks
/// before the last are full, the last is not empty, and it ends with the
/// file.
pub proof fn lemma_block_count(file_size: int)
    requires
        0 <= file_size,
    ensures
        0 <= spec_block_count(file_size),
        (spec_block_count(file_size) - 1) * BLOCK_SIZE < file_size || file_size == 0,
        file_size <= spec_block_count(file_size) * BLOCK_SIZE,
        file_size == 0 <==> spec_block_count(file_size) == 0,
        file_size % (BLOCK_SIZE as int) == 0 ==> spec_block_count(file_size) * BLOCK_SIZE
            == file_size,
{
}

/// Every block of a file but the last is full; the last holds what is left
/// and is not empty; beyond the last there is nothing.
pub proof fn lemma_block_len(file_size: int, block_id: int)
    requires
        0 <= file_size,
        0 <= block_id,
    ensures
        0 <= spec_block_len(file_size, block_id) <= BLOCK_SIZE,
        block_id < spec_block_count(file_size) - 1 ==> spec_block_len(file_size, block_id)
            == BLOCK_SIZE,
        block_id == spec_block_count(file_size) - 1 ==> spec_block_len(file_size, block_id)
            == file_size - block_id * BLOCK_SIZE && spec_block_len(file_size, block_id) > 0,
        block_id >= spec_block_count(file_size) ==> spec_block_len(file_size, block_id) == 0,
{
    lemma_block_count(file_size);
}

/// The first `count` blocks of a file hold its first bytes, up to its end.
pub proof fn lemma_blocks_total(file_size: int, count: int)
    requires
        0 <= file_size,
        0 <= count,
    ensures
        spec_blocks_total(file_size, count) == (if count * BLOCK_SIZE <= file_size {
            count * BLOCK_SIZE
        } else {
            file_size
        }),
    decreases count,
{
    if count > 0 {
        lemma_blocks_total(file_size, count - 1);
    }
}

/// The blocks of a file hold as many bytes as the file, whether or not its
/// size is a multiple of the block size.
pub proof fn lemma_blocks_hold_file_size(file_size: int)
    requires
        0 <= file_size,
    ensures
        spec_blocks_total(file_size, spec_block_count(file_size)) == file_size,
{
    lemma_block_count(file_size);
    lemma_blocks_total(file_size, spec_block_count(file_size));
}

/// Blocks of the right lengths, joined, have the length of the file.
pub proof fn lemma_join_len(blocks: Seq<Seq<u8>>, file_size: int, count: int)
    requires
        0 <= file_size,
        0 <= count <= blocks.len(),
        forall|block_id: int|
            0 <= block_id < count ==> (#[trigger] blocks[block_id]).len() == spec_block_len(
                file_size,
                block_id,
            ),
    ensures
        spec_join(blocks, count).len() == spec_blocks_total(file_size, count),
    decreases count,
{
    if count > 0 {
        lemma_join_len(blocks, file_size, count - 1);
    }
}

/// Blocks of the lengths that the blocks of a file have, joined, have the
/// length of the file: the received file has the byte count of the file
/// that was sent, whether or not that is a multiple of the block size.
pub proof fn lemma_joined_blocks_have_file_size(blocks: Seq<Seq<u8>>, file_size: int)
    requires
        0 <= file_size,
        blocks.len() == spec_block_count(file_size),
        forall|block_id: int|
            0 <= block_id < blocks.len() ==> (#[trigger] blocks[block_id]).len() == spec_block_len(
                file_size,
                block_id,
            ),
    ensures
        spec_join(blocks, blocks.len() as int).len() == file_size,
{
    lemma_join_len(blocks, file_size, blocks.len() as int);
    lemma_blocks_hold_file_size(file_size);
}

/// The first `count` blocks of a file, joined, are the first bytes of the
/// file.
pub proof fn lemma_join_prefix(file: Seq<u8>, blocks: Seq<Seq<u8>>, count: int)
    requires
        0 <= count <= blocks.len(),
        forall|block_id: int|
            0 <= block_id < count ==> #[trigger] blocks[block_id] == spec_file_block(
                file,
                block_id,
            ),
    ensures
        spec_join(blocks, count) == file.take(spec_blocks_total(file.len() as int, count)),
    decreases count,
{
    let file_size = file.len() as int;
    if count > 0 {
        lemma_join_prefix(file, blocks, count - 1);
        lemma_blocks_total(file_size, count - 1);
        lemma_blocks_total(file_size, count);
        lemma_block_len(file_size, count - 1);
        assert(spec_join(blocks, count) =~= file.take(spec_blocks_total(file_size, count)));
    } else {
        assert(spec_join(blocks, count) =~= file.take(0));
    }
}

/// Joining the blocks of a file in the order of their indices gives the
/// file.
pub proof fn lemma_join_blocks(file: Seq<u8>, blocks: Seq<Seq<u8>>)
    requires
        blocks.len() == spec_block_count(file.len() as int),
        forall|block_id: int|
            0 <= block_id < blocks.len() ==> #[trigger] blocks[block_id] == spec_file_block(
                file,
                block_id,
            ),
    ensures
        spec_join(blocks, blocks.len() as int) == file,
{
    lemma_join_prefix(file, blocks, blocks.len() as int);
    lemma_blocks_hold_file_size(file.len() as int);
    assert(file.take(file.len() as int) =~= file);
}

/// A block of a file, filled up for coding and cut back to its length, is
/// the block.
pub proof fn lemma_padding_is_cut_off(file: Seq<u8>, block_id: int)
    requires
        0 <= block_id,
    ensures
        padded_block(spec_file_block(file, block_id), BLOCK_SIZE as int).take(
            spec_block_len(file.len() as int, block_id),
        ) == spec_file_block(file, block_id),
{
    lemma_block_len(file.len() as int, block_id);
    assert(padded_block(spec_file_block(file, block_id), BLOCK_SIZE as int).take(
        spec_block_len(file.len() as int, block_id),
    ) =~= spec_file_block(file, block_id));
}

} // verus!
