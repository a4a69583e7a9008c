//! Packed bit-range views: an immutable window (`BitSlice`) and a mutable
//! window (`BitSliceMut`) over bits stored in consecutive fixed-width blocks.
//!
//! A view exposes a half-open range of bits that starts `offset` bits into
//! its first backing block and runs for `len` bits, possibly ending in the
//! middle of its last block. Access is at block granularity: a view hands
//! out and replaces whole storage words, and a caller that needs bit-exact
//! boundary semantics masks and shifts the boundary blocks itself, using
//! `bit_offset` and `bit_len`. Views never own, allocate, grow or shrink
//! their backing blocks.

use crate::storage::BlockType;
use vstd::arithmetic::div_mod::lemma_div_is_ordered;
use vstd::arithmetic::div_mod::lemma_div_nonincreasing;
use vstd::arithmetic::div_mod::lemma_div_pos_is_pos;
use vstd::arithmetic::div_mod::lemma_fundamental_div_mod;
use vstd::arithmetic::div_mod::lemma_fundamental_div_mod_converse;
use vstd::arithmetic::div_mod::lemma_mod_bound;
use vstd::prelude::*;
use vstd::slice::slice_index_get;

verus! {

/// Reported when a block index lies at or past the number of blocks a view
/// touches. The access is refused before any block is read or written.
#[derive(Clone, Copy, Debug, PartialEq, Eq)]
pub enum BitSliceError {
    OutOfBounds,
}

/// The number of whole or partial blocks touched by a window of `len` bits
/// that starts `offset` bits into its first block, with `width` bits to a
/// block: the ceiling of `(offset + len) / width`.
pub open spec fn spec_block_len(offset: int, len: int, width: int) -> int
    recommends
        0 <= offset,
        0 <= len,
        0 < width,
{
    (offset + len + width - 1) / width
}

/// An immutable window over a range of packed bits. Akin to `&[bool]` but
/// packed into blocks; it borrows the blocks it reads and never copies them.
pub struct BitSlice<'a, Block> {
    /// The backing blocks, first touched block first. Shared with any other
    /// readers of the same storage.
    pub bits: &'a [Block],
    /// The number of bits skipped within the first block.
    pub offset: u8,
    /// The number of logical bits visible through the view.
    pub len: u64,
}

/// A mutable window over a range of packed bits. Akin to `&mut [bool]` but
/// packed into blocks; everything a `BitSlice` can do, plus in-place block
/// replacement. It holds the only access path to its blocks for its whole
/// lifetime.
pub struct BitSliceMut<'a, Block> {
    /// The backing blocks, first touched block first. Exclusively borrowed,
    /// so no other view reads or writes them while the view lives.
    pub bits: &'a mut [Block],
    /// The number of bits skipped within the first block.
    pub offset: u8,
    /// The number of logical bits visible through the view.
    pub len: u64,
}

impl<'a, Block: BlockType> BitSlice<'a, Block> {
    /// The blocks the view touches, as a sequence starting at the first
    /// block that holds any of its bits.
    pub open spec fn spec_blocks(&self) -> Seq<Block> {
        self.bits@
    }

    /// The stored logical bit length.
    pub open spec fn spec_bit_len(&self) -> u64 {
        self.len
    }

    /// The stored starting bit offset within the first block.
    pub open spec fn spec_bit_offset(&self) -> u8 {
        self.offset
    }

    /// The number of blocks the view touches.
    pub open spec fn spec_block_len(&self) -> int {
        spec_block_len(self.offset as int, self.len as int, Block::spec_width() as int)
    }

    /// Well-formedness: the starting offset lies inside the first block, and
    /// the backing blocks cover the whole bit range.
    pub open spec fn wf(&self) -> bool {
        &&& (self.offset as int) < Block::spec_width()
        &&& self.offset + self.len <= self.bits@.len() * Block::spec_width()
    }

    /// Creates a `BitSlice` from the blocks holding its data, the offset
    /// where the bits start within the first block, and the number of
    /// available bits. Nothing is validated at run time: the caller
    /// establishes that the offset lies inside one block and that the
    /// backing blocks hold at least `offset + len` bits.
    pub fn from_raw_parts(bits: &'a [Block], offset: u8, len: u64) -> (r: Self)
        requires
            (offset as int) < Block::spec_width(),
            offset + len <= bits@.len() * Block::spec_width(),
        ensures
            r.wf(),
            r.spec_blocks() == bits@,
            r.spec_bit_offset() == offset,
            r.spec_bit_len() == len,
    {
        BitSlice { bits, offset, len }
    }

    /// Returns the stored logical bit length, exactly as constructed.
    pub fn bit_len(&self) -> (r: u64)
        ensures
            r == self.spec_bit_len(),
    {
        self.len
    }

    /// Returns the stored starting bit offset, exactly as constructed.
    pub fn bit_offset(&self) -> (r: u8)
        ensures
            r == self.spec_bit_offset(),
    {
        self.offset
    }

    /// Returns the number of blocks the view touches, including partially
    /// covered boundary blocks: the ceiling of `(offset + len) / width`.
    pub fn block_len(&self) -> (r: usize)
        requires
            self.wf(),
        ensures
            r as int == self.spec_block_len(),
    {
        let w: u64 = Block::block_width();
        let total: u128 = self.offset as u128 + self.len as u128;
        let wide: u128 = w as u128;
        let whole: u128 = total / wide;
        let part: u128 = total % wide;
        proof {
            lemma_div_nonincreasing(total as int, wide as int);
            lemma_ceil_div(total as int, wide as int);
            lemma_block_len_fits(
                self.offset as int,
                self.len as int,
                w as int,
                self.bits@.len() as int,
            );
            vstd::slice::axiom_spec_len::<Block>(self.bits);
        }
        let blocks: u128 = if part == 0 {
            whole
        } else {
            whole + 1
        };
        blocks as usize
    }

    /// Returns the raw block at the given zero-based index within the view's
    /// own block address space (index 0 is the first block the view touches),
    /// or reports a bounds violation when the index lies at or past the
    /// view's block length. A boundary block comes back whole: bits outside
    /// the view's own range are not masked off.
    pub fn get_block(&self, position: usize) -> (r: Result<Block, BitSliceError>)
        requires
            self.wf(),
        ensures
            (position as int) < self.spec_block_len() ==> r == Ok::<Block, BitSliceError>(
                self.spec_blocks()[position as int],
            ),
            (position as int) >= self.spec_block_len() ==> r == Err::<Block, BitSliceError>(
                BitSliceError::OutOfBounds,
            ),
    {
        if position < self.block_len() {
            proof {
                lemma_block_len_fits(
                    self.offset as int,
                    self.len as int,
                    Block::spec_width() as int,
                    self.bits@.len() as int,
                );
            }
            Ok(*slice_index_get(self.bits, position))
        } else {
            Err(BitSliceError::OutOfBounds)
        }
    }
}

impl<'a, Block: BlockType> BitSliceMut<'a, Block> {
    /// The blocks the view touches, as they currently stand.
    pub open spec fn spec_blocks(&self) -> Seq<Block> {
        self.bits@
    }

    /// The stored logical bit length.
    pub open spec fn spec_bit_len(&self) -> u64 {
        self.len
    }

    /// The stored starting bit offset within the first block.
    pub open spec fn spec_bit_offset(&self) -> u8 {
        self.offset
    }

    /// The number of blocks the view touches.
    pub open spec fn spec_block_len(&self) -> int {
        spec_block_len(self.offset as int, self.len as int, Block::spec_width() as int)
    }

    /// Well-formedness: the starting offset lies inside the first block, and
    /// the backing blocks cover the whole bit range.
    pub open spec fn wf(&self) -> bool {
        &&& (self.offset as int) < Block::spec_width()
        &&& self.offset + self.len <= self.bits@.len() * Block::spec_width()
    }

    /// Creates a `BitSliceMut` from the blocks holding its data, the offset
    /// where the bits start within the first block, and the number of
    /// available bits. Nothing is validated at run time: the caller
    /// establishes that the offset lies inside one block and that the
    /// backing blocks hold at least `offset + len` bits. The borrow is
    /// exclusive: whatever the view writes is what the backing storage
    /// holds once the view is gone.
    pub fn from_raw_parts(bits: &'a mut [Block], offset: u8, len: u64) -> (r: Self)
        requires
            (offset as int) < Block::spec_width(),
            offset + len <= old(bits)@.len() * Block::spec_width(),
        ensures
            r.wf(),
            r.spec_blocks() == old(bits)@,
            r.spec_bit_offset() == offset,
            r.spec_bit_len() == len,
            final(r.bits)@ == final(bits)@,
    {
        BitSliceMut { bits, offset, len }
    }

    /// Returns the stored logical bit length, exactly as constructed.
    pub fn bit_len(&self) -> (r: u64)
        ensures
            r == self.spec_bit_len(),
    {
        self.len
    }

    /// Returns the stored starting bit offset, exactly as constructed.
    pub fn bit_offset(&self) -> (r: u8)
        ensures
            r == self.spec_bit_offset(),
    {
        self.offset
    }

    /// Returns the number of blocks the view touches, including partially
    /// covered boundary blocks: the ceiling of `(offset + len) / width`.
    pub fn block_len(&self) -> (r: usize)
        requires
            self.wf(),
        ensures
            r as int == self.spec_block_len(),
    {
        let w: u64 = Block::block_width();
        let total: u128 = self.offset as u128 + self.len as u128;
        let wide: u128 = w as u128;
        let whole: u128 = total / wide;
        let part: u128 = total % wide;
        proof {
            lemma_div_nonincreasing(total as int, wide as int);
            lemma_ceil_div(total as int, wide as int);
            lemma_block_len_fits(
                self.offset as int,
                self.len as int,
                w as int,
                self.bits@.len() as int,
            );
            vstd::slice::axiom_spec_len::<Block>(self.bits);
        }
        let blocks: u128 = if part == 0 {
            whole
        } else {
            whole + 1
        };
        blocks as usize
    }

    /// Returns the raw block at the given zero-based index within the view's
    /// own block address space, or reports a bounds violation when the index
    /// lies at or past the view's block length. A boundary block comes back
    /// whole: bits outside the view's own range are not masked off.
    pub fn get_block(&self, position: usize) -> (r: Result<Block, BitSliceError>)
        requires
            self.wf(),
        ensures
            (position as int) < self.spec_block_len() ==> r == Ok::<Block, BitSliceError>(
                self.spec_blocks()[position as int],
            ),
            (position as int) >= self.spec_block_len() ==> r == Err::<Block, BitSliceError>(
                BitSliceError::OutOfBounds,
            ),
    {
        if position < self.block_len() {
            proof {
                lemma_block_len_fits(
                    self.offset as int,
                    self.len as int,
                    Block::spec_width() as int,
                    self.bits@.len() as int,
                );
            }
            Ok(*slice_index_get(self.bits, position))
        } else {
            Err(BitSliceError::OutOfBounds)
        }
    }

    /// Overwrites the whole block at the given zero-based index with `value`,
    /// or reports a bounds violation, leaving every block unchanged, when the
    /// index lies at or past the view's block length. The write replaces the
    /// full word: in a partially covered boundary block, bits outside the
    /// view's own range are overwritten too, and a layer that wants them kept
    /// must mask and merge before writing.
    pub fn set_block(&mut self, position: usize, value: Block) -> (r: Result<(), BitSliceError>)
        requires
            old(self).wf(),
        ensures
            final(self).wf(),
            final(self).spec_bit_offset() == old(self).spec_bit_offset(),
            final(self).spec_bit_len() == old(self).spec_bit_len(),
            final(self).spec_block_len() == old(self).spec_block_len(),
            final(final(self).bits)@ == final(old(self).bits)@,
            (position as int) < old(self).spec_block_len() ==> (r == Ok::<(), BitSliceError>(())
                && final(self).spec_blocks() == old(self).spec_blocks().update(
                position as int,
                value,
            )),
            (position as int) >= old(self).spec_block_len() ==> (r == Err::<(), BitSliceError>(
                BitSliceError::OutOfBounds,
            ) && final(self).spec_blocks() == old(self).spec_blocks()),
    {
        if position < self.block_len() {
            proof {
                lemma_block_len_fits(
                    self.offset as int,
                    self.len as int,
                    Block::spec_width() as int,
                    self.bits@.len() as int,
                );
            }
            self.bits[position] = value;
            Ok(())
        } else {
            Err(BitSliceError::OutOfBounds)
        }
    }
}

/// The ceiling division `(total + width - 1) / width` counts one quotient
/// step for every whole `width` and one more for a nonempty remainder.
proof fn lemma_ceil_div(total: int, width: int)
    requires
        0 <= total,
        0 < width,
    ensures
        (total + width - 1) / width == total / width + (if total % width == 0 {
            0int
        } else {
            1int
        }),
{
    let q = total / width;
    let m = total % width;
    lemma_fundamental_div_mod(total, width);
    lemma_mod_bound(total, width);
    if m == 0 {
        lemma_fundamental_div_mod_converse(total + width - 1, width, q, width - 1);
    } else {
        assert((q + 1) * width == q * width + width) by (nonlinear_arith);
        lemma_fundamental_div_mod_converse(total + width - 1, width, q + 1, m - 1);
    }
}

/// A bit range that fits in its backing blocks touches no more blocks than
/// the backing holds: when `offset + len <= backing * width`, the block
/// length is at most `backing`.
proof fn lemma_block_len_fits(offset: int, len: int, width: int, backing: int)
    requires
        0 <= offset,
        0 <= len,
        0 < width,
        offset + len <= backing * width,
    ensures
        0 <= spec_block_len(offset, len, width) <= backing,
{
    let t = offset + len;
    lemma_div_pos_is_pos(t + width - 1, width);
    lemma_div_is_ordered(t + width - 1, backing * width + width - 1, width);
    lemma_fundamental_div_mod_converse(backing * width + width - 1, width, backing, width - 1);
}

/// Write-then-read identity. A mutable view left by a successful block write
/// — same offset and length, blocks updated at the written position — is
/// well formed, touches the same number of blocks, and holds exactly the
/// written value at the written position, which is what a following block
/// read at that position returns.
pub proof fn lemma_write_then_read<'a, Block: BlockType>(
    before: BitSliceMut<'a, Block>,
    after: BitSliceMut<'a, Block>,
    position: usize,
    value: Block,
)
    requires
        before.wf(),
        (position as int) < before.spec_block_len(),
        after.spec_bit_offset() == before.spec_bit_offset(),
        after.spec_bit_len() == before.spec_bit_len(),
        after.spec_blocks() == before.spec_blocks().update(position as int, value),
    ensures
        after.wf(),
        after.spec_block_len() == before.spec_block_len(),
        (position as int) < after.spec_block_len(),
        after.spec_blocks()[position as int] == value,
{
    lemma_block_len_fits(
        before.offset as int,
        before.len as int,
        Block::spec_width() as int,
        before.bits@.len() as int,
    );
}

/// The block length is the exact ceiling of `(offset + len) / width`: the
/// blocks it counts cover the whole bit range; an empty range at offset zero
/// touches no block; a range that fills its blocks exactly counts no spare
/// block; and a nonempty range does not fit in one block fewer.
pub proof fn lemma_block_len_ceiling(offset: int, len: int, width: int)
    requires
        0 <= offset,
        0 <= len,
        0 < width,
    ensures
        offset + len <= spec_block_len(offset, len, width) * width,
        offset + len == 0 ==> spec_block_len(offset, len, width) == 0,
        (offset + len) % width == 0 ==> spec_block_len(offset, len, width) == (offset + len)
            / width,
        0 < offset + len ==> (spec_block_len(offset, len, width) - 1) * width < offset + len,
{
    let t = offset + len;
    let q = t / width;
    let m = t % width;
    lemma_fundamental_div_mod(t, width);
    lemma_mod_bound(t, width);
    lemma_div_pos_is_pos(t, width);
    lemma_ceil_div(t, width);
    if m == 0 {
        assert(q * width == t) by (nonlinear_arith)
            requires
                t == width * q + 0,
        ;
        assert(t == 0 ==> q == 0) by (nonlinear_arith)
            requires
                q * width == t,
                0 < width,
                0 <= q,
        ;
        assert((q - 1) * width == q * width - width) by (nonlinear_arith);
    } else {
        assert((q + 1) * width == q * width + width) by (nonlinear_arith);
        assert(0 < t);
    }
}

/// Disjoint windows over one buffer do not alias. Splitting a buffer of
/// blocks at `split` and writing a block on one side leaves every block on
/// the other side unchanged, so views built over the two sides never observe
/// each other's writes.
pub proof fn lemma_disjoint_windows_independent<Block>(
    buffer: Seq<Block>,
    split: int,
    position: int,
    value: Block,
)
    requires
        0 <= split <= buffer.len(),
        0 <= position < buffer.len(),
    ensures
        position < split ==> buffer.update(position, value).subrange(split, buffer.len() as int)
            == buffer.subrange(split, buffer.len() as int),
        split <= position ==> buffer.update(position, value).subrange(0, split) == buffer.subrange(
            0,
            split,
        ),
{
    if position < split {
        assert(buffer.update(position, value).subrange(split, buffer.len() as int)
            =~= buffer.subrange(split, buffer.len() as int));
    } else {
        assert(buffer.update(position, value).subrange(0, split) =~= buffer.subrange(0, split));
    }
}

} // verus!
