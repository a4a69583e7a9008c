//! The fixed-width storage word ("block") abstraction that packed bit views
//! are built over.

use vstd::prelude::*;

verus! {

/// A fixed-width unsigned storage word used as the atomic unit of memory
/// access for packed bits.
///
/// A block type exposes a known, fixed bit width and is freely copyable as an
/// opaque fixed-size value; views read and replace whole blocks and assume no
/// further structure.
pub trait BlockType: Copy + Sized {
    /// The number of bits in one block, as a mathematical value.
    spec fn spec_width() -> u64;

    /// Returns the number of bits in one block. The width is fixed for the
    /// type and always positive.
    fn block_width() -> (w: u64)
        ensures
            w == Self::spec_width(),
            0 < w,
    ;
}

impl BlockType for u8 {
    open spec fn spec_width() -> u64 {
        8
    }

    fn block_width() -> (w: u64) {
        8
    }
}

impl BlockType for u16 {
    open spec fn spec_width() -> u64 {
        16
    }

    fn block_width() -> (w: u64) {
        16
    }
}

impl BlockType for u32 {
    open spec fn spec_width() -> u64 {
        32
    }

    fn block_width() -> (w: u64) {
        32
    }
}

impl BlockType for u64 {
    open spec fn spec_width() -> u64 {
        64
    }

    fn block_width() -> (w: u64) {
        64
    }
}

} // verus!
