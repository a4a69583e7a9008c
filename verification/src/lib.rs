//! Packed bit-addressable views.
//!
//! This crate exposes a contiguous range of bits, backed by consecutive
//! fixed-width storage words ("blocks"), as a sliceable window without
//! copying: an immutable view for reading and a mutable view that adds
//! in-place block replacement. Views never own, grow or shrink their
//! backing storage; they are windows into blocks owned elsewhere.

pub mod bit_slice;
pub mod storage;

pub use bit_slice::BitSlice;
pub use bit_slice::BitSliceError;
pub use bit_slice::BitSliceMut;
pub use storage::BlockType;
