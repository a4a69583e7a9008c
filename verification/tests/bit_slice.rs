use bv::BitSlice;
use bv::BitSliceError;
use bv::BitSliceMut;
use bv::BlockType;

#[test]
fn constructor_reports_stored_values() {
    let buf: [u8; 3] = [0, 0, 0];
    let view = BitSlice::from_raw_parts(&buf, 3, 9);
    assert_eq!(view.bit_len(), 9);
    assert_eq!(view.bit_offset(), 3);

    let mut buf2: [u8; 3] = [0, 0, 0];
    let view2 = BitSliceMut::from_raw_parts(&mut buf2, 5, 17);
    assert_eq!(view2.bit_len(), 17);
    assert_eq!(view2.bit_offset(), 5);
}

#[test]
fn write_then_read_identity() {
    let mut buf: [u8; 2] = [0, 0];
    let mut view = BitSliceMut::from_raw_parts(&mut buf, 4, 8);
    assert_eq!(view.set_block(0, 0xAB), Ok(()));
    assert_eq!(view.get_block(0), Ok(0xAB));
    assert_eq!(view.set_block(1, 0x5C), Ok(()));
    assert_eq!(view.get_block(1), Ok(0x5C));
}

#[test]
fn write_then_read_identity_wide_blocks() {
    let mut buf: [u64; 2] = [0, 0];
    let mut view = BitSliceMut::from_raw_parts(&mut buf, 63, 2);
    assert_eq!(view.block_len(), 2);
    assert_eq!(view.set_block(1, 0xDEAD_BEEF_0000_0001), Ok(()));
    assert_eq!(view.get_block(1), Ok(0xDEAD_BEEF_0000_0001));
}

#[test]
fn out_of_bounds_reported_and_nothing_touched() {
    let mut buf: [u8; 2] = [0x21, 0x43];
    let mut view = BitSliceMut::from_raw_parts(&mut buf, 0, 16);
    assert_eq!(view.block_len(), 2);
    assert_eq!(view.get_block(2), Err(BitSliceError::OutOfBounds));
    assert_eq!(view.set_block(2, 0xFF), Err(BitSliceError::OutOfBounds));
    assert_eq!(view.get_block(usize::MAX), Err(BitSliceError::OutOfBounds));
    assert_eq!(view.get_block(0), Ok(0x21));
    assert_eq!(view.get_block(1), Ok(0x43));

    let ro: [u8; 1] = [7];
    let view2 = BitSlice::from_raw_parts(&ro, 0, 8);
    assert_eq!(view2.get_block(1), Err(BitSliceError::OutOfBounds));
    assert_eq!(view2.get_block(0), Ok(7));
}

#[test]
fn block_len_matches_ceiling_of_bit_range() {
    let buf: [u8; 2] = [0, 0];
    assert_eq!(BitSlice::from_raw_parts(&buf, 0, 0).block_len(), 0);
    assert_eq!(BitSlice::from_raw_parts(&buf, 0, 1).block_len(), 1);
    assert_eq!(BitSlice::from_raw_parts(&buf, 0, 8).block_len(), 1);
    assert_eq!(BitSlice::from_raw_parts(&buf, 0, 9).block_len(), 2);
    assert_eq!(BitSlice::from_raw_parts(&buf, 0, 16).block_len(), 2);
    assert_eq!(BitSlice::from_raw_parts(&buf, 4, 8).block_len(), 2);
    assert_eq!(BitSlice::from_raw_parts(&buf, 7, 1).block_len(), 1);
    assert_eq!(BitSlice::from_raw_parts(&buf, 7, 2).block_len(), 2);
    assert_eq!(BitSlice::from_raw_parts(&buf, 3, 0).block_len(), 1);

    let wide: [u64; 2] = [0, 0];
    assert_eq!(BitSlice::from_raw_parts(&wide, 0, 0).block_len(), 0);
    assert_eq!(BitSlice::from_raw_parts(&wide, 0, 64).block_len(), 1);
    assert_eq!(BitSlice::from_raw_parts(&wide, 63, 1).block_len(), 1);
    assert_eq!(BitSlice::from_raw_parts(&wide, 0, 65).block_len(), 2);
    assert_eq!(BitSlice::from_raw_parts(&wide, 10, 54).block_len(), 1);
    assert_eq!(BitSlice::from_raw_parts(&wide, 0, 128).block_len(), 2);

    let half: [u16; 2] = [0, 0];
    assert_eq!(BitSlice::from_raw_parts(&half, 0, 16).block_len(), 1);
    assert_eq!(BitSlice::from_raw_parts(&half, 15, 17).block_len(), 2);

    let word: [u32; 2] = [0, 0];
    assert_eq!(BitSlice::from_raw_parts(&word, 0, 32).block_len(), 1);
    assert_eq!(BitSlice::from_raw_parts(&word, 1, 32).block_len(), 2);
}

#[test]
fn disjoint_views_do_not_interfere() {
    let mut buf: [u8; 2] = [0, 0];
    {
        let (low, high) = buf.split_at_mut(1);
        let mut low_view = BitSliceMut::from_raw_parts(low, 0, 8);
        let mut high_view = BitSliceMut::from_raw_parts(high, 0, 8);
        assert_eq!(low_view.set_block(0, 0x11), Ok(()));
        assert_eq!(high_view.set_block(0, 0x22), Ok(()));
        assert_eq!(low_view.get_block(0), Ok(0x11));
        assert_eq!(high_view.get_block(0), Ok(0x22));
    }
    let low_read = BitSlice::from_raw_parts(&buf[0..1], 0, 8);
    let high_read = BitSlice::from_raw_parts(&buf[1..2], 0, 8);
    assert_eq!(low_read.get_block(0), Ok(0x11));
    assert_eq!(high_read.get_block(0), Ok(0x22));
}

#[test]
fn scenario_single_block() {
    let mut buf: [u8; 1] = [0b0000_0000];
    let mut view = BitSliceMut::from_raw_parts(&mut buf, 0, 8);
    assert_eq!(view.get_block(0), Ok(0));
    assert_eq!(view.set_block(0, 0b1111_0000), Ok(()));
    assert_eq!(view.get_block(0), Ok(0b1111_0000));
}

#[test]
fn scenario_spanning_blocks_overwrites_whole_words() {
    let mut buf: [u8; 2] = [0x00, 0x00];
    {
        let mut view = BitSliceMut::from_raw_parts(&mut buf, 4, 8);
        assert_eq!(view.block_len(), 2);
        assert_eq!(view.set_block(0, 0xFF), Ok(()));
        assert_eq!(view.set_block(1, 0xFF), Ok(()));
        assert_eq!(view.get_block(0), Ok(0xFF));
        assert_eq!(view.get_block(1), Ok(0xFF));
    }
    // The boundary words are replaced whole, bits outside the logical
    // range included.
    assert_eq!(buf, [0xFF, 0xFF]);
}

#[test]
fn scenario_empty_view() {
    let mut buf: [u8; 1] = [0];
    let mut view = BitSliceMut::from_raw_parts(&mut buf, 0, 0);
    assert_eq!(view.block_len(), 0);
    assert_eq!(view.get_block(0), Err(BitSliceError::OutOfBounds));
    assert_eq!(view.set_block(0, 1), Err(BitSliceError::OutOfBounds));
    assert_eq!(buf, [0]);

    let empty: [u8; 0] = [];
    let view2 = BitSlice::from_raw_parts(&empty, 0, 0);
    assert_eq!(view2.block_len(), 0);
    assert_eq!(view2.get_block(0), Err(BitSliceError::OutOfBounds));
}

#[test]
fn block_widths_are_fixed() {
    assert_eq!(<u8 as BlockType>::block_width(), 8);
    assert_eq!(<u16 as BlockType>::block_width(), 16);
    assert_eq!(<u32 as BlockType>::block_width(), 32);
    assert_eq!(<u64 as BlockType>::block_width(), 64);
}

#[test]
fn views_share_a_buffer_for_reading() {
    let buf: [u8; 2] = [0xA5, 0x3C];
    let whole = BitSlice::from_raw_parts(&buf, 0, 16);
    let tail = BitSlice::from_raw_parts(&buf[1..2], 0, 8);
    assert_eq!(whole.get_block(0), Ok(0xA5));
    assert_eq!(whole.get_block(1), Ok(0x3C));
    assert_eq!(tail.get_block(0), Ok(0x3C));
}
