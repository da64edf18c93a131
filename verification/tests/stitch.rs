//! Bitmap-stitcher tests: the row-wise blit against exact expected bytes.

use gggg_ui::stitch::{stitch, StitchEntry};

#[test]
fn two_single_pixel_bitmaps_stitch_side_by_side() {
    // a 2x2 single-channel atlas with 1x1 bitmaps 0x11 at (0,0) and 0x22
    // at (1,0): row 0 is [0x11, 0x22], row 1 stays zero
    let entries = vec![
        StitchEntry { x: 0, y: 0, w: 1, h: 1, data: vec![0x11] },
        StitchEntry { x: 1, y: 0, w: 1, h: 1, data: vec![0x22] },
    ];
    let out = stitch(2, 2, 1, &entries);
    assert_eq!(out, vec![0x11, 0x22, 0x00, 0x00]);
}

#[test]
fn rows_are_copied_with_the_destination_stride() {
    // a 2x2 bitmap into a 4x3 destination at (1,1): each source row lands
    // on its own destination row
    let entries = vec![
        StitchEntry { x: 1, y: 1, w: 2, h: 2, data: vec![1, 2, 3, 4] },
    ];
    let out = stitch(4, 3, 1, &entries);
    assert_eq!(
        out,
        vec![
            0, 0, 0, 0,
            0, 1, 2, 0,
            0, 3, 4, 0,
        ],
    );
}

#[test]
fn multi_channel_pixels_keep_their_bytes_together() {
    let entries = vec![StitchEntry { x: 1, y: 0, w: 1, h: 1, data: vec![9, 8, 7, 6] }];
    let out = stitch(2, 1, 4, &entries);
    assert_eq!(out, vec![0, 0, 0, 0, 9, 8, 7, 6]);
}

#[test]
fn empty_entries_leave_a_zero_buffer() {
    let out = stitch(3, 2, 1, &Vec::new());
    assert_eq!(out, vec![0; 6]);
}
