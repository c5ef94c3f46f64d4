//! Luma planes: cropping, padding, sharpening, halving, thumbnails.

use opfer::image::{crop_center_square, crop_region, downscale2, pad_white, sharpen3x3};
use opfer::plane::{extract_luma, is_plane_fit};
use opfer::preview::{downscale_preview, try_preview};

#[test]
fn padding_puts_white_all_round() {
    let (out, w, h) = pad_white(&[1, 2, 3, 4, 5, 6], 3, 2, 1);
    assert_eq!((w, h), (5, 4));
    assert_eq!(out, vec![
        255, 255, 255, 255, 255,
        255,   1,   2,   3, 255,
        255,   4,   5,   6, 255,
        255, 255, 255, 255, 255,
    ]);
    assert_eq!(pad_white(&[9], 1, 1, 0), (vec![9], 1, 1));
    assert_eq!(pad_white(&[], 0, 0, 1), (vec![255; 4], 2, 2));
}

#[test]
fn cropping_undoes_padding() {
    let plane: Vec<u8> = (0..35).collect();
    let (padded, w, h) = pad_white(&plane, 7, 5, 3);
    assert_eq!((w, h), (13, 11));
    assert_eq!(crop_region(&padded, w, 3, 3, 7, 5), plane);
}

#[test]
fn a_whole_crop_is_the_plane() {
    let plane: Vec<u8> = (0..12).collect();
    assert_eq!(crop_region(&plane, 4, 0, 0, 4, 3), plane);
}

#[test]
fn a_crop_past_the_end_is_black_row_by_row() {
    let plane: Vec<u8> = (1..=9).collect();
    assert_eq!(crop_region(&plane, 3, 1, 1, 2, 3), vec![5, 6, 8, 9, 0, 0]);
    assert_eq!(crop_region(&plane, 3, 2, 2, 2, 1), vec![0, 0]);
}

#[test]
fn the_centre_square_is_as_wide_as_the_shorter_side() {
    let plane: Vec<u8> = (0..15).collect();
    assert_eq!(crop_center_square(&plane, 5, 3), (vec![1, 2, 3, 6, 7, 8, 11, 12, 13], 3));
    let tall: Vec<u8> = (0..10).collect();
    assert_eq!(crop_center_square(&tall, 2, 5), (vec![2, 3, 4, 5], 2));
    assert_eq!(crop_center_square(&[], 0, 4), (vec![], 0));
}

#[test]
fn halving_takes_the_mean_of_blocks() {
    let plane = [
        10, 20,  0,  0, 99,
        30, 43, 255, 255, 99,
        77, 77, 77, 77, 77,
    ];
    assert_eq!(downscale2(&plane, 5, 3), (vec![25, 127], 2, 1));
    assert_eq!(downscale2(&[200; 16], 4, 4), (vec![200; 4], 2, 2));
    assert_eq!(downscale2(&[7], 1, 1), (vec![], 0, 0));
}

#[test]
fn sharpening_weighs_the_centre_against_its_neighbours() {
    let plane = [
        1,   10,  3,
        20, 100, 30,
        4,   40,  5,
    ];
    let mut expected = plane.to_vec();
    expected[4] = 255;
    assert_eq!(sharpen3x3(&plane, 3, 3), expected);
    let mut dim = plane;
    dim[4] = 30;
    expected[4] = 50;
    assert_eq!(sharpen3x3(&dim, 3, 3), expected);
    dim[4] = 10;
    expected[4] = 0;
    assert_eq!(sharpen3x3(&dim, 3, 3), expected);
}

#[test]
fn sharpening_keeps_even_and_narrow_planes() {
    assert_eq!(sharpen3x3(&[90; 20], 5, 4), vec![90; 20]);
    assert_eq!(sharpen3x3(&[1, 2, 3, 4, 5, 6], 2, 3), vec![1, 2, 3, 4, 5, 6]);
}

#[test]
fn a_thumbnail_of_a_small_frame_is_the_frame() {
    let p = downscale_preview(&[0x4d, 0x61, 0x6e, 0x00, 0xff, 0x10], 3, 2, 270);
    assert_eq!((p.w, p.h, p.orientation), (3, 2, 270));
    assert_eq!(p.gray, "TWFuAP8Q");
}

#[test]
fn a_thumbnail_is_at_most_so_wide_and_keeps_the_aspect() {
    let p = downscale_preview(&vec![65u8; 960 * 540], 960, 540, 90);
    assert_eq!((p.w, p.h), (480, 270));
    assert_eq!(p.gray.len(), 480 * 270 / 3 * 4);
    assert_eq!(&p.gray[..8], "QUFBQUFB");
}

#[test]
fn a_thumbnail_pixel_is_the_mean_of_its_box() {
    let mut luma = vec![0u8; 960 * 2];
    luma[0] = 1;
    luma[1] = 2;
    luma[960] = 3;
    luma[961] = 9;
    let p = downscale_preview(&luma, 960, 2, 0);
    assert_eq!((p.w, p.h), (480, 1));
    assert_eq!(&p.gray[..4], "AwAA");
}

#[test]
fn a_frame_without_rows_has_a_black_thumbnail() {
    let p = downscale_preview(&[], 2, 0, 0);
    assert_eq!((p.w, p.h), (2, 1));
    assert_eq!(p.gray, "AAA=");
}

#[test]
fn frames_without_pixels_have_no_thumbnail() {
    assert!(try_preview(&[], 0, 5, 0).is_none());
    assert!(try_preview(&[1, 2, 3], 2, 2, 0).is_none());
    assert!(try_preview(&[1, 2, 3, 4], 2, 2, 0).is_some());
}

#[test]
fn row_padding_is_dropped() {
    let src = [1, 2, 3, 0, 4, 5, 6, 0, 7, 8, 9];
    let frame = extract_luma(&src, 3, 3, 4, 1).unwrap();
    assert_eq!((frame.w, frame.h), (3, 3));
    assert_eq!(frame.luma, vec![1, 2, 3, 4, 5, 6, 7, 8, 9]);
}

#[test]
fn a_grid_keeps_the_centred_square() {
    let src: Vec<u8> = (0..24).collect();
    let whole = extract_luma(&src, 5, 3, 8, 1).unwrap();
    let square = extract_luma(&src, 5, 3, 8, 2).unwrap();
    assert_eq!((square.w, square.h), (3, 3));
    assert_eq!(square.luma, vec![1, 2, 3, 9, 10, 11, 17, 18, 19]);
    assert_eq!(crop_center_square(&whole.luma, 5, 3).0, square.luma);
}

#[test]
fn a_short_plane_and_a_narrow_stride() {
    let frame = extract_luma(&[1, 2, 3, 4, 5], 2, 3, 0, 1).unwrap();
    assert_eq!(frame.luma, vec![1, 2, 3, 4, 0, 0]);
    assert!(extract_luma(&[1], 0, 3, 4, 1).is_none());
    assert!(extract_luma(&[1], 3, -1, 4, 1).is_none());
    assert!(is_plane_fit(3, 3, 4, 2));
}
