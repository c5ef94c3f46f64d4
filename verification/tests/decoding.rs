//! Codes that are drawn, decoded and read back.

use std::collections::HashSet;

use opfer::decoder::{collect_tiles, settle_single, DecodeStep, Decoder, TRY_HARDER};
use opfer::payload::{extract_payload, QrRead};
use rxing::common::GlobalHistogramBinarizer;
use rxing::qrcode::QRCodeWriter;
use rxing::{
    BarcodeFormat, BinaryBitmap, DecodeHints, EncodeHints, Luma8LuminanceSource, MultiFormatReader,
    RXingResult, RXingResultMetadataType, RXingResultMetadataValue, Reader, Writer,
};

/// A transfer frame with a head and some bytes of its own.
fn transfer_frame(session: u16, seq: u32) -> Vec<u8> {
    let mut frame = vec![0xd1, 0x0c];
    frame.extend_from_slice(&session.to_le_bytes());
    frame.extend_from_slice(&seq.to_le_bytes());
    for i in 0..40u8 {
        frame.push(i.wrapping_mul(7).wrapping_add(0x80));
    }
    frame
}

/// Draws the bytes as one code on a square of `side` pixels, with `margin` modules round it.
fn draw(bytes: &[u8], side: usize, margin: &str) -> Vec<u8> {
    let text: String = bytes.iter().map(|b| *b as char).collect();
    let mut hints = EncodeHints::default();
    hints.Margin = Some(margin.to_string());
    let matrix = QRCodeWriter::default()
        .encode_with_hints(&text, &BarcodeFormat::QR_CODE, side as i32, side as i32, &hints)
        .unwrap();
    let mut luma = vec![255u8; side * side];
    for y in 0..side {
        for x in 0..side {
            if matrix.get(x as u32, y as u32) {
                luma[y * side + x] = 0;
            }
        }
    }
    luma
}

/// Copies a square picture into a wider one.
fn paste(into: &mut [u8], w: usize, picture: &[u8], side: usize, x0: usize, y0: usize) {
    for y in 0..side {
        let to = (y0 + y) * w + x0;
        into[to..to + side].copy_from_slice(&picture[y * side..(y + 1) * side]);
    }
}

/// What the reader reports, as the library takes it.
fn qr_read(found: RXingResult) -> QrRead {
    let segments = match found.getRXingResultMetadata().get(&RXingResultMetadataType::BYTE_SEGMENTS) {
        Some(RXingResultMetadataValue::ByteSegments(s)) => Some(s.clone()),
        _ => None,
    };
    QrRead { segments, text: found.getText().chars().collect() }
}

fn hints() -> DecodeHints {
    let mut hints = DecodeHints::default();
    hints.TryHarder = Some(TRY_HARDER);
    hints
}

fn read_global(luma: Vec<u8>, w: u32, h: u32) -> Option<QrRead> {
    let mut hints = hints();
    hints.PossibleFormats = Some(HashSet::from([BarcodeFormat::QR_CODE]));
    let source = Luma8LuminanceSource::new(luma, w, h);
    let mut image = BinaryBitmap::new(GlobalHistogramBinarizer::new(source));
    MultiFormatReader::default().decode_with_hints(&mut image, &hints).ok().map(qr_read)
}

fn read_hybrid(luma: Vec<u8>, w: u32, h: u32) -> Option<QrRead> {
    let qr = Some(BarcodeFormat::QR_CODE);
    rxing::helpers::detect_in_luma_with_hints(luma, w, h, qr, &mut hints()).ok().map(qr_read)
}

/// Decodes a frame with the real reader: the payloads, the images that were read and the codes that
/// were found; nothing where the frame was lost.
fn decode(
    luma: Vec<u8>,
    w: u32,
    h: u32,
    grid: usize,
    sharpen: bool,
) -> Option<(Vec<Vec<u8>>, usize, usize)> {
    let (mut decoding, mut step) = Decoder::new().decode(luma, w, h, grid, sharpen);
    loop {
        step = match step {
            DecodeStep::ReadGlobal(image, w, h) => decoding.answer(read_global(image, w, h)),
            DecodeStep::ReadHybrid(image, w, h) => decoding.answer(read_hybrid(image, w, h)),
            DecodeStep::Done(d) => return Some((d.payloads, d.attempts, d.detected)),
            DecodeStep::Lost => return None,
        };
    }
}

#[test]
fn a_single_code_is_read_back() {
    let payload = transfer_frame(7, 1234);
    for grid in 0..2usize {
        for sharpen in [false, true] {
            let luma = draw(&payload, 300, "4");
            assert_eq!(decode(luma, 300, 300, grid, sharpen), Some((vec![payload.clone()], 1, 1)));
        }
    }
}

#[test]
fn a_code_without_a_margin_is_read_back() {
    let payload = transfer_frame(9, 1);
    let side = 33 * 7;
    let luma = draw(&payload, side, "0");
    assert_eq!(decode(luma, side as u32, side as u32, 1, false), Some((vec![payload], 1, 1)));
}

#[test]
fn a_code_outside_the_centre_is_read_from_the_whole_frame() {
    let payload = transfer_frame(3, 99);
    let mut frame = vec![255u8; 900 * 300];
    paste(&mut frame, 900, &draw(&payload, 300, "4"), 300, 0, 0);
    assert_eq!(decode(frame, 900, 300, 1, false), Some((vec![payload], 2, 1)));
}

#[test]
fn a_large_frame_is_halved_and_read_back() {
    let payload = transfer_frame(4, 5);
    let mut frame = vec![255u8; 1500 * 1420];
    paste(&mut frame, 1500, &draw(&payload, 1000, "4"), 1000, 250, 210);
    assert_eq!(decode(frame, 1500, 1420, 1, false), Some((vec![payload], 1, 1)));
}

#[test]
fn a_grid_gives_one_payload_for_each_cell_in_order() {
    let payloads: Vec<Vec<u8>> = (0..4u32).map(|i| transfer_frame(11, i)).collect();
    let mut frame = vec![255u8; 700 * 600];
    for (i, payload) in payloads.iter().enumerate() {
        let picture = draw(payload, 300, "4");
        paste(&mut frame, 700, &picture, 300, 50 + 300 * (i % 2), 300 * (i / 2));
    }
    for sharpen in [false, true] {
        let found = decode(frame.clone(), 700, 600, 2, sharpen);
        assert_eq!(found, Some((payloads.clone(), 4, 4)));
    }
}

#[test]
fn an_empty_cell_is_an_attempt_too() {
    let payload = transfer_frame(12, 77);
    let mut frame = vec![255u8; 600 * 600];
    paste(&mut frame, 600, &draw(&payload, 300, "4"), 300, 300, 300);
    assert_eq!(decode(frame, 600, 600, 2, false), Some((vec![payload], 4, 1)));
}

#[test]
fn a_blank_frame_gives_nothing() {
    let blank = vec![255u8; 200 * 160];
    assert_eq!(decode(blank.clone(), 200, 160, 1, false), Some((vec![], 2, 0)));
    assert_eq!(decode(blank.clone(), 200, 160, 1, true), Some((vec![], 2, 0)));
    assert_eq!(decode(blank, 200, 160, 3, false), Some((vec![], 9, 0)));
}

#[test]
fn a_grid_with_more_cells_than_pixels_gives_nothing() {
    assert_eq!(decode(vec![0u8; 4], 2, 2, 3, false), Some((vec![], 0, 0)));
}

/// The image that a step hands out, with its size; true where it is read with one black point.
fn image_of(step: &DecodeStep) -> Option<(bool, Vec<u8>, u32, u32)> {
    match step {
        DecodeStep::ReadGlobal(image, w, h) => Some((true, image.clone(), *w, *h)),
        DecodeStep::ReadHybrid(image, w, h) => Some((false, image.clone(), *w, *h)),
        _ => None,
    }
}

#[test]
fn the_images_of_a_single_code() {
    let luma: Vec<u8> = (0..15).collect();
    let (mut decoding, step) = Decoder::new().decode(luma.clone(), 5, 3, 1, false);
    let (global, image, w, h) = image_of(&step).unwrap();
    assert!(global);
    assert_eq!((w, h, image.len()), (51, 51, 51 * 51));
    let square: Vec<u8> = (24..27).flat_map(|y| image[y * 51 + 24..y * 51 + 27].to_vec()).collect();
    assert_eq!(square, vec![1, 2, 3, 6, 7, 8, 11, 12, 13]);
    assert_eq!(image.iter().filter(|p| **p == 255).count(), 51 * 51 - 9);
    let step = decoding.answer(None);
    assert_eq!(image_of(&step), Some((true, luma, 5, 3)));
    match decoding.answer(Some(read(None, "x"))) {
        DecodeStep::Done(d) => {
            assert_eq!((d.payloads, d.attempts, d.detected), (vec![b"x".to_vec()], 2, 1))
        }
        _ => panic!("not done"),
    }
}

#[test]
fn the_images_of_a_grid() {
    let luma: Vec<u8> = (0..24 * 16).map(|i| i as u8).collect();
    let (mut decoding, mut step) = Decoder::new().decode(luma.clone(), 24, 16, 2, false);
    let corners = [(3, 0, 10, 9), (11, 0, 10, 9), (3, 7, 10, 9), (11, 7, 10, 9)];
    for (x0, y0, cw, ch) in corners {
        let (global, image, w, h) = image_of(&step).unwrap();
        assert!(!global);
        assert_eq!((w, h), (cw as u32, ch as u32));
        let expected: Vec<u8> =
            (y0..y0 + ch).flat_map(|y: usize| luma[y * 24 + x0..y * 24 + x0 + cw].to_vec()).collect();
        assert_eq!(image, expected);
        step = decoding.answer(Some(read(Some(vec![vec![x0 as u8]]), "")));
    }
    match step {
        DecodeStep::Done(d) => {
            let expected: Vec<Vec<u8>> = vec![vec![3], vec![11], vec![3], vec![11]];
            assert_eq!((d.payloads, d.attempts, d.detected), (expected, 4, 4))
        }
        _ => panic!("not done"),
    }
}

#[test]
fn a_frame_whose_next_image_cannot_be_made_is_lost() {
    let (mut short, _) = Decoder::new().decode(vec![255u8; 10], 1400, 40, 1, false);
    assert!(matches!(short.answer(None), DecodeStep::Lost));
    let (mut long, _) = Decoder::new().decode(vec![255u8; 1601], 40, 40, 1, true);
    assert!(matches!(long.answer(None), DecodeStep::Lost));
    let huge = Decoder::new().decode(vec![], u32::MAX, u32::MAX, 1, false);
    assert!(matches!(huge.1, DecodeStep::Lost));
    let (mut exact, _) = Decoder::new().decode(vec![255u8; 1600], 40, 40, 1, true);
    assert!(matches!(exact.answer(None), DecodeStep::ReadGlobal(..)));
}

#[test]
fn a_cut_off_frame_is_still_read_in_its_centre() {
    let payload = transfer_frame(21, 8);
    let mut frame = vec![255u8; 300 * 500];
    paste(&mut frame, 300, &draw(&payload, 300, "4"), 300, 0, 100);
    frame.truncate(300 * 420);
    assert_eq!(decode(frame, 300, 500, 1, false), Some((vec![payload], 1, 1)));
}

fn read(segments: Option<Vec<Vec<u8>>>, text: &str) -> QrRead {
    QrRead { segments, text: text.chars().collect() }
}

#[test]
fn segments_are_joined_and_come_before_the_text() {
    let r = read(Some(vec![vec![1, 2], vec![], vec![3]]), "other");
    assert_eq!(extract_payload(&r), vec![vec![1u8, 2, 3]]);
}

#[test]
fn without_segments_the_text_is_taken_byte_by_byte() {
    assert_eq!(extract_payload(&read(None, "A\u{ff}\u{80}")), vec![vec![0x41u8, 0xff, 0x80]]);
    assert_eq!(extract_payload(&read(Some(vec![]), "A")), vec![vec![0x41u8]]);
    assert_eq!(extract_payload(&read(None, "\u{20ac}")), vec![vec![0xacu8]]);
}

#[test]
fn a_code_with_neither_carries_nothing() {
    assert!(extract_payload(&read(None, "")).is_empty());
    assert!(extract_payload(&read(Some(vec![]), "")).is_empty());
}

#[test]
fn the_first_answer_counts_where_it_carries_anything() {
    let first = Some(read(Some(vec![vec![1]]), ""));
    let second = Some(read(Some(vec![vec![2]]), ""));
    let bare = Some(read(None, ""));
    assert_eq!(settle_single(&first, &second), (vec![vec![1u8]], 1));
    assert_eq!(settle_single(&None, &second), (vec![vec![2u8]], 1));
    assert_eq!(settle_single(&bare, &second), (vec![vec![2u8]], 1));
    assert_eq!(settle_single(&None, &bare), (vec![], 1));
    assert_eq!(settle_single(&bare, &None), (vec![], 0));
    assert_eq!(settle_single(&None, &None), (vec![], 0));
}

#[test]
fn an_empty_segment_counts_for_a_single_code_but_not_for_a_tile() {
    let hollow = Some(read(Some(vec![vec![]]), "text"));
    assert_eq!(settle_single(&hollow, &None), (vec![vec![]], 1));
    let tiles = vec![None, hollow, Some(read(None, "ab")), None];
    assert_eq!(collect_tiles(&tiles), vec![vec![0x61u8, 0x62]]);
}

#[test]
fn speckled_and_striped_frames_keep_to_the_counts() {
    let mut seed = 12345u32;
    for round in 0..12usize {
        let (w, h) = (60 + 13 * round, 47 + 9 * round);
        let luma: Vec<u8> = (0..w * h)
            .map(|i| {
                seed = seed.wrapping_mul(1664525).wrapping_add(1013904223);
                if round % 2 == 0 {
                    (seed >> 24) as u8
                } else {
                    (((i % w) / (1 + round / 2)) % 2 * 255) as u8
                }
            })
            .collect();
        for grid in 2..=3usize {
            let (found, attempts, detected) =
                decode(luma.clone(), w as u32, h as u32, grid, false).unwrap();
            assert_eq!((found.len(), attempts), (detected, grid * grid));
        }
    }
}
