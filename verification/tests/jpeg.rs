use explora::detail::{decode_jpeg, DetailError};
use explora::jpeg::{
    is_plain, BASELINE_FRAME, COMMENT, HUFFMAN_TABLES, PROGRESSIVE_FRAME, QUANTISERS, SCAN,
};
use image::codecs::jpeg::JpegEncoder;
use image::ExtendedColorType;

fn encoded(width: u32, height: u32, quality: u8, colour: ExtendedColorType) -> Vec<u8> {
    let channels = if colour == ExtendedColorType::L8 { 1 } else { 3 };
    let pixels = vec![90u8; (width * height * channels) as usize];
    let mut out = Vec::new();
    JpegEncoder::new_with_quality(&mut out, quality)
        .encode(&pixels, width, height, colour)
        .unwrap();
    out
}

fn picture(width: u32, height: u32) -> Vec<u8> {
    encoded(width, height, 100, ExtendedColorType::Rgb8)
}

fn segment(bytes: &[u8], kind: u8) -> usize {
    let mut at = 2;
    while bytes[at + 1] != kind {
        at += 2 + 256 * bytes[at + 2] as usize + bytes[at + 3] as usize;
    }
    at
}

fn refused(bytes: &[u8]) -> bool {
    !is_plain(bytes) && matches!(decode_jpeg(bytes), Err(DetailError::Decode))
}

#[test]
fn encoded_pictures_are_plain() {
    for quality in [1, 50, 75, 100] {
        for colour in [ExtendedColorType::Rgb8, ExtendedColorType::L8] {
            let bytes = encoded(40, 24, quality, colour);
            assert!(is_plain(&bytes));
            let p = decode_jpeg(&bytes).unwrap();
            assert_eq!((p.width, p.height), (40, 24));
        }
    }
}

#[test]
fn comments_and_trailing_bytes_are_plain() {
    let mut bytes = picture(16, 16);
    bytes.splice(2..2, [0xff, COMMENT, 0, 5, 1, 2, 3]);
    bytes.extend_from_slice(&[0, 1, 0xff, SCAN]);
    assert!(is_plain(&bytes));
    assert!(decode_jpeg(&bytes).is_ok());
}

#[test]
fn quantisers_are_bounded_by_the_number_of_blocks() {
    let mut large = picture(2048, 2048);
    let table = segment(&large, QUANTISERS) + 5;
    large[table] = 16;
    assert!(is_plain(&large));
    large[table] = 17;
    assert!(refused(&large));
    let mut small = picture(64, 64);
    small[table] = 255;
    assert!(is_plain(&small));
    assert!(decode_jpeg(&small).is_ok());
}

#[test]
fn wide_quantisers_are_refused() {
    let mut bytes = picture(8, 8);
    let table = segment(&bytes, QUANTISERS) + 4;
    bytes[table] = 0x10;
    assert!(refused(&bytes));
}

#[test]
fn large_classes_of_differences_are_refused() {
    let mut bytes = picture(8, 8);
    let mut at = segment(&bytes, HUFFMAN_TABLES);
    assert_eq!(bytes[at + 4], 0);
    let codes: usize = bytes[at + 5..at + 21].iter().map(|&n| n as usize).sum();
    at += 21 + codes - 1;
    assert_eq!(bytes[at], 11);
    assert!(is_plain(&bytes));
    bytes[at] = 12;
    assert!(refused(&bytes));
}

#[test]
fn pictures_have_one_frame() {
    let mut bytes = picture(8, 8);
    let frame = segment(&bytes, BASELINE_FRAME);
    bytes[frame + 1] = 0xc1;
    assert!(is_plain(&bytes));
    assert!(decode_jpeg(&bytes).is_ok());
    bytes[frame + 1] = 0xc3;
    assert!(refused(&bytes));
    bytes[frame + 1] = BASELINE_FRAME;
    let copy = bytes[frame..frame + 19].to_vec();
    bytes.splice(frame..frame, copy);
    assert!(refused(&bytes));
}

#[test]
fn progressive_frames_have_room_for_every_quantiser() {
    let mut bytes = picture(2048, 2048);
    let table = segment(&bytes, QUANTISERS) + 5;
    bytes[table] = 255;
    assert!(refused(&bytes));
    let frame = segment(&bytes, BASELINE_FRAME);
    bytes[frame + 1] = PROGRESSIVE_FRAME;
    assert!(is_plain(&bytes));
    let p = decode_jpeg(&bytes).unwrap();
    assert_eq!((p.width, p.height), (2048, 2048));
    bytes[frame + 11] = 0x41;
    assert!(refused(&bytes));
}

#[test]
fn odd_samplings_are_refused() {
    let mut bytes = picture(8, 8);
    let frame = segment(&bytes, BASELINE_FRAME);
    for (place, value) in [(11, 0x41), (14, 0x21), (17, 0x12), (9, 4)] {
        let old = bytes[frame + place];
        bytes[frame + place] = value;
        assert!(refused(&bytes));
        bytes[frame + place] = old;
    }
    assert!(is_plain(&bytes));
}

#[test]
fn other_markers_in_a_scan_are_refused() {
    let mut bytes = picture(8, 8);
    let scan = segment(&bytes, SCAN);
    let data = scan + 14;
    bytes.splice(data..data, [0xff, 0xd3]);
    assert!(is_plain(&bytes));
    bytes[data + 1] = HUFFMAN_TABLES;
    assert!(refused(&bytes));
    bytes[data + 1] = 0;
    assert!(is_plain(&bytes));
    bytes[scan + 4] = 1;
    assert!(refused(&bytes));
}

#[test]
fn what_does_not_start_like_a_picture_is_refused() {
    assert!(refused(&[]));
    assert!(refused(&[0xff]));
    assert!(refused(&[0xff, 0xd8]));
    assert!(refused(&[0xff, 0xd8, 0xff, 0xd9]));
    assert!(refused(&picture(8, 8)[1..]));
    let mut bytes = picture(8, 8);
    bytes.splice(2..2, [7]);
    assert!(refused(&bytes));
}
