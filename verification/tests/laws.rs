use eight_px_uint_eight::byte_per_eight_pixels::{BytePerEightPixels, BytePerEightPixelsError};
use eight_px_uint_eight::{
    into_as_eight, ActAsMono, ActAsXywh, EightDataClient, EightPxUintEight,
    EightPxUintEightError, Mono, Rectangle, VerticalEightPxUintEight,
};

/// Packing a pixel array and updating a fresh zero buffer with the same
/// array yield identical packed bytes.
#[test]
fn round_trip_with_data_equals_update_on_fresh() {
    let data = vec![
        1, 1, 0, 0, 0, 0, 1, 0,  0, 1, 0,
        1, 0, 0, 0, 1, 0, 0, 1,  1, 0, 1,
        0, 0, 0, 0, 0, 0, 0, 0,  0, 0, 1,
    ];

    let packed = BytePerEightPixels::with_data(11, 3, &data).unwrap();

    let mut fresh = BytePerEightPixels::new(11, 3);
    fresh.update((0, 0, 11, 3), &data).unwrap();

    assert_eq!(*packed.as_vec(), *fresh.as_vec());
}

/// A second identical update leaves the bytes unchanged.
#[test]
fn update_is_idempotent_on_identical_input() {
    let data = vec![
        1, 1, 0, 0, 0, 0, 1, 0,
        1, 0, 0, 0, 1, 0, 0, 1,
        0, 0, 0, 0, 0, 0, 0, 0,
    ];

    let mut image = BytePerEightPixels::with_data(8, 3, &data).unwrap();
    let before = image.as_vec().clone();
    image.update((0, 0, 8, 3), &data).unwrap();

    assert_eq!(before, *image.as_vec().as_slice());
}

/// An update whose source slice is too short for its rectangle is rejected
/// with the length error, and the buffer stays as it was.
#[test]
fn update_with_short_source_is_rejected() {
    let mut image = BytePerEightPixels::new(8, 4);
    let r = image.update((0, 0, 2, 2), &vec![1u8, 1, 1]);
    assert_eq!(Err(BytePerEightPixelsError::InvalidLengthData), r);
    assert_eq!([0u8, 0, 0, 0], *image.as_vec().as_slice());

    let data = EightDataClient::new(4);
    let mut image = EightPxUintEight::new(8, 4, data).unwrap();
    let r = image.update((0, 0, 2, 2), &vec![1u8, 1, 1]);
    assert_eq!(Err(EightPxUintEightError::InvalidLengthData), r);

    let data = EightDataClient::new(4);
    let mut image = VerticalEightPxUintEight::new(4, 8, data).unwrap();
    let r = image.update((0, 0, 2, 2), &vec![1u8, 1, 1]);
    assert_eq!(Err(EightPxUintEightError::InvalidLengthData), r);
}

/// Pre-packed construction keeps the bytes as given, and rejects a length
/// that does not match the dimensions.
#[test]
fn with_eight_data_keeps_bytes_and_checks_length() {
    let image = BytePerEightPixels::with_eight_data(11, 2, vec![1, 2, 3, 4]).unwrap();
    assert_eq!([1, 2, 3, 4], *image.as_vec().as_slice());

    let r = BytePerEightPixels::with_eight_data(11, 2, vec![1, 2, 3]);
    assert_eq!(Err(BytePerEightPixelsError::InvalidLengthData), r);

    let data = EightDataClient::with_data(vec![5, 6, 7, 8]);
    let image = VerticalEightPxUintEight::with_eight_data(2, 2, data).unwrap();
    assert_eq!([5, 6, 7, 8], *image.as_vec().as_slice());

    let data = EightDataClient::with_data(vec![5, 6, 7]);
    let r = VerticalEightPxUintEight::with_eight_data(2, 2, data);
    assert!(r.is_err());
}

/// Extraction is widened to whole bytes: asking for the single pixel at
/// x = 7 of an eleven-wide buffer returns the whole byte holding bits 0-7
/// of that row, reported at byte offset zero, not pixel seven.
#[test]
fn extract_is_byte_aligned() {
    let data = vec![
        0, 0, 0, 0, 0, 0, 0, 0,  0, 0, 0,
        0, 0, 0, 0, 0, 0, 0, 0,  0, 0, 0,
        1, 0, 1, 0, 0, 0, 0, 1,  0, 0, 0,
    ];

    let storage = EightDataClient::new(6);
    let mut image = EightPxUintEight::new(11, 3, storage).unwrap();
    image.update((0, 0, 11, 3), &data).unwrap();

    let mut re = [0u8; 2];
    let n = image.part_vec((7, 2, 1, 1), &mut re);

    assert_eq!([0b_1010_0001], re[0..1]);
    assert_eq!((0, 2, 1, 1), n.xywh());
}

/// An extraction that starts beyond the buffer returns no bytes and the
/// zero rectangle.
#[test]
fn extract_out_of_range_is_empty() {
    let storage = EightDataClient::new(2);
    let image = VerticalEightPxUintEight::new(2, 8, storage).unwrap();

    let (n, re) = image.part_vec((12, 0, 2, 1));
    assert_eq!(0, re.len());
    assert_eq!((0, 0, 0, 0), n.xywh());
}

/// A nonzero source sample stands for a set pixel, zero for a clear one.
#[test]
fn nonzero_sample_acts_as_one() {
    assert_eq!(Mono::One, 2u8.act_as());
    assert_eq!(Mono::Zero, 0u8.act_as());
    assert_eq!(Mono::One, Mono::One.act_as());

    let image = BytePerEightPixels::with_data(1, 1, &vec![7u8]).unwrap();
    assert_eq!([0b_1000_0000], *image.as_vec().as_slice());
}

/// Rectangles carry their coordinates unchanged, from any source form.
#[test]
fn rectangle_round_trip() {
    let r = Rectangle::new(1, 2, 3, 4);
    assert_eq!((1, 2, 3, 4), r.xywh());
    let r = Rectangle::from((5, 6, 7, 8));
    assert_eq!((5, 6, 7, 8), r.xywh());
}

/// The byte-aligned span covers exactly the bytes touched by a pixel range.
#[test]
fn byte_span_covers_pixel_range() {
    let s = into_as_eight(7, 2);
    assert_eq!((0, 2), (s.start, s.length));
    let s = into_as_eight(8, 8);
    assert_eq!((1, 1), (s.start, s.length));
    let s = into_as_eight(0, 1);
    assert_eq!((0, 1), (s.start, s.length));
    let s = into_as_eight(9, 0);
    assert_eq!((1, 1), (s.start, s.length));
}
