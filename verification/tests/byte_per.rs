use eight_px_uint_eight::byte_per_eight_pixels::BytePerEightPixels;
use eight_px_uint_eight::{ActAsXywh, Mono};

#[test]
fn test() {
    let data = vec![
        1, 1, 0, 0, 0, 0, 1, 0,
        1, 0, 0, 0, 1, 0, 0, 1,
        0, 0, 0, 0, 0, 0, 0, 0,
    ];

    let image = BytePerEightPixels::with_data(8, 3, &data).unwrap();

    assert_eq!(
        [
            0b_1100_0010,
            0b_1000_1001,
            0b_0000_0000,
        ],
        *image.as_vec().as_slice()
    );
}

#[test]
fn test_invalid_meta() {
    let data = vec![
        1, 1, 0, 0, 0, 0, 1, 0,
        1, 0, 0, 0, 1, 0, 0, 1,
        0, 0, 0, 0, 0, 0, 0, 0,
    ];

    let image = BytePerEightPixels::with_data(8, 2, &data);

    assert!(image.is_err());
}

#[test]
fn test_short() {
    let data = vec![
        1, 1, 0, 0, 0,
        1, 0, 0, 0, 1,
        0, 0, 0, 0, 0,
    ];

    let image = BytePerEightPixels::with_data(5, 3, &data).unwrap();

    assert_eq!(
        [
            0b_1100_0000,
            0b_1000_1000,
            0b_0000_0000,
        ],
        *image.as_vec().as_slice()
    );
}

#[test]
fn test_long() {
    let data = vec![
        1, 1, 0, 0, 0, 0, 1, 0,  0, 1, 0,
        1, 0, 0, 0, 1, 0, 0, 1,  1, 0, 1,
        0, 0, 0, 0, 0, 0, 0, 0,  0, 0, 1,
    ];

    let image = BytePerEightPixels::with_data(11, 3, &data).unwrap();

    assert_eq!(
        [
            0b_1100_0010, 0b_0100_0000,
            0b_1000_1001, 0b_1010_0000,
            0b_0000_0000, 0b_0010_0000,
        ],
        *image.as_vec().as_slice()
    );
}

#[test]
fn test_update() {
    let data = vec![
        0, 0, 0, 0, 0, 0, 0, 0,  0, 0, 0,
        0, 0, 0, 0, 0, 0, 1, 1,  0, 0, 0,
        0, 0, 0, 0, 0, 1, 0, 1,  0, 0, 0,
    ];

    let mut image = BytePerEightPixels::with_data(11, 3, &data).unwrap();

    image
        .update(
            (6, 1, 3, 2),
            &vec![
                Mono::Zero,
                Mono::One,
                Mono::Zero,
                Mono::One,
                Mono::Zero,
                Mono::One,
            ],
        )
        .unwrap();

    assert_eq!(
        [
            0b_0000_0000, 0b_0000_0000,
            0b_0000_0001, 0b_0000_0000,
            0b_0000_0110, 0b_1000_0000,
        ],
        *image.as_vec().as_slice()
    );

    let (_n, re) = image.part_vec((6, 1, 3, 2));
    assert_eq!(
        vec![
            0b_0000_0001, 0b_0000_0000,
            0b_0000_0110, 0b_1000_0000,
        ],
        re
    );

    let (n, re) = image.part_vec((0, 0, 3, 1));
    assert_eq!(vec![0b_0000_0000,], re);
    assert_eq!((0, 0, 8, 1), n.xywh());

    let (n, re) = image.part_vec((0, 1, 3, 1));
    assert_eq!(vec![0b_0000_0001,], re);
    assert_eq!((0, 1, 8, 1), n.xywh());

    let (n, re) = image.part_vec((7, 2, 1, 1));
    assert_eq!(vec![0b_0000_0110,], re);
    assert_eq!((0, 2, 8, 1), n.xywh());

    let (n, re) = image.part_vec((8, 2, 1, 1));
    assert_eq!(vec![0b_1000_0000,], re);
    assert_eq!((8, 2, 8, 1), n.xywh());

    let (n, re) = image.part_vec((7, 2, 2, 1));
    assert_eq!(vec![0b_0000_0110, 0b_1000_0000], re);
    assert_eq!((0, 2, 16, 1), n.xywh());
}

#[test]
fn test_update_overflow() {
    {
        let mut image = BytePerEightPixels::new(8, 4);

        image
            .update(
                (6, 2, 3, 2),
                &vec![
                    1, 1, 1,
                    1, 1, 1,
                    1, 1, 1,
                ],
            )
            .unwrap();

        assert_eq!(
            [
                0b_0000_0000,
                0b_0000_0000,
                0b_0000_0011,
                0b_0000_0011,
            ],
            *image.as_vec().as_slice()
        );
    }
    {
        let mut image = BytePerEightPixels::new(8, 4);

        image.update((0, 5, 1, 1), &vec![1]).unwrap();

        assert_eq!(
            [
                0b_0000_0000,
                0b_0000_0000,
                0b_0000_0000,
                0b_0000_0000,
            ],
            *image.as_vec().as_slice()
        );
    }
    {
        let mut image = BytePerEightPixels::new(8, 4);

        image.update((9, 0, 1, 1), &vec![1]).unwrap();

        assert_eq!(
            [
                0b_0000_0000,
                0b_0000_0000,
                0b_0000_0000,
                0b_0000_0000,
            ],
            *image.as_vec().as_slice()
        );
    }
}
