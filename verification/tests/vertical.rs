use eight_px_uint_eight::{ActAsXywh, EightDataClient, Mono, VerticalEightPxUintEight};

#[test]
fn test_vertical() {
    let data = EightDataClient::new(8);
    let image_src = vec![
        1, 0, 1, 0, 0, 0, 1, 0,
        1, 0, 0, 0, 1, 0, 0, 1,
        0, 0, 0, 0, 0, 0, 0, 0,
    ];

    let mut image = VerticalEightPxUintEight::new(8, 3, data).unwrap();
    image.update((0, 0, 8, 3), &image_src).unwrap();

    assert_eq!(
        [
            0b_0000_0011,
            0b_0000_0000,
            0b_0000_0001,
            0b_0000_0000,
            0b_0000_0010,
            0b_0000_0000,
            0b_0000_0001,
            0b_0000_0010,
        ],
        *image.as_vec().as_slice()
    );
}

#[test]
fn vertical_test_invalid_meta() {
    let data = EightDataClient::new(9);
    let image = VerticalEightPxUintEight::new(8, 2, data);

    assert!(image.is_err());
}

#[test]
fn vertical_test_short() {
    let data = EightDataClient::new(5);
    let image_src = vec![
        1, 1, 0, 0, 0,
        1, 0, 0, 0, 1,
        0, 0, 0, 0, 0,
    ];

    let mut image = VerticalEightPxUintEight::new(5, 3, data).unwrap();
    image.update((0, 0, 5, 3), &image_src).unwrap();

    assert_eq!(
        [
            0b_0000_0011,
            0b_0000_0001,
            0b_0000_0000,
            0b_0000_0000,
            0b_0000_0010,
        ],
        *image.as_vec().as_slice()
    );
}

#[test]
fn vertical_test_long() {
    let data = EightDataClient::new(16);
    let image_src = vec![
        1, 1, 0, 0, 0, 0, 1, 0,
        0, 0, 0, 0, 0, 0, 0, 0,
        0, 0, 0, 0, 0, 0, 0, 0,
        0, 0, 0, 0, 0, 0, 0, 0,
        0, 0, 0, 0, 0, 0, 0, 0,
        0, 0, 0, 0, 0, 0, 0, 0,
        0, 0, 0, 0, 0, 0, 0, 0,
        0, 0, 0, 1, 0, 0, 0, 0,

        1, 0, 0, 0, 1, 0, 0, 1,
        0, 0, 0, 1, 0, 0, 0, 0,
    ];

    let mut image = VerticalEightPxUintEight::new(8, 10, data).unwrap();
    image.update((0, 0, 8, 10), &image_src).unwrap();

    assert_eq!(
        [
            0b_0000_0001,
            0b_0000_0001,
            0b_0000_0000,
            0b_1000_0000,
            0b_0000_0000,
            0b_0000_0000,
            0b_0000_0001,
            0b_0000_0000,

            0b_0000_0001,
            0b_0000_0000,
            0b_0000_0000,
            0b_0000_0010,
            0b_0000_0001,
            0b_0000_0000,
            0b_0000_0000,
            0b_0000_0001,
        ],
        *image.as_vec().as_slice()
    );
}

#[test]
fn vertical_test_update() {
    let data = EightDataClient::new(16);
    let image_src = vec![
        1, 1, 0, 0, 0, 0, 1, 0,
        0, 0, 0, 0, 0, 0, 0, 0,
        0, 0, 0, 0, 0, 0, 0, 0,
        0, 0, 0, 0, 0, 0, 0, 0,
        0, 0, 0, 0, 0, 0, 0, 0,
        0, 0, 0, 0, 0, 0, 0, 0,
        0, 0, 0, 0, 0, 0, 0, 0,
        0, 0, 0, 1, 0, 0, 0, 0,

        1, 0, 0, 0, 1, 0, 0, 1,
        0, 0, 0, 1, 0, 0, 0, 0,
    ];

    let mut image = VerticalEightPxUintEight::new(8, 10, data).unwrap();
    image.update((0, 0, 8, 10), &image_src).unwrap();

    image
        .update(
            (2, 7, 2, 3),
            &vec![
                Mono::One,
                Mono::Zero,
                Mono::Zero,
                Mono::One,
                Mono::One,
                Mono::Zero,
            ],
        )
        .unwrap();

    assert_eq!(
        [
            0b_0000_0001,
            0b_0000_0001,
            0b_1000_0000,
            0b_0000_0000,
            0b_0000_0000,
            0b_0000_0000,
            0b_0000_0001,
            0b_0000_0000,

            0b_0000_0001,
            0b_0000_0000,
            0b_0000_0010,
            0b_0000_0001,
            0b_0000_0001,
            0b_0000_0000,
            0b_0000_0000,
            0b_0000_0001,
        ],
        *image.as_vec().as_slice()
    );

    let (n, re) = image.part_vec((2, 7, 2, 3));
    assert_eq!(
        vec![
            0b_1000_0000,
            0b_0000_0000,

            0b_0000_0010,
            0b_0000_0001,
        ],
        re
    );
    assert_eq!((2, 0, 2, 2), n.xywh());

    let (n, re) = image.part_vec((0, 0, 1, 3));
    assert_eq!(vec![0b_0000_0001,], re);
    assert_eq!((0, 0, 1, 1), n.xywh());

    let (n, re) = image.part_vec((2, 1, 1, 3));
    assert_eq!(vec![0b_1000_0000,], re);
    assert_eq!((2, 0, 1, 1), n.xywh());

    let (n, re) = image.part_vec((2, 7, 1, 1));
    assert_eq!(vec![0b_1000_0000,], re);
    assert_eq!((2, 0, 1, 1), n.xywh());

    let (n, re) = image.part_vec((2, 8, 1, 1));
    assert_eq!(vec![0b_0000_0010,], re);
    assert_eq!((2, 1, 1, 1), n.xywh());

    let (n, re) = image.part_vec((2, 7, 1, 2));
    assert_eq!(vec![0b_1000_0000, 0b_0000_0010], re);
    assert_eq!((2, 0, 1, 2), n.xywh());

    let (n, re) = image.part_vec((0, 13, 1, 2));
    assert_eq!(0, re.len());
    assert_eq!((0, 0, 0, 0), n.xywh());

    let (n, re) = image.part_vec((0, 13, 2, 1));
    assert_eq!(0, re.len());
    assert_eq!((0, 0, 0, 0), n.xywh());
}

#[test]
fn vertical_test_update_overflow() {
    {
        let mut image = VerticalEightPxUintEight::new(4, 8, EightDataClient::new(4)).unwrap();

        image
            .update(
                (2, 6, 3, 2),
                &vec![
                    1, 1, 1,
                    1, 1, 1,
                    1, 1, 1,
                ],
            )
            .unwrap();

        assert_eq!(
            [
                0b_0000_0000,
                0b_0000_0000,
                0b_1100_0000,
                0b_1100_0000,
            ],
            *image.as_vec().as_slice()
        );
    }
    {
        let mut image = VerticalEightPxUintEight::new(4, 8, EightDataClient::new(4)).unwrap();

        image.update((5, 0, 1, 1), &vec![1]).unwrap();

        assert_eq!(
            [
                0b_0000_0000,
                0b_0000_0000,
                0b_0000_0000,
                0b_0000_0000,
            ],
            *image.as_vec().as_slice()
        );
    }
    {
        let mut image = VerticalEightPxUintEight::new(4, 8, EightDataClient::new(4)).unwrap();

        image.update((0, 9, 1, 1), &vec![1]).unwrap();

        assert_eq!(
            [
                0b_0000_0000,
                0b_0000_0000,
                0b_0000_0000,
                0b_0000_0000,
            ],
            *image.as_vec().as_slice()
        );
    }
}
