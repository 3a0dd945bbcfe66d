use eight_px_uint_eight::horizontal_eight_px_uint_eight::EightPxUintEight;
use eight_px_uint_eight::{ActAsXywh, EightDataClient, HorizontalEightPxUintEight, Mono};

#[test]
fn mod_test_horizontal() {
    let data = EightDataClient::new(3);
    let image_src = vec![
        1, 1, 0, 0, 0, 0, 1, 0,
        1, 0, 0, 0, 1, 0, 0, 1,
        0, 0, 0, 0, 0, 0, 0, 0,
    ];

    let mut image = HorizontalEightPxUintEight::new(8, 3, data).unwrap();
    image.update((0, 0, 8, 3), &image_src).unwrap();

    assert_eq!(
        [
            0b_1100_0010,
            0b_1000_1001,
            0b_0000_0000,
        ],
        *image.as_vec().as_slice()
    );
}

#[test]
fn horizontal_test_invalid_meta() {
    let data = EightDataClient::new(3);

    let image = HorizontalEightPxUintEight::new(8, 2, data);

    assert!(image.is_err());
}

#[test]
fn horizontal_test_short() {
    let data = EightDataClient::new(3);
    let image_src = vec![
        1, 1, 0, 0, 0,
        1, 0, 0, 0, 1,
        0, 0, 0, 0, 0,
    ];

    let mut image = HorizontalEightPxUintEight::new(5, 3, data).unwrap();
    image.update((0, 0, 5, 3), &image_src).unwrap();

    assert_eq!(
        [
            0b_1100_0000,
            0b_1000_1000,
            0b_0000_0000,
        ],
        *image.as_vec().as_slice()
    );
}

#[test]
fn horizontal_test_long() {
    let data = EightDataClient::new(6);
    let image_src = vec![
        1, 1, 0, 0, 0, 0, 1, 0,  0, 1, 0,
        1, 0, 0, 0, 1, 0, 0, 1,  1, 0, 1,
        0, 0, 0, 0, 0, 0, 0, 0,  0, 0, 1,
    ];

    let mut image = HorizontalEightPxUintEight::new(11, 3, data).unwrap();
    image.update((0, 0, 11, 3), &image_src).unwrap();

    assert_eq!(
        [
            0b_1100_0010, 0b_0100_0000,
            0b_1000_1001, 0b_1010_0000,
            0b_0000_0000, 0b_0010_0000,
        ],
        *image.as_vec().as_slice()
    );
}

#[test]
fn horizontal_test_update() {
    let data = EightDataClient::new(6);
    let image_src = vec![
        0, 0, 0, 0, 0, 0, 0, 0,  0, 0, 0,
        0, 0, 0, 0, 0, 0, 1, 1,  0, 0, 0,
        0, 0, 0, 0, 0, 1, 0, 1,  0, 0, 0,
    ];

    let mut image = HorizontalEightPxUintEight::new(11, 3, data).unwrap();
    image.update((0, 0, 11, 3), &image_src).unwrap();

    image
        .update(
            (6, 1, 3, 2),
            &vec![
                Mono::Zero,
                Mono::One,
                Mono::Zero,
                Mono::One,
                Mono::Zero,
                Mono::One,
            ],
        )
        .unwrap();

    assert_eq!(
        [
            0b_0000_0000, 0b_0000_0000,
            0b_0000_0001, 0b_0000_0000,
            0b_0000_0110, 0b_1000_0000,
        ],
        *image.as_vec().as_slice()
    );

    let mut re = [0; 8];

    let n = image.part_vec((6, 1, 3, 2), &mut re);
    assert_eq!(
        [
            0b_0000_0001, 0b_0000_0000,
            0b_0000_0110, 0b_1000_0000,
        ],
        re[0..4]
    );
    assert_eq!((0, 1, 2, 2), n.xywh());

    let n = image.part_vec((0, 0, 3, 1), &mut re);
    assert_eq!([0b_0000_0000,], re[0..1]);
    assert_eq!((0, 0, 1, 1), n.xywh());

    let n = image.part_vec((0, 1, 3, 1), &mut re);
    assert_eq!([0b_0000_0001,], re[0..1]);
    assert_eq!((0, 1, 1, 1), n.xywh());

    let n = image.part_vec((7, 2, 1, 1), &mut re);
    assert_eq!([0b_0000_0110,], re[0..1]);
    assert_eq!((0, 2, 1, 1), n.xywh());

    let n = image.part_vec((8, 2, 1, 1), &mut re);
    assert_eq!([0b_1000_0000,], re[0..1]);
    assert_eq!((1, 2, 1, 1), n.xywh());

    let n = image.part_vec((7, 2, 2, 1), &mut re);
    assert_eq!([0b_0000_0110, 0b_1000_0000], re[0..2]);
    assert_eq!((0, 2, 2, 1), n.xywh());

    let n = image.part_vec((0, 4, 2, 1), &mut re);
    assert_eq!((0, 0, 0, 0), n.xywh());

    let n = image.part_vec((12, 0, 2, 1), &mut re);

    assert_eq!((0, 0, 0, 0), n.xywh());
}

#[test]
fn horizontal_test_update_overflow() {
    {
        let data = EightDataClient::new(4);
        let mut image = HorizontalEightPxUintEight::new(8, 4, data).unwrap();

        image
            .update(
                (6, 2, 3, 2),
                &vec![
                    1, 1, 1,
                    1, 1, 1,
                    1, 1, 1,
                ],
            )
            .unwrap();

        assert_eq!(
            [
                0b_0000_0000,
                0b_0000_0000,
                0b_0000_0011,
                0b_0000_0011,
            ],
            *image.as_vec().as_slice()
        );
    }
    {
        let data = EightDataClient::new(4);
        let mut image = HorizontalEightPxUintEight::new(8, 4, data).unwrap();

        image.update((0, 5, 1, 1), &vec![1]).unwrap();

        assert_eq!(
            [
                0b_0000_0000,
                0b_0000_0000,
                0b_0000_0000,
                0b_0000_0000,
            ],
            *image.as_vec().as_slice()
        );
    }
    {
        let data = EightDataClient::new(4);
        let mut image = HorizontalEightPxUintEight::new(8, 4, data).unwrap();

        image.update((9, 0, 1, 1), &vec![1]).unwrap();

        assert_eq!(
            [
                0b_0000_0000,
                0b_0000_0000,
                0b_0000_0000,
                0b_0000_0000,
            ],
            *image.as_vec().as_slice()
        );
    }
}
