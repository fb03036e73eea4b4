use slide_match::crop::{alpha_bounding_box, crop};
use slide_match::luma::{grayscale, luma};
use slide_match::raster::{GrayImage, Rect, RgbaImage};

fn rgba_from(width: u32, height: u32, pixel: impl Fn(u32, u32) -> [u8; 4]) -> RgbaImage {
    let mut data = Vec::new();
    for y in 0..height {
        for x in 0..width {
            data.extend_from_slice(&pixel(x, y));
        }
    }
    RgbaImage::new(width, height, data).unwrap()
}

#[test]
fn rgba_new_takes_four_samples_per_pixel() {
    assert!(RgbaImage::new(2, 3, vec![0; 24]).is_some());
    assert!(RgbaImage::new(2, 3, vec![0; 23]).is_none());
    assert!(RgbaImage::new(2, 3, vec![0; 6]).is_none());
    assert!(RgbaImage::new(0, 0, vec![]).is_some());
    assert!(RgbaImage::new(0, 5, vec![]).is_some());
    assert!(RgbaImage::new(1, 1, vec![]).is_none());
}

#[test]
fn gray_new_takes_one_sample_per_pixel() {
    assert!(GrayImage::new(2, 3, vec![0; 6]).is_some());
    assert!(GrayImage::new(2, 3, vec![0; 24]).is_none());
    assert!(GrayImage::new(0, 0, vec![]).is_some());
    assert!(GrayImage::new(65536, 65536, vec![0; 16]).is_none());
}

#[test]
fn accessors_read_back_what_was_given() {
    let picture = rgba_from(3, 2, |x, y| [x as u8, y as u8, (10 * y + x) as u8, 200]);
    assert_eq!(picture.width(), 3);
    assert_eq!(picture.height(), 2);
    assert_eq!(picture.samples().len(), 24);
    assert_eq!(picture.channel(2, 1, 0), 2);
    assert_eq!(picture.channel(2, 1, 1), 1);
    assert_eq!(picture.channel(2, 1, 2), 12);
    assert_eq!(picture.channel(0, 0, 3), 200);
    let copy = picture.clone();
    assert_eq!(copy.samples(), picture.samples());
    let gray = GrayImage::new(3, 2, vec![1, 2, 3, 4, 5, 6]).unwrap();
    assert_eq!(gray.width(), 3);
    assert_eq!(gray.height(), 2);
    assert_eq!(gray.luma(0, 0), 1);
    assert_eq!(gray.luma(2, 0), 3);
    assert_eq!(gray.luma(0, 1), 4);
    assert_eq!(gray.luma(2, 1), 6);
    assert_eq!(gray.clone().samples(), &vec![1, 2, 3, 4, 5, 6]);
}

#[test]
fn bounding_box_of_block_with_transparent_border() {
    let picture = rgba_from(14, 14, |x, y| {
        if (2..12).contains(&x) && (2..12).contains(&y) {
            [90, 90, 90, 255]
        } else {
            [0, 0, 0, 0]
        }
    });
    assert_eq!(
        alpha_bounding_box(&picture),
        Rect { start_x: 2, start_y: 2, width: 10, height: 10 }
    );
}

#[test]
fn bounding_box_of_transparent_picture_is_whole_picture() {
    let picture = rgba_from(7, 5, |_, _| [255, 255, 255, 0]);
    assert_eq!(alpha_bounding_box(&picture), Rect { start_x: 0, start_y: 0, width: 7, height: 5 });
}

#[test]
fn bounding_box_of_empty_picture_is_empty() {
    let picture = RgbaImage::new(0, 0, vec![]).unwrap();
    assert_eq!(alpha_bounding_box(&picture), Rect { start_x: 0, start_y: 0, width: 0, height: 0 });
}

#[test]
fn bounding_box_of_single_opaque_pixel() {
    let picture = rgba_from(6, 4, |x, y| if x == 5 && y == 0 { [0, 0, 0, 1] } else { [9, 9, 9, 0] });
    assert_eq!(alpha_bounding_box(&picture), Rect { start_x: 5, start_y: 0, width: 1, height: 1 });
}

#[test]
fn bounding_box_spans_scattered_pixels() {
    let picture = rgba_from(9, 8, |x, y| {
        let opaque = (x, y) == (6, 1) || (x, y) == (2, 3) || (x, y) == (4, 6);
        [0, 0, 0, if opaque { 17 } else { 0 }]
    });
    assert_eq!(alpha_bounding_box(&picture), Rect { start_x: 2, start_y: 1, width: 5, height: 6 });
}

#[test]
fn bounding_box_of_opaque_picture_is_whole_picture() {
    let picture = rgba_from(3, 4, |_, _| [1, 2, 3, 255]);
    assert_eq!(alpha_bounding_box(&picture), Rect { start_x: 0, start_y: 0, width: 3, height: 4 });
}

#[test]
fn crop_keeps_the_pixels_of_the_rectangle() {
    let picture = rgba_from(5, 4, |x, y| [x as u8, y as u8, (x + 10 * y) as u8, 255 - x as u8]);
    let part = crop(&picture, Rect { start_x: 1, start_y: 2, width: 3, height: 2 });
    assert_eq!(part.width(), 3);
    assert_eq!(part.height(), 2);
    for y in 0..2 {
        for x in 0..3 {
            for c in 0..4 {
                assert_eq!(part.channel(x, y, c), picture.channel(x + 1, y + 2, c));
            }
        }
    }
    assert_eq!(
        part.samples(),
        &vec![
            1, 2, 21, 254, 2, 2, 22, 253, 3, 2, 23, 252, 1, 3, 31, 254, 2, 3, 32, 253, 3, 3, 33,
            252
        ]
    );
}

#[test]
fn crop_by_whole_rectangle_is_identity() {
    let picture = rgba_from(4, 3, |x, y| [x as u8, y as u8, 7, 8]);
    let part = crop(&picture, Rect { start_x: 0, start_y: 0, width: 4, height: 3 });
    assert_eq!(part.samples(), picture.samples());
}

#[test]
fn crop_to_nothing_is_empty() {
    let picture = rgba_from(4, 3, |_, _| [1, 1, 1, 1]);
    let part = crop(&picture, Rect { start_x: 4, start_y: 3, width: 0, height: 0 });
    assert_eq!((part.width(), part.height()), (0, 0));
    assert!(part.samples().is_empty());
}

#[test]
fn crop_matches_the_image_crate() {
    let picture = rgba_from(9, 7, |x, y| [(x * 20) as u8, (y * 30) as u8, (x * y) as u8, 255]);
    let theirs = image::RgbaImage::from_raw(9, 7, picture.samples().clone()).unwrap();
    let expected = image::imageops::crop_imm(&theirs, 2, 1, 5, 4).to_image();
    let part = crop(&picture, Rect { start_x: 2, start_y: 1, width: 5, height: 4 });
    assert_eq!(part.samples(), expected.as_raw());
}

#[test]
fn luma_weights_the_channels() {
    assert_eq!(luma(0, 0, 0), 0);
    assert_eq!(luma(255, 255, 255), 255);
    assert_eq!(luma(255, 0, 0), 76);
    assert_eq!(luma(0, 255, 0), 150);
    assert_eq!(luma(0, 0, 255), 29);
    assert_eq!(luma(10, 20, 30), 18);
    assert_eq!(luma(1, 1, 0), 1);
    assert_eq!(luma(1, 0, 1), 0);
    assert_eq!(luma(0, 1, 0), 1);
}

#[test]
fn luma_of_grey_is_the_grey() {
    for v in 0..=255u8 {
        assert_eq!(luma(v, v, v), v);
    }
}

#[test]
fn luma_rounds_to_nearest() {
    for r in [0u8, 1, 77, 128, 254, 255] {
        for g in [0u8, 3, 99, 200, 255] {
            for b in [0u8, 5, 64, 191, 255] {
                let exact = 0.299 * r as f64 + 0.587 * g as f64 + 0.114 * b as f64;
                let got = luma(r, g, b) as f64;
                assert!((got - exact).abs() <= 0.5 + 1e-9, "{r} {g} {b}: {got} vs {exact}");
            }
        }
    }
}

#[test]
fn grayscale_drops_alpha_and_keeps_size() {
    let picture = rgba_from(3, 2, |x, y| {
        if y == 0 {
            [255, 0, 0, x as u8]
        } else {
            [0, 0, 255, 255]
        }
    });
    let gray = grayscale(&picture);
    assert_eq!((gray.width(), gray.height()), (3, 2));
    assert_eq!(gray.samples(), &vec![76, 76, 76, 29, 29, 29]);
}

#[test]
fn grayscale_of_empty_picture_is_empty() {
    let gray = grayscale(&RgbaImage::new(0, 3, vec![]).unwrap());
    assert_eq!((gray.width(), gray.height()), (0, 3));
    assert!(gray.samples().is_empty());
}
