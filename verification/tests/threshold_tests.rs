use slide_match::raster::GrayImage;
use slide_match::thresholds::{
    calculate_adaptive_canny_thresholds, detector_thresholds, integer_sqrt, Thresholds,
    BASELINE_HIGH_WHOLE, BASELINE_LOW_WHOLE, HIGH_CEILING, LOW_CEILING, LOW_FLOOR, UNIT,
};

fn thresholds_of(samples: Vec<u8>) -> Thresholds {
    let width = samples.len() as u32;
    calculate_adaptive_canny_thresholds(&GrayImage::new(width, 1, samples).unwrap())
}

fn units(value: f64) -> u32 {
    (value * 65536.0) as u32
}

#[test]
fn baseline_is_100_and_200() {
    assert_eq!((BASELINE_LOW_WHOLE, BASELINE_HIGH_WHOLE), (100, 200));
    assert_eq!(UNIT, 65536);
    assert_eq!((LOW_FLOOR, LOW_CEILING, HIGH_CEILING), (units(50.0), units(255.0), units(250.0)));
}

#[test]
fn uniform_128_gives_128_and_128() {
    let picture = GrayImage::new(8, 8, vec![128; 64]).unwrap();
    let t = calculate_adaptive_canny_thresholds(&picture);
    assert_eq!(t, Thresholds { low: units(128.0), high: units(128.0) });
    assert!(t.low == t.high);
}

#[test]
fn uniform_pictures_clamp_their_value() {
    for v in 0..=255u8 {
        let t = thresholds_of(vec![v; 37]);
        let expected = Thresholds { low: units(v.max(50) as f64), high: units(v.min(250) as f64) };
        assert_eq!(t, expected, "value {v}");
    }
}

#[test]
fn dark_uniform_picture_has_low_above_high() {
    let t = thresholds_of(vec![10; 5]);
    assert_eq!(t, Thresholds { low: units(50.0), high: units(10.0) });
    assert!(t.low > t.high);
}

#[test]
fn mean_and_deviation_give_the_thresholds() {
    // mean 120, deviation 20
    assert_eq!(thresholds_of(vec![100, 140]), Thresholds { low: units(100.0), high: units(160.0) });
    // mean 120.5, deviation 20.5
    assert_eq!(thresholds_of(vec![100, 141]), Thresholds { low: units(100.0), high: units(161.5) });
    // mean 127.5, deviation 127.5
    assert_eq!(thresholds_of(vec![0, 255]), Thresholds { low: units(50.0), high: units(250.0) });
    // mean 0.5, deviation 0.5
    assert_eq!(thresholds_of(vec![0, 1]), Thresholds { low: units(50.0), high: units(1.5) });
    // mean 200, deviation 10
    assert_eq!(
        thresholds_of(vec![190, 210, 190, 210]),
        Thresholds { low: units(190.0), high: units(220.0) }
    );
    // mean 100.25, deviation 0.4330127: 99.8169873 and 101.1160254
    assert_eq!(
        thresholds_of(vec![100, 100, 100, 101]),
        Thresholds { low: 6541606, high: 6626739 }
    );
    // mean 63.75, deviation 110.4: below zero, and above 250
    assert_eq!(thresholds_of(vec![0, 0, 0, 255]), Thresholds { low: units(50.0), high: units(250.0) });
}

#[test]
fn thresholds_are_within_a_unit_of_the_formula() {
    let cases: Vec<Vec<u8>> = vec![
        vec![60, 61],
        vec![200, 201, 203],
        vec![90, 100, 110, 120, 250],
        vec![77],
        vec![51, 52, 53, 54, 55, 56, 57],
        vec![120, 121, 119, 122, 118, 140],
        vec![255, 254, 253],
        vec![3, 200, 200, 200, 200],
        vec![100, 150, 200],
    ];
    for samples in cases {
        let n = samples.len() as f64;
        let mean = samples.iter().map(|&v| v as f64).sum::<f64>() / n;
        let variance = samples.iter().map(|&v| (v as f64 - mean).powi(2)).sum::<f64>() / n;
        let deviation = variance.sqrt();
        let low = (mean - deviation).max(0.0).max(50.0);
        let high = (mean + 2.0 * deviation).min(255.0).min(250.0);
        let t = thresholds_of(samples.clone());
        let (got_low, got_high) = (t.low as f64 / 65536.0, t.high as f64 / 65536.0);
        assert!(got_low <= low + 1e-9 && low - got_low < 1.0 / 65536.0 + 1e-9, "{samples:?}");
        assert!(got_high <= high + 1e-9 && high - got_high < 1.0 / 65536.0 + 1e-9, "{samples:?}");
        assert_eq!(t.low as f32 / 65536.0, got_low as f32);
    }
}

#[test]
fn thresholds_stay_in_their_ranges() {
    let mut seed: u32 = 12345;
    for round in 0..200 {
        let len = 1 + round % 23;
        let mut samples = Vec::new();
        for _ in 0..len {
            seed = seed.wrapping_mul(1664525).wrapping_add(1013904223);
            samples.push((seed >> 24) as u8);
        }
        let t = thresholds_of(samples);
        assert!(t.low >= units(50.0) && t.low <= units(255.0));
        assert!(t.high <= units(250.0));
    }
}

#[test]
fn empty_picture_gets_the_widest_pair() {
    let picture = GrayImage::new(0, 0, vec![]).unwrap();
    assert_eq!(
        calculate_adaptive_canny_thresholds(&picture),
        Thresholds { low: units(50.0), high: units(250.0) }
    );
}

#[test]
fn detector_gets_thresholds_above_zero_and_in_order() {
    let pair = |low: u32, high: u32| detector_thresholds(Thresholds { low, high });
    assert_eq!(pair(5, 9), Thresholds { low: 5, high: 9 });
    assert_eq!(pair(9, 9), Thresholds { low: 9, high: 9 });
    assert_eq!(pair(units(50.0), units(10.0)), Thresholds { low: units(10.0), high: units(10.0) });
    assert_eq!(pair(units(50.0), 0), Thresholds { low: 1, high: 1 });
    assert_eq!(pair(0, 0), Thresholds { low: 1, high: 1 });
    assert_eq!(pair(0, 7), Thresholds { low: 1, high: 7 });
    assert_eq!(pair(1, 1), Thresholds { low: 1, high: 1 });
}

#[test]
fn integer_sqrt_is_the_whole_part_of_the_root() {
    assert_eq!(integer_sqrt(0), 0);
    assert_eq!(integer_sqrt(1), 1);
    assert_eq!(integer_sqrt(2), 1);
    assert_eq!(integer_sqrt(3), 1);
    assert_eq!(integer_sqrt(4), 2);
    assert_eq!(integer_sqrt(15), 3);
    assert_eq!(integer_sqrt(16), 4);
    assert_eq!(integer_sqrt(17), 4);
    assert_eq!(integer_sqrt(1_000_000), 1000);
    assert_eq!(integer_sqrt(999_999), 999);
    assert_eq!(integer_sqrt((1u128 << 116) - 1), (1u64 << 58) - 1);
    assert_eq!(integer_sqrt(1u128 << 90), 1u64 << 45);
    for x in 0..2000u128 {
        let r = integer_sqrt(x) as u128;
        assert!(r * r <= x && x < (r + 1) * (r + 1));
    }
}
