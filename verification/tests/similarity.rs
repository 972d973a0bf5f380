use frame_dedup::{are_images_similar, difference_ratio, DifferenceRatio, Threshold};
use image::{DynamicImage, GenericImageView, GrayImage, ImageBuffer, Luma, Rgb, RgbImage, Rgba, RgbaImage};

const BLACK: Rgba<u8> = Rgba([0, 0, 0, 255]);
const WHITE: Rgba<u8> = Rgba([255, 255, 255, 255]);

fn solid(width: u32, height: u32, colour: Rgba<u8>) -> DynamicImage {
    DynamicImage::ImageRgba8(RgbaImage::from_pixel(width, height, colour))
}

/// A black frame in which the pixels at `changed` are white.
fn black_with(width: u32, height: u32, changed: &[(u32, u32)]) -> DynamicImage {
    let mut buffer = RgbaImage::from_pixel(width, height, BLACK);
    for &(x, y) in changed {
        buffer.put_pixel(x, y, WHITE);
    }
    DynamicImage::ImageRgba8(buffer)
}

fn threshold(numerator: u64, denominator: u64) -> Threshold {
    Threshold::new(numerator, denominator).unwrap()
}

#[test]
fn identical_images_have_ratio_zero() {
    let a = black_with(7, 5, &[(1, 1), (6, 4)]);
    let b = black_with(7, 5, &[(1, 1), (6, 4)]);
    let ratio = difference_ratio(&a, &b).unwrap();
    assert_eq!(ratio, DifferenceRatio { differing: 0, total: 35 });
    assert!(ratio.is_zero());
}

#[test]
fn identical_images_are_similar_under_every_threshold() {
    let a = black_with(7, 5, &[(1, 1), (6, 4)]);
    let b = black_with(7, 5, &[(1, 1), (6, 4)]);
    assert!(are_images_similar(&a, &b, &threshold(0, 1)));
    assert!(are_images_similar(&a, &b, &threshold(1, 100)));
    assert!(are_images_similar(&a, &b, &threshold(1, 2)));
    assert!(are_images_similar(&a, &b, &threshold(1, 1)));
    assert!(are_images_similar(&a, &a, &threshold(0, 1)));
}

#[test]
fn different_dimensions_are_never_similar() {
    let a = solid(4, 3, BLACK);
    let wider = solid(5, 3, BLACK);
    let taller = solid(4, 4, BLACK);
    let turned = solid(3, 4, BLACK);
    for other in [&wider, &taller, &turned] {
        assert_eq!(difference_ratio(&a, other), None);
        assert_eq!(difference_ratio(other, &a), None);
        assert!(!are_images_similar(&a, other, &threshold(0, 1)));
        assert!(!are_images_similar(&a, other, &threshold(1, 100)));
        assert!(!are_images_similar(&a, other, &threshold(1, 1)));
        assert!(!are_images_similar(other, &a, &threshold(1, 1)));
    }
}

#[test]
fn same_pixel_count_but_different_shape_is_not_similar() {
    let a = solid(2, 6, BLACK);
    let b = solid(6, 2, BLACK);
    assert_eq!(difference_ratio(&a, &b), None);
    assert!(!are_images_similar(&a, &b, &threshold(1, 1)));
}

#[test]
fn ratio_is_symmetric() {
    let a = black_with(4, 4, &[(0, 0), (1, 2), (3, 3)]);
    let b = black_with(4, 4, &[(1, 2), (2, 2)]);
    let forth = difference_ratio(&a, &b).unwrap();
    let back = difference_ratio(&b, &a).unwrap();
    assert_eq!(forth, back);
    assert_eq!(forth, DifferenceRatio { differing: 3, total: 16 });
    for t in [threshold(0, 1), threshold(3, 16), threshold(1, 8), threshold(1, 1)] {
        assert_eq!(are_images_similar(&a, &b, &t), are_images_similar(&b, &a, &t));
    }
}

#[test]
fn similarity_is_monotone_in_the_threshold() {
    let a = solid(10, 10, BLACK);
    let b = black_with(10, 10, &[(0, 0), (5, 5), (9, 9)]);
    let steps = [
        threshold(0, 1),
        threshold(1, 100),
        threshold(2, 100),
        threshold(3, 100),
        threshold(4, 100),
        threshold(1, 2),
        threshold(1, 1),
    ];
    let answers: Vec<bool> = steps.iter().map(|t| are_images_similar(&a, &b, t)).collect();
    assert_eq!(answers, vec![false, false, false, true, true, true, true]);
    for i in 1..answers.len() {
        assert!(!answers[i - 1] || answers[i]);
    }
}

#[test]
fn ratio_counts_k_of_n_pixels_exactly() {
    let base = solid(2, 2, BLACK);
    let cells = [(0, 0), (1, 0), (0, 1), (1, 1)];
    for k in 0..=4usize {
        let other = black_with(2, 2, &cells[..k]);
        let ratio = difference_ratio(&base, &other).unwrap();
        assert_eq!(ratio, DifferenceRatio { differing: k as u64, total: 4 });
    }
    let one = black_with(2, 2, &[(1, 0)]);
    assert!(!are_images_similar(&base, &one, &threshold(24, 100)));
    assert!(are_images_similar(&base, &one, &threshold(25, 100)));
    assert!(are_images_similar(&base, &one, &threshold(1, 4)));
    assert!(are_images_similar(&base, &one, &threshold(26, 100)));
}

#[test]
fn ratio_on_a_wide_and_a_tall_frame() {
    let wide = solid(9, 2, BLACK);
    let wide_changed = black_with(9, 2, &[(8, 0), (8, 1), (0, 1), (4, 0)]);
    assert_eq!(
        difference_ratio(&wide, &wide_changed),
        Some(DifferenceRatio { differing: 4, total: 18 })
    );
    let tall = solid(2, 9, BLACK);
    let tall_changed = black_with(2, 9, &[(0, 8), (1, 8), (1, 0)]);
    assert_eq!(
        difference_ratio(&tall, &tall_changed),
        Some(DifferenceRatio { differing: 3, total: 18 })
    );
}

#[test]
fn every_pixel_different_gives_ratio_one() {
    let a = solid(3, 3, BLACK);
    let b = solid(3, 3, WHITE);
    assert_eq!(difference_ratio(&a, &b), Some(DifferenceRatio { differing: 9, total: 9 }));
    assert!(!are_images_similar(&a, &b, &threshold(1, 100)));
    assert!(!are_images_similar(&a, &b, &threshold(99, 100)));
    assert!(are_images_similar(&a, &b, &threshold(1, 1)));
}

#[test]
fn threshold_comparison_is_inclusive() {
    let a = solid(10, 10, BLACK);
    let one = black_with(10, 10, &[(3, 7)]);
    let two = black_with(10, 10, &[(3, 7), (7, 3)]);
    let one_percent = threshold(1, 100);
    assert!(are_images_similar(&a, &one, &one_percent));
    assert!(!are_images_similar(&a, &two, &one_percent));
}

#[test]
fn threshold_zero_accepts_only_identical_frames() {
    let a = solid(100, 100, BLACK);
    let b = black_with(100, 100, &[(99, 99)]);
    let zero = threshold(0, 1);
    assert!(are_images_similar(&a, &a, &zero));
    assert!(!are_images_similar(&a, &b, &zero));
    assert!(!are_images_similar(&a, &b, &threshold(0, 1000)));
}

#[test]
fn threshold_one_accepts_every_pair_of_equal_extent() {
    let a = solid(3, 2, BLACK);
    let b = solid(3, 2, WHITE);
    let c = black_with(3, 2, &[(2, 1)]);
    let one = threshold(7, 7);
    assert!(are_images_similar(&a, &b, &one));
    assert!(are_images_similar(&a, &c, &one));
    assert!(are_images_similar(&b, &c, &one));
}

#[test]
fn a_difference_in_one_channel_counts() {
    let base = solid(2, 1, Rgba([10, 20, 30, 255]));
    for changed in [
        Rgba([11, 20, 30, 255]),
        Rgba([10, 21, 30, 255]),
        Rgba([10, 20, 31, 255]),
        Rgba([10, 20, 30, 254]),
    ] {
        let mut buffer = RgbaImage::from_pixel(2, 1, Rgba([10, 20, 30, 255]));
        buffer.put_pixel(1, 0, changed);
        let other = DynamicImage::ImageRgba8(buffer);
        assert_eq!(
            difference_ratio(&base, &other),
            Some(DifferenceRatio { differing: 1, total: 2 })
        );
    }
}

#[test]
fn a_small_shift_in_every_pixel_is_a_full_difference() {
    let a = solid(4, 4, Rgba([100, 100, 100, 255]));
    let b = solid(4, 4, Rgba([100, 100, 101, 255]));
    assert_eq!(difference_ratio(&a, &b), Some(DifferenceRatio { differing: 16, total: 16 }));
    assert!(!are_images_similar(&a, &b, &threshold(1, 100)));
}

#[test]
fn empty_frames_have_no_ratio() {
    let a = solid(0, 0, BLACK);
    let b = solid(0, 0, BLACK);
    assert_eq!(difference_ratio(&a, &b), None);
    assert!(!are_images_similar(&a, &b, &threshold(1, 100)));
    assert!(!are_images_similar(&a, &b, &threshold(1, 1)));
    let flat = solid(5, 0, BLACK);
    assert_eq!(difference_ratio(&flat, &flat), None);
    let thin = solid(0, 5, BLACK);
    assert_eq!(difference_ratio(&thin, &thin), None);
    assert!(!are_images_similar(&flat, &flat, &threshold(1, 1)));
}

#[test]
fn frames_of_other_colour_types_are_compared_as_rgba() {
    let grey = DynamicImage::ImageLuma8(GrayImage::from_pixel(3, 2, Luma([10])));
    let same = solid(3, 2, Rgba([10, 10, 10, 255]));
    let translucent = solid(3, 2, Rgba([10, 10, 10, 200]));
    assert_eq!(difference_ratio(&grey, &same), Some(DifferenceRatio { differing: 0, total: 6 }));
    assert_eq!(
        difference_ratio(&grey, &translucent),
        Some(DifferenceRatio { differing: 6, total: 6 })
    );
    let mut rgb = RgbImage::from_pixel(3, 2, Rgb([10, 10, 10]));
    rgb.put_pixel(2, 1, Rgb([10, 11, 10]));
    let rgb = DynamicImage::ImageRgb8(rgb);
    assert_eq!(difference_ratio(&grey, &rgb), Some(DifferenceRatio { differing: 1, total: 6 }));
}

#[test]
fn coordinates_are_not_mixed_up() {
    let a = black_with(3, 2, &[(2, 0)]);
    let b = black_with(3, 2, &[(0, 1)]);
    assert_eq!(difference_ratio(&a, &b), Some(DifferenceRatio { differing: 2, total: 6 }));
    let c = black_with(3, 2, &[(2, 0)]);
    assert_eq!(difference_ratio(&a, &c), Some(DifferenceRatio { differing: 0, total: 6 }));
}

#[test]
fn large_frames_at_one_percent() {
    let width = 1920;
    let height = 1080;
    let base = solid(width, height, BLACK);
    let changed = |count: u32| {
        let mut buffer = RgbaImage::from_pixel(width, height, BLACK);
        for i in 0..count {
            buffer.put_pixel(i % width, height - 1 - i / width, WHITE);
        }
        DynamicImage::ImageRgba8(buffer)
    };
    let at = changed(20_736);
    let above = changed(20_737);
    assert_eq!(
        difference_ratio(&base, &at),
        Some(DifferenceRatio { differing: 20_736, total: 2_073_600 })
    );
    assert!(are_images_similar(&base, &at, &Threshold::one_percent()));
    assert!(!are_images_similar(&base, &above, &Threshold::one_percent()));
}

#[test]
fn sixteen_bit_frames_are_compared_in_eight_bits() {
    let deep = DynamicImage::ImageRgba16(ImageBuffer::from_pixel(
        2,
        2,
        Rgba([2570u16, 2570, 2570, 65535]),
    ));
    let nearly = DynamicImage::ImageRgba16(ImageBuffer::from_pixel(
        2,
        2,
        Rgba([2571u16, 2570, 2570, 65535]),
    ));
    let flat = solid(2, 2, Rgba([10, 10, 10, 255]));
    assert_eq!(difference_ratio(&deep, &flat), Some(DifferenceRatio { differing: 0, total: 4 }));
    assert_eq!(difference_ratio(&deep, &nearly), Some(DifferenceRatio { differing: 0, total: 4 }));
    let brighter = DynamicImage::ImageRgba16(ImageBuffer::from_pixel(
        2,
        2,
        Rgba([2827u16, 2570, 2570, 65535]),
    ));
    assert_eq!(
        difference_ratio(&deep, &brighter),
        Some(DifferenceRatio { differing: 4, total: 4 })
    );
}

/// A sequence of numbers that looks random and is the same in every run.
fn next(state: &mut u64) -> u64 {
    *state = state.wrapping_mul(6364136223846793005).wrapping_add(1442695040888963407);
    *state >> 33
}

fn speckled(width: u32, height: u32, state: &mut u64) -> DynamicImage {
    let mut buffer = RgbaImage::from_pixel(width, height, BLACK);
    for y in 0..height {
        for x in 0..width {
            if next(state) % 3 == 0 {
                let shade = (next(state) % 4) as u8;
                buffer.put_pixel(x, y, Rgba([shade, 0, 0, 255]));
            }
        }
    }
    DynamicImage::ImageRgba8(buffer)
}

#[test]
fn ratio_agrees_with_a_count_pixel_by_pixel() {
    let mut state: u64 = 2024;
    for round in 0..60u32 {
        let width = 1 + round % 7;
        let height = 1 + (round / 7) % 5;
        let a = speckled(width, height, &mut state);
        let b = speckled(width, height, &mut state);
        let mut differing: u64 = 0;
        for y in 0..height {
            for x in 0..width {
                if a.get_pixel(x, y) != b.get_pixel(x, y) {
                    differing += 1;
                }
            }
        }
        let total = u64::from(width) * u64::from(height);
        assert_eq!(difference_ratio(&a, &b), Some(DifferenceRatio { differing, total }));
        assert_eq!(difference_ratio(&b, &a), Some(DifferenceRatio { differing, total }));
        for (numerator, denominator) in [(0, 1), (1, 100), (1, 4), (1, 2), (3, 4), (1, 1)] {
            let expected = differing * denominator <= numerator * total;
            assert_eq!(are_images_similar(&a, &b, &threshold(numerator, denominator)), expected);
        }
    }
}
