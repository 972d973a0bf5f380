//! The comparison of two frames: in which share of their pixels they differ,
//! and whether that share makes them duplicates of each other.

use crate::raster::{extent_of, pixel_at, raster_of, Pixel, Raster};
use crate::threshold::{DifferenceRatio, Share, Threshold};
use image::DynamicImage;
use vstd::prelude::*;

verus! {

/// Both frames have the same width and the same height.
pub open spec fn same_extent(a: Raster, b: Raster) -> bool {
    a.width == b.width && a.height == b.height
}

/// The two frames do not show the same colour at `(x, y)`: at least one
/// channel differs.
pub open spec fn differ_at(a: Raster, b: Raster, x: int, y: int) -> bool {
    a.pixels[(x, y)] != b.pixels[(x, y)]
}

/// The coordinates inside `a` at which `a` and `b` differ.
pub open spec fn differing_coordinates(a: Raster, b: Raster) -> Set<(int, int)> {
    Set::new(|c: (int, int)| a.contains(c.0, c.1) && differ_at(a, b, c.0, c.1))
}

/// The number of pixels in which `a` and `b` differ.
pub open spec fn differing_pixels(a: Raster, b: Raster) -> nat {
    differing_coordinates(a, b).len()
}

/// The two frames have a difference ratio: they are equally large and not
/// empty.
pub open spec fn comparable(a: Raster, b: Raster) -> bool {
    same_extent(a, b) && a.pixel_count() > 0
}

/// The difference ratio of two comparable frames: the number of pixels in
/// which they differ, over the number of pixels of a frame.
pub open spec fn ratio_between(a: Raster, b: Raster) -> Share {
    Share { numerator: differing_pixels(a, b), denominator: a.pixel_count() }
}

/// Two frames are duplicates of each other under `threshold`: they have a
/// difference ratio, and it is at most the threshold.
pub open spec fn similar(a: Raster, b: Raster, threshold: Share) -> bool {
    comparable(a, b) && ratio_between(a, b).at_most(threshold)
}

/// The two frames are equally large and show the same colour everywhere.
pub open spec fn identical(a: Raster, b: Raster) -> bool {
    &&& same_extent(a, b)
    &&& forall|x: int, y: int| a.contains(x, y) ==> !differ_at(a, b, x, y)
}

/// The differing coordinates that a walk through the columns has passed when
/// it stands at `(x, y)`: all of the columns before `x`, and of column `x` the
/// rows before `y`.
spec fn passed_differences(a: Raster, b: Raster, x: int, y: int) -> Set<(int, int)> {
    Set::new(
        |c: (int, int)|
            a.contains(c.0, c.1) && differ_at(a, b, c.0, c.1) && (c.0 < x || (c.0 == x && c.1 < y)),
    )
}

proof fn lemma_nothing_passed_at_start(a: Raster, b: Raster)
    ensures
        passed_differences(a, b, 0, 0) == Set::<(int, int)>::empty(),
{
    assert(passed_differences(a, b, 0, 0) =~= Set::<(int, int)>::empty());
}

proof fn lemma_pass_one_pixel(a: Raster, b: Raster, x: int, y: int)
    requires
        a.contains(x, y),
        passed_differences(a, b, x, y).finite(),
    ensures
        passed_differences(a, b, x, y + 1).finite(),
        passed_differences(a, b, x, y + 1).len() == passed_differences(a, b, x, y).len() + (if differ_at(
            a,
            b,
            x,
            y,
        ) {
            1nat
        } else {
            0nat
        }),
{
    let before = passed_differences(a, b, x, y);
    let after = passed_differences(a, b, x, y + 1);
    if differ_at(a, b, x, y) {
        assert(after =~= before.insert((x, y)));
        assert(!before.contains((x, y)));
    } else {
        assert(after =~= before);
    }
}

proof fn lemma_pass_column_end(a: Raster, b: Raster, x: int)
    ensures
        passed_differences(a, b, x + 1, 0) == passed_differences(a, b, x, a.height as int),
{
    assert(passed_differences(a, b, x + 1, 0) =~= passed_differences(a, b, x, a.height as int));
}

proof fn lemma_all_passed_at_end(a: Raster, b: Raster)
    ensures
        passed_differences(a, b, a.width as int, 0) == differing_coordinates(a, b),
{
    assert(passed_differences(a, b, a.width as int, 0) =~= differing_coordinates(a, b));
}

proof fn lemma_walk_stays_in_frame(x: int, y: int, width: int, height: int)
    by (nonlinear_arith)
    requires
        0 <= x < width,
        0 <= y < height,
    ensures
        x * height + y + 1 <= width * height,
        (x + 1) * height == x * height + height,
        0 <= x * height,
{
}

proof fn lemma_pixel_count_bounds(width: u32, height: u32)
    by (nonlinear_arith)
    ensures
        width * height <= 0xffff_ffff * 0xffff_ffff,
        width * height > 0 <==> width > 0 && height > 0,
{
}

/// The difference ratio of two frames: in how many of their pixels they differ,
/// and how many pixels a frame has. A pixel differs as soon as one channel
/// does. Frames of different extent have no ratio, nor has an empty frame.
pub fn difference_ratio(img1: &DynamicImage, img2: &DynamicImage) -> (ratio: Option<DifferenceRatio>)
    ensures
        ratio is Some <==> comparable(raster_of(*img1), raster_of(*img2)),
        ratio matches Some(r) ==> {
            &&& r.differing == differing_pixels(raster_of(*img1), raster_of(*img2))
            &&& r.total == raster_of(*img1).pixel_count()
            &&& r.differing <= r.total
        },
{
    let ghost a = raster_of(*img1);
    let ghost b = raster_of(*img2);
    let (width, height) = extent_of(img1);
    let (other_width, other_height) = extent_of(img2);
    proof {
        lemma_pixel_count_bounds(width, height);
    }
    if width != other_width || height != other_height {
        return None;
    }
    if width == 0 || height == 0 {
        return None;
    }
    let mut differing: u64 = 0;
    let mut x: u32 = 0;
    proof {
        lemma_nothing_passed_at_start(a, b);
    }
    while x < width
        invariant
            a == raster_of(*img1),
            b == raster_of(*img2),
            a.width == width,
            a.height == height,
            same_extent(a, b),
            x <= width,
            0 < height,
            width * height <= 0xffff_ffff * 0xffff_ffff,
            passed_differences(a, b, x as int, 0).finite(),
            differing == passed_differences(a, b, x as int, 0).len(),
            differing <= x * height,
        decreases width - x,
    {
        let mut y: u32 = 0;
        proof {
            lemma_walk_stays_in_frame(x as int, 0, width as int, height as int);
        }
        while y < height
            invariant
                a == raster_of(*img1),
                b == raster_of(*img2),
                a.width == width,
                a.height == height,
                same_extent(a, b),
                x < width,
                y <= height,
                0 < height,
                width * height <= 0xffff_ffff * 0xffff_ffff,
                passed_differences(a, b, x as int, y as int).finite(),
                differing == passed_differences(a, b, x as int, y as int).len(),
                differing <= x * height + y,
            decreases height - y,
        {
            proof {
                lemma_walk_stays_in_frame(x as int, y as int, width as int, height as int);
                lemma_pass_one_pixel(a, b, x as int, y as int);
            }
            let first: Pixel = pixel_at(img1, x, y);
            let second: Pixel = pixel_at(img2, x, y);
            if first != second {
                differing = differing + 1;
            }
            y = y + 1;
        }
        proof {
            lemma_walk_stays_in_frame(x as int, 0, width as int, height as int);
            lemma_pass_column_end(a, b, x as int);
        }
        x = x + 1;
    }
    proof {
        lemma_all_passed_at_end(a, b);
    }
    let total: u64 = (width as u64) * (height as u64);
    Some(DifferenceRatio { differing, total })
}

/// Whether two frames are duplicates of each other: they are equally large,
/// and the share of pixels in which they differ is at most `threshold`.
/// Frames of different extent are never duplicates, whatever the threshold.
pub fn are_images_similar(img1: &DynamicImage, img2: &DynamicImage, threshold: &Threshold) -> (duplicates:
    bool)
    ensures
        duplicates == similar(raster_of(*img1), raster_of(*img2), threshold@),
{
    match difference_ratio(img1, img2) {
        Some(ratio) => threshold.admits(&ratio),
        None => false,
    }
}

/// Two identical frames differ in no pixel, and unless they are empty they
/// are duplicates under every threshold.
pub proof fn lemma_identical_frames_are_similar(a: Raster, b: Raster, threshold: Share)
    requires
        identical(a, b),
    ensures
        differing_pixels(a, b) == 0,
        a.pixel_count() > 0 ==> similar(a, b, threshold),
{
    assert(differing_coordinates(a, b) =~= Set::<(int, int)>::empty());
    assert(0 * threshold.denominator <= threshold.numerator * a.pixel_count()) by (nonlinear_arith);
}

/// Frames of different extent are duplicates under no threshold.
pub proof fn lemma_different_extent_never_similar(a: Raster, b: Raster, threshold: Share)
    requires
        !same_extent(a, b),
    ensures
        !similar(a, b, threshold),
{
}

/// The comparison does not depend on the order of the two frames: either
/// both orders have a difference ratio or neither has, the ratio is the same,
/// and so is the answer under every threshold.
pub proof fn lemma_ratio_symmetric(a: Raster, b: Raster, threshold: Share)
    ensures
        comparable(a, b) == comparable(b, a),
        comparable(a, b) ==> ratio_between(a, b) == ratio_between(b, a),
        similar(a, b, threshold) == similar(b, a, threshold),
{
    if same_extent(a, b) {
        assert(differing_coordinates(a, b) =~= differing_coordinates(b, a));
    }
}

/// Frames that are duplicates under one threshold are duplicates under
/// every larger one.
pub proof fn lemma_similarity_monotone(a: Raster, b: Raster, lower: Share, higher: Share)
    requires
        lower.is_proper(),
        higher.is_proper(),
        lower.at_most(higher),
        similar(a, b, lower),
    ensures
        similar(a, b, higher),
{
    let k = differing_pixels(a, b) as int;
    let n = a.pixel_count() as int;
    let n1 = lower.numerator as int;
    let d1 = lower.denominator as int;
    let n2 = higher.numerator as int;
    let d2 = higher.denominator as int;
    assert(k * d2 <= n2 * n) by (nonlinear_arith)
        requires
            0 <= k,
            0 <= n,
            0 <= n1,
            0 <= n2,
            0 < d1,
            0 < d2,
            k * d1 <= n1 * n,
            n1 * d2 <= n2 * d1,
    {
        assert(k * d1 * d2 <= n1 * n * d2);
        assert(n1 * d2 * n <= n2 * d1 * n);
        assert(k * d2 * d1 <= n2 * n * d1);
    }
}

} // verus!
