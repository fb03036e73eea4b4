//! Canny edge detection under whole-number thresholds.

use crate::raster::{GrayImage, Raster};
use crate::thresholds::{BASELINE_HIGH_WHOLE, BASELINE_LOW_WHOLE};
use vstd::prelude::*;

verus! {

/// The edge map that the Canny detector computes for a luma picture and a
/// pair of whole-number hysteresis thresholds.
pub uninterp spec fn canny_edges(picture: Raster, low: u8, high: u8) -> Raster;

/// The longest side that the detector takes: it counts columns and rows
/// with signed 32-bit numbers.
pub const MAX_SIDE: u32 = 0x7FFF_FFFF;

/// The largest area that the detector takes: it counts pixels with an
/// unsigned 32-bit number.
pub const MAX_AREA: u64 = 0xFFFF_FFFF;

/// Whether the detector can take the picture: it has a pixel, its sides are
/// at most `MAX_SIDE` and its area is at most `MAX_AREA`.
pub open spec fn detectable(picture: Raster) -> bool {
    &&& 1 <= picture.width <= MAX_SIDE
    &&& 1 <= picture.height <= MAX_SIDE
    &&& picture.area() <= MAX_AREA
}

/// Calls `imageproc::edges::canny`. Trusted: the result is a function of the
/// picture and the thresholds alone; it has the size of the picture and one
/// sample per pixel, each 0 (no edge) or 255 (edge). The detector stops on an
/// empty picture, on one whose sides or area are beyond what it can count,
/// on thresholds out of order, and on a lower threshold of 0, which lets it
/// walk off the picture through the border; these are left out.
#[verifier::external_body]
pub(crate) fn canny(picture: &GrayImage, low: u8, high: u8) -> (r: GrayImage)
    requires
        detectable(picture@),
        1 <= low <= high,
    ensures
        r@ == canny_edges(picture@, low, high),
        r@.width == picture@.width,
        r@.height == picture@.height,
        r@.well_formed(1),
        forall|i: int| 0 <= i < r@.samples.len() ==> r@.samples[i] == 0 || r@.samples[i] == 255,
{
    let input =
        image::GrayImage::from_raw(picture.width, picture.height, picture.data.clone()).unwrap();
    let edges = imageproc::edges::canny(&input, low.into(), high.into());
    GrayImage { width: edges.width(), height: edges.height(), data: edges.into_raw() }
}

/// The edge map of a luma picture under the fixed thresholds, 100 and 200.
pub open spec fn baseline_edge_map(picture: Raster) -> Raster {
    canny_edges(picture, BASELINE_LOW_WHOLE, BASELINE_HIGH_WHOLE)
}

/// Detects the edges of a luma picture under the fixed thresholds. A pixel
/// whose edge strength reaches 200 is an edge; so is one that reaches 100 and
/// is joined to such a pixel through pixels that do.
pub fn baseline_edges(picture: &GrayImage) -> (edges: GrayImage)
    requires
        detectable(picture@),
    ensures
        edges@ == baseline_edge_map(picture@),
        edges@.width == picture@.width,
        edges@.height == picture@.height,
        edges@.well_formed(1),
        forall|i: int|
            0 <= i < edges@.samples.len() ==> edges@.samples[i] == 0 || edges@.samples[i] == 255,
{
    canny(picture, BASELINE_LOW_WHOLE, BASELINE_HIGH_WHOLE)
}

} // verus!
