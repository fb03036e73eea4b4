//! Reduction of colour pictures to luma.

use crate::raster::{GrayImage, Raster, RgbaImage};
use vstd::prelude::*;

verus! {

/// Weight of red in a thousandth of luma.
pub const RED_WEIGHT: u32 = 299;

/// Weight of green in a thousandth of luma.
pub const GREEN_WEIGHT: u32 = 587;

/// Weight of blue in a thousandth of luma.
pub const BLUE_WEIGHT: u32 = 114;

/// The luma of a colour: `0.299 R + 0.587 G + 0.114 B`, rounded to the
/// nearest whole number.
pub open spec fn luma_of(r: u8, g: u8, b: u8) -> u8 {
    ((299 * r + 587 * g + 114 * b + 500) / 1000) as u8
}

/// The luma picture of an RGBA picture: same size, one sample per pixel,
/// alpha left out.
pub open spec fn luma_raster(picture: Raster) -> Raster {
    Raster {
        width: picture.width,
        height: picture.height,
        samples: Seq::new(
            picture.area(),
            |i: int|
                luma_of(
                    picture.samples[4 * i],
                    picture.samples[4 * i + 1],
                    picture.samples[4 * i + 2],
                ),
        ),
    }
}

/// Computes the luma of one colour.
pub fn luma(r: u8, g: u8, b: u8) -> (l: u8)
    ensures
        l == luma_of(r, g, b),
{
    let weighted: u32 = RED_WEIGHT * (r as u32) + GREEN_WEIGHT * (g as u32) + BLUE_WEIGHT * (
    b as u32) + 500;
    (weighted / 1000) as u8
}

/// A grey colour is its own luma.
pub proof fn lemma_grey_keeps_its_value(v: u8)
    ensures
        luma_of(v, v, v) == v,
{
}

/// The luma picture holds, at each pixel, the luma of the colour there.
pub proof fn lemma_luma_pixel(picture: Raster, x: int, y: int)
    requires
        picture.contains(x, y),
    ensures
        luma_raster(picture).well_formed(1),
        luma_raster(picture).luma_at(x, y) == luma_of(
            picture.channel_at(x, y, 0),
            picture.channel_at(x, y, 1),
            picture.channel_at(x, y, 2),
        ),
{
    crate::raster::lemma_offset_in_area(picture.width as int, picture.height as int, x, y);
}

/// Reduces a picture to luma.
pub fn grayscale(picture: &RgbaImage) -> (out: GrayImage)
    ensures
        out@ == luma_raster(picture@),
        out@.well_formed(1),
{
    let width: u32 = picture.width();
    let height: u32 = picture.height();
    let samples: &Vec<u8> = picture.samples();
    let area: usize = samples.len() / 4;
    let mut data: Vec<u8> = Vec::new();
    let mut i: usize = 0;
    while i < area
        invariant
            i <= area,
            samples@.len() == 4 * area <= usize::MAX,
            samples@ == picture@.samples,
            data@.len() == i,
            forall|k: int|
                0 <= k < i ==> data@[k] == luma_of(
                    #[trigger] samples@[4 * k],
                    samples@[4 * k + 1],
                    samples@[4 * k + 2],
                ),
        decreases area - i,
    {
        data.push(luma(samples[4 * i], samples[4 * i + 1], samples[4 * i + 2]));
        i = i + 1;
    }
    proof {
        assert(data@ =~= luma_raster(picture@).samples);
    }
    GrayImage::from_parts(width, height, data)
}

} // verus!
