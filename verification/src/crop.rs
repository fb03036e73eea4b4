//! Trimming a picture to its opaque part.

use crate::raster::{lemma_offset_in_area, Raster, Rect, RgbaImage};
use vstd::arithmetic::div_mod::lemma_fundamental_div_mod_converse;
use vstd::prelude::*;

verus! {

/// Whether `(x, y)` is a pixel of the picture with an alpha other than 0.
pub open spec fn opaque_at(picture: Raster, x: int, y: int) -> bool {
    picture.contains(x, y) && picture.channel_at(x, y, 3) != 0
}

/// Whether the picture has a pixel that is not fully transparent.
pub open spec fn has_opaque(picture: Raster) -> bool {
    exists|x: int, y: int| opaque_at(picture, x, y)
}

/// The rectangle that covers the whole picture.
pub open spec fn full_rect(picture: Raster) -> Rect {
    Rect { start_x: 0, start_y: 0, width: picture.width as u32, height: picture.height as u32 }
}

/// The rectangle covers every opaque pixel.
pub open spec fn encloses(picture: Raster, r: Rect) -> bool {
    forall|x: int, y: int| opaque_at(picture, x, y) ==> r.covers(x, y)
}

/// Whether column `x` holds an opaque pixel.
pub open spec fn column_has_opaque(picture: Raster, x: int) -> bool {
    exists|y: int| opaque_at(picture, x, y)
}

/// Whether row `y` holds an opaque pixel.
pub open spec fn row_has_opaque(picture: Raster, y: int) -> bool {
    exists|x: int| opaque_at(picture, x, y)
}

/// Each of the four sides of the rectangle holds an opaque pixel.
pub open spec fn touches(picture: Raster, r: Rect) -> bool {
    &&& column_has_opaque(picture, r.start_x as int)
    &&& column_has_opaque(picture, r.start_x + r.width - 1)
    &&& row_has_opaque(picture, r.start_y as int)
    &&& row_has_opaque(picture, r.start_y + r.height - 1)
}

/// The rectangle is the smallest one that covers every opaque pixel.
pub open spec fn is_opaque_bounds(picture: Raster, r: Rect) -> bool {
    encloses(picture, r) && touches(picture, r)
}

/// The smallest rectangle that covers every opaque pixel of the picture. A
/// picture without an opaque pixel is not trimmed: its rectangle is the whole
/// picture.
pub open spec fn opaque_bounds(picture: Raster) -> Rect {
    if has_opaque(picture) {
        choose|r: Rect| is_opaque_bounds(picture, r)
    } else {
        full_rect(picture)
    }
}

/// A picture has at most one smallest rectangle around its opaque pixels.
pub proof fn lemma_opaque_bounds_unique(picture: Raster, a: Rect, b: Rect)
    requires
        is_opaque_bounds(picture, a),
        is_opaque_bounds(picture, b),
    ensures
        a == b,
{
    let (al, ar) = (a.start_x as int, a.start_x + a.width - 1);
    let (bl, br) = (b.start_x as int, b.start_x + b.width - 1);
    let (at, ab) = (a.start_y as int, a.start_y + a.height - 1);
    let (bt, bb) = (b.start_y as int, b.start_y + b.height - 1);
    let y0 = choose|y: int| opaque_at(picture, al, y);
    let y1 = choose|y: int| opaque_at(picture, bl, y);
    let y2 = choose|y: int| opaque_at(picture, ar, y);
    let y3 = choose|y: int| opaque_at(picture, br, y);
    assert(b.covers(al, y0) && a.covers(bl, y1) && b.covers(ar, y2) && a.covers(br, y3));
    let x0 = choose|x: int| opaque_at(picture, x, at);
    let x1 = choose|x: int| opaque_at(picture, x, bt);
    let x2 = choose|x: int| opaque_at(picture, x, ab);
    let x3 = choose|x: int| opaque_at(picture, x, bb);
    assert(b.covers(x0, at) && a.covers(x1, bt) && b.covers(x2, ab) && a.covers(x3, bb));
}

/// A picture whose opaque pixels are exactly those of a rectangle with at
/// least one pixel is trimmed to that rectangle: a block of 10 by 10 inside a
/// transparent border of 2 gives the rectangle at (2, 2) of size 10 by 10.
pub proof fn lemma_opaque_block_bounds(picture: Raster, block: Rect)
    requires
        block.width >= 1,
        block.height >= 1,
        block.within(picture.width, picture.height),
        forall|x: int, y: int|
            picture.contains(x, y) ==> (#[trigger] opaque_at(picture, x, y) <==> block.covers(
                x,
                y,
            )),
    ensures
        has_opaque(picture),
        is_opaque_bounds(picture, block),
        opaque_bounds(picture) == block,
{
    let (left, right) = (block.start_x as int, block.start_x + block.width - 1);
    let (top, bottom) = (block.start_y as int, block.start_y + block.height - 1);
    assert(picture.contains(left, top) && picture.contains(right, bottom));
    assert(opaque_at(picture, left, top));
    assert(opaque_at(picture, right, bottom));
    assert(is_opaque_bounds(picture, block));
    lemma_opaque_bounds_unique(picture, block, opaque_bounds(picture));
}

/// Whether pixel `(px, py)` comes before `(x, y)` in row-major order.
pub open spec fn scanned(px: int, py: int, x: int, y: int) -> bool {
    py < y || (py == y && px < x)
}

/// What the scan knows when it stands at `(x, y)`: the extent of the opaque
/// pixels met so far, and for each side a pixel that lies on it.
pub open spec fn scan_state(
    picture: Raster,
    x: int,
    y: int,
    found: bool,
    lo: (int, int),
    hi: (int, int),
    side: (int, int, int, int),
) -> bool {
    &&& forall|px: int, py: int| #[trigger]
        opaque_at(picture, px, py) && scanned(px, py, x, y) ==> found && lo.0 <= px <= hi.0
            && lo.1 <= py <= hi.1
    &&& found ==> {
        &&& lo.0 <= hi.0
        &&& lo.1 <= hi.1 <= y
        &&& opaque_at(picture, lo.0, side.0)
        &&& opaque_at(picture, hi.0, side.1)
        &&& opaque_at(picture, side.2, lo.1)
        &&& opaque_at(picture, side.3, hi.1)
    }
}

/// Finds the smallest rectangle that covers every pixel with an alpha other
/// than 0. Where there is no such pixel the rectangle is the whole picture.
pub fn alpha_bounding_box(picture: &RgbaImage) -> (r: Rect)
    ensures
        r == opaque_bounds(picture@),
        r.within(picture@.width, picture@.height),
        has_opaque(picture@) ==> is_opaque_bounds(picture@, r),
        !has_opaque(picture@) ==> r == full_rect(picture@),
        picture@.width >= 1 && picture@.height >= 1 ==> r.width >= 1 && r.height >= 1,
{
    let width: u32 = picture.width();
    let height: u32 = picture.height();
    let mut found: bool = false;
    let mut min_x: u32 = width;
    let mut min_y: u32 = height;
    let mut max_x: u32 = 0;
    let mut max_y: u32 = 0;
    let ghost mut side: (int, int, int, int) = (0, 0, 0, 0);
    let mut y: u32 = 0;
    while y < height
        invariant
            y <= height,
            width == picture@.width,
            height == picture@.height,
            scan_state(
                picture@,
                0,
                y as int,
                found,
                (min_x as int, min_y as int),
                (max_x as int, max_y as int),
                side,
            ),
        decreases height - y,
    {
        let mut x: u32 = 0;
        while x < width
            invariant
                x <= width,
                y < height,
                width == picture@.width,
                height == picture@.height,
                scan_state(
                    picture@,
                    x as int,
                    y as int,
                    found,
                    (min_x as int, min_y as int),
                    (max_x as int, max_y as int),
                    side,
                ),
            decreases width - x,
        {
            let alpha: u8 = picture.channel(x, y, 3);
            if alpha != 0 {
                if !found {
                    found = true;
                    min_x = x;
                    max_x = x;
                    min_y = y;
                    max_y = y;
                    proof {
                        side = (y as int, y as int, x as int, x as int);
                    }
                } else {
                    if x < min_x {
                        min_x = x;
                        proof {
                            side = (y as int, side.1, side.2, side.3);
                        }
                    }
                    if x > max_x {
                        max_x = x;
                        proof {
                            side = (side.0, y as int, side.2, side.3);
                        }
                    }
                    if y > max_y {
                        max_y = y;
                        proof {
                            side = (side.0, side.1, side.2, x as int);
                        }
                    }
                }
            }
            x = x + 1;
        }
        y = y + 1;
    }
    if found {
        let r = Rect {
            start_x: min_x,
            start_y: min_y,
            width: max_x - min_x + 1,
            height: max_y - min_y + 1,
        };
        proof {
            assert(opaque_at(picture@, min_x as int, side.0));
            assert(opaque_at(picture@, max_x as int, side.1));
            assert(opaque_at(picture@, side.2, min_y as int));
            assert(opaque_at(picture@, side.3, max_y as int));
            assert(is_opaque_bounds(picture@, r));
            assert(has_opaque(picture@));
            lemma_opaque_bounds_unique(picture@, r, opaque_bounds(picture@));
        }
        r
    } else {
        Rect { start_x: 0, start_y: 0, width, height }
    }
}

/// Where sample `i` of the trimmed picture comes from in the samples of a
/// picture of the given width.
pub open spec fn crop_source(picture_width: nat, r: Rect, i: int) -> int {
    let pixel = i / 4;
    let x = r.start_x + pixel % (r.width as int);
    let y = r.start_y + pixel / (r.width as int);
    4 * (y * picture_width + x) + i % 4
}

/// The part of a picture that lies in a rectangle, as a picture of its own.
pub open spec fn cropped(picture: Raster, r: Rect) -> Raster {
    Raster {
        width: r.width as nat,
        height: r.height as nat,
        samples: Seq::new(
            (4 * (r.width * r.height)) as nat,
            |i: int| picture.samples[crop_source(picture.width, r, i)],
        ),
    }
}

/// Sample `c` of pixel `(x, y)` of a grid of the given width stands at
/// `4 * (y * width + x) + c`, and the three can be read back from there.
pub proof fn lemma_sample_position(width: int, x: int, y: int, c: int)
    requires
        0 <= x < width,
        0 <= y,
        0 <= c < 4,
    ensures
        (4 * (y * width + x) + c) / 4 == y * width + x,
        (4 * (y * width + x) + c) % 4 == c,
        (y * width + x) / width == y,
        (y * width + x) % width == x,
{
    lemma_fundamental_div_mod_converse(4 * (y * width + x) + c, 4, y * width + x, c);
    lemma_fundamental_div_mod_converse(y * width + x, width, y, x);
}

/// Trimming keeps the pixels: pixel `(x, y)` of the trimmed picture is the
/// pixel of the source that lies `(x, y)` from the corner of the rectangle.
pub proof fn lemma_cropped_pixel(picture: Raster, r: Rect, x: int, y: int, c: int)
    requires
        0 <= x < r.width,
        0 <= y < r.height,
        0 <= c < 4,
    ensures
        cropped(picture, r).well_formed(4),
        cropped(picture, r).channel_at(x, y, c) == picture.channel_at(
            r.start_x + x,
            r.start_y + y,
            c,
        ),
{
    lemma_sample_position(r.width as int, x, y, c);
    lemma_offset_in_area(r.width as int, r.height as int, x, y);
}

/// Cuts the rectangle out of the picture.
pub fn crop(picture: &RgbaImage, r: Rect) -> (out: RgbaImage)
    requires
        r.within(picture@.width, picture@.height),
    ensures
        out@ == cropped(picture@, r),
        out@.well_formed(4),
{
    let width: u32 = picture.width();
    let height: u32 = picture.height();
    let samples: &Vec<u8> = picture.samples();
    let mut data: Vec<u8> = Vec::new();
    let mut y: u32 = 0;
    while y < r.height
        invariant
            y <= r.height,
            r.within(picture@.width, picture@.height),
            width == picture@.width,
            height == picture@.height,
            samples@ == picture@.samples,
            picture@.well_formed(4),
            data@.len() == 4 * (y * r.width),
            forall|i: int|
                0 <= i < data@.len() ==> data@[i] == picture@.samples[crop_source(
                    picture@.width,
                    r,
                    i,
                )],
        decreases r.height - y,
    {
        let mut x: u32 = 0;
        while x < r.width
            invariant
                x <= r.width,
                y < r.height,
                r.within(picture@.width, picture@.height),
                width == picture@.width,
                height == picture@.height,
                samples@ == picture@.samples,
                picture@.well_formed(4),
                data@.len() == 4 * (y * r.width + x),
                forall|i: int|
                    0 <= i < data@.len() ==> data@[i] == picture@.samples[crop_source(
                        picture@.width,
                        r,
                        i,
                    )],
            decreases r.width - x,
        {
            proof {
                lemma_offset_in_area(
                    picture@.width as int,
                    picture@.height as int,
                    r.start_x + x,
                    r.start_y + y,
                );
                lemma_sample_position(r.width as int, x as int, y as int, 0);
                lemma_sample_position(r.width as int, x as int, y as int, 1);
                lemma_sample_position(r.width as int, x as int, y as int, 2);
                lemma_sample_position(r.width as int, x as int, y as int, 3);
            }
            let len: usize = samples.len();
            let at: usize = 4 * (((r.start_y + y) as usize) * (width as usize) + ((r.start_x
                + x) as usize));
            data.push(samples[at]);
            data.push(samples[at + 1]);
            data.push(samples[at + 2]);
            data.push(samples[at + 3]);
            x = x + 1;
        }
        assert(y * r.width + r.width == (y + 1) * r.width) by (nonlinear_arith);
        y = y + 1;
    }
    proof {
        assert(r.height * r.width == r.width * r.height) by (nonlinear_arith);
        assert(data@ =~= cropped(picture@, r).samples);
    }
    RgbaImage::from_parts(r.width, r.height, data)
}

} // verus!
