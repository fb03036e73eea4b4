//! Pixel grids: eight-bit samples in row-major order.

use vstd::prelude::*;

verus! {

/// The mathematical content of a picture: its size and its samples, row by
/// row, the channels of one pixel next to each other.
pub struct Raster {
    pub width: nat,
    pub height: nat,
    pub samples: Seq<u8>,
}

impl Raster {
    /// The sample sequence holds exactly `channels` samples for each pixel.
    pub open spec fn well_formed(self, channels: nat) -> bool {
        self.samples.len() == channels * (self.width * self.height)
    }

    /// Number of pixels.
    pub open spec fn area(self) -> nat {
        self.width * self.height
    }

    /// Whether `(x, y)` names a pixel of the picture.
    pub open spec fn contains(self, x: int, y: int) -> bool {
        0 <= x < self.width && 0 <= y < self.height
    }

    /// Position of pixel `(x, y)` in row-major order.
    pub open spec fn offset(self, x: int, y: int) -> int {
        y * self.width + x
    }

    /// The sample of a one-channel picture at `(x, y)`.
    pub open spec fn luma_at(self, x: int, y: int) -> u8 {
        self.samples[self.offset(x, y)]
    }

    /// Channel `c` (0 red, 1 green, 2 blue, 3 alpha) of a four-channel
    /// picture at `(x, y)`.
    pub open spec fn channel_at(self, x: int, y: int, c: int) -> u8 {
        self.samples[4 * self.offset(x, y) + c]
    }
}

/// A pixel inside a `width` by `height` grid has a row-major position below
/// the grid's area.
pub proof fn lemma_offset_in_area(width: int, height: int, x: int, y: int)
    requires
        0 <= x < width,
        0 <= y < height,
    ensures
        0 <= y * width + x < width * height,
        y * width + x + 1 <= width * height,
{
    assert(y * width >= 0) by (nonlinear_arith)
        requires
            y >= 0,
            width >= 0,
    ;
    assert((y + 1) * width <= height * width) by (nonlinear_arith)
        requires
            y + 1 <= height,
            width >= 0,
    ;
    assert((y + 1) * width == y * width + width) by (nonlinear_arith);
    assert(height * width == width * height) by (nonlinear_arith);
}

/// The area of a grid whose sides fit in 32 bits fits in 64 bits.
pub proof fn lemma_area_fits(width: u32, height: u32)
    ensures
        0 <= width * height <= 0xFFFF_FFFE_0000_0001,
{
    assert(0 <= width * height <= 0xFFFF_FFFF * 0xFFFF_FFFF) by (nonlinear_arith)
        requires
            0 <= width <= 0xFFFF_FFFF,
            0 <= height <= 0xFFFF_FFFF,
    ;
}

/// A rectangle of pixels inside a picture.
#[derive(Clone, Copy, Debug, PartialEq, Eq, Structural)]
pub struct Rect {
    pub start_x: u32,
    pub start_y: u32,
    pub width: u32,
    pub height: u32,
}

impl Rect {
    /// The rectangle lies inside a picture of the given size.
    pub open spec fn within(self, width: nat, height: nat) -> bool {
        self.start_x + self.width <= width && self.start_y + self.height <= height
    }

    /// Whether `(x, y)` lies in the rectangle.
    pub open spec fn covers(self, x: int, y: int) -> bool {
        self.start_x <= x < self.start_x + self.width && self.start_y <= y < self.start_y
            + self.height
    }
}

/// An RGBA picture, four samples per pixel.
#[derive(Debug)]
pub struct RgbaImage {
    pub(crate) width: u32,
    pub(crate) height: u32,
    pub(crate) data: Vec<u8>,
}

impl View for RgbaImage {
    type V = Raster;

    closed spec fn view(&self) -> Raster {
        Raster { width: self.width as nat, height: self.height as nat, samples: self.data@ }
    }
}

impl Clone for RgbaImage {
    fn clone(&self) -> (r: RgbaImage)
        ensures
            r@ == self@,
    {
        proof {
            use_type_invariant(self);
        }
        let data: Vec<u8> = self.data.clone();
        assert(data@ =~= self.data@);
        RgbaImage { width: self.width, height: self.height, data }
    }
}

impl RgbaImage {
    #[verifier::type_invariant]
    closed spec fn inv(self) -> bool {
        self.data@.len() == 4 * (self.width * self.height)
    }

    /// Builds a picture from its size and samples. The samples must be
    /// exactly four per pixel, else nothing is built.
    pub fn new(width: u32, height: u32, data: Vec<u8>) -> (r: Option<RgbaImage>)
        ensures
            r is Some <==> data@.len() == 4 * (width * height),
            r is Some ==> r->0@ == (Raster {
                width: width as nat,
                height: height as nat,
                samples: data@,
            }),
    {
        proof {
            lemma_area_fits(width, height);
        }
        let area: u64 = (width as u64) * (height as u64);
        let wanted: u128 = 4 * (area as u128);
        if data.len() as u128 == wanted {
            Some(RgbaImage { width, height, data })
        } else {
            None
        }
    }

    /// Builds a picture from samples that are known to be four per pixel.
    pub(crate) fn from_parts(width: u32, height: u32, data: Vec<u8>) -> (r: RgbaImage)
        requires
            data@.len() == 4 * (width * height),
        ensures
            r@ == (Raster { width: width as nat, height: height as nat, samples: data@ }),
    {
        RgbaImage { width, height, data }
    }

    /// Width in pixels.
    pub fn width(&self) -> (w: u32)
        ensures
            w == self@.width,
            self@.well_formed(4),
    {
        proof {
            use_type_invariant(self);
        }
        self.width
    }

    /// Height in pixels.
    pub fn height(&self) -> (h: u32)
        ensures
            h == self@.height,
            self@.well_formed(4),
    {
        proof {
            use_type_invariant(self);
        }
        self.height
    }

    /// The samples, row by row.
    pub fn samples(&self) -> (s: &Vec<u8>)
        ensures
            s@ == self@.samples,
            self@.well_formed(4),
    {
        proof {
            use_type_invariant(self);
        }
        &self.data
    }

    /// Channel `c` of the pixel at `(x, y)`.
    pub fn channel(&self, x: u32, y: u32, c: usize) -> (v: u8)
        requires
            self@.contains(x as int, y as int),
            c < 4,
        ensures
            v == self@.channel_at(x as int, y as int, c as int),
    {
        proof {
            use_type_invariant(self);
            lemma_offset_in_area(self.width as int, self.height as int, x as int, y as int);
        }
        let len: usize = self.data.len();
        assert(4 * (y * self.width + x) + 4 <= len);
        let at: usize = (y as usize) * (self.width as usize) + (x as usize);
        self.data[4 * at + c]
    }
}

/// A one-channel picture: luma samples, or an edge map.
#[derive(Debug)]
pub struct GrayImage {
    pub(crate) width: u32,
    pub(crate) height: u32,
    pub(crate) data: Vec<u8>,
}

impl View for GrayImage {
    type V = Raster;

    closed spec fn view(&self) -> Raster {
        Raster { width: self.width as nat, height: self.height as nat, samples: self.data@ }
    }
}

impl Clone for GrayImage {
    fn clone(&self) -> (r: GrayImage)
        ensures
            r@ == self@,
    {
        proof {
            use_type_invariant(self);
        }
        let data: Vec<u8> = self.data.clone();
        assert(data@ =~= self.data@);
        GrayImage { width: self.width, height: self.height, data }
    }
}

impl GrayImage {
    #[verifier::type_invariant]
    closed spec fn inv(self) -> bool {
        self.data@.len() == self.width * self.height
    }

    /// Builds a picture from its size and samples. The samples must be
    /// exactly one per pixel, else nothing is built.
    pub fn new(width: u32, height: u32, data: Vec<u8>) -> (r: Option<GrayImage>)
        ensures
            r is Some <==> data@.len() == width * height,
            r is Some ==> r->0@ == (Raster {
                width: width as nat,
                height: height as nat,
                samples: data@,
            }),
    {
        proof {
            lemma_area_fits(width, height);
        }
        let area: u64 = (width as u64) * (height as u64);
        if data.len() as u64 == area {
            Some(GrayImage { width, height, data })
        } else {
            None
        }
    }

    /// Builds a picture from samples that are known to be one per pixel.
    pub(crate) fn from_parts(width: u32, height: u32, data: Vec<u8>) -> (r: GrayImage)
        requires
            data@.len() == width * height,
        ensures
            r@ == (Raster { width: width as nat, height: height as nat, samples: data@ }),
    {
        GrayImage { width, height, data }
    }

    /// Width in pixels.
    pub fn width(&self) -> (w: u32)
        ensures
            w == self@.width,
            self@.well_formed(1),
    {
        proof {
            use_type_invariant(self);
        }
        self.width
    }

    /// Height in pixels.
    pub fn height(&self) -> (h: u32)
        ensures
            h == self@.height,
            self@.well_formed(1),
    {
        proof {
            use_type_invariant(self);
        }
        self.height
    }

    /// The samples, row by row.
    pub fn samples(&self) -> (s: &Vec<u8>)
        ensures
            s@ == self@.samples,
            self@.well_formed(1),
    {
        proof {
            use_type_invariant(self);
        }
        &self.data
    }

    /// The sample at `(x, y)`.
    pub fn luma(&self, x: u32, y: u32) -> (v: u8)
        requires
            self@.contains(x as int, y as int),
        ensures
            v == self@.luma_at(x as int, y as int),
    {
        proof {
            use_type_invariant(self);
            lemma_offset_in_area(self.width as int, self.height as int, x as int, y as int);
        }
        let len: usize = self.data.len();
        assert(y * self.width + x < len);
        let at: usize = (y as usize) * (self.width as usize) + (x as usize);
        self.data[at]
    }
}

} // verus!
