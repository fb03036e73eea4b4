//! Locates a slider puzzle piece inside a larger background picture.
//!
//! The piece is trimmed to its opaque part, both pictures are reduced to
//! luma, their edges are detected, and the edge map of the piece is slid over
//! the edge map of the background. The offset with the highest correlation is
//! reported as a bounding box in background coordinates.
//!
//! Fractions are held as whole numbers throughout: a score as the bit
//! pattern of a binary32 number, a confidence level as that of a binary64
//! number, a threshold as a count of units of 1/65536.

pub mod crop;
pub mod decode;
pub mod edges;
pub mod luma;
pub mod matcher;
pub mod raster;
pub mod score;
pub mod template;
pub mod thresholds;

pub use crate::matcher::{
    improved_simple_slide_match, improved_slide_match, simple_slide_match, slide_match,
    AdaptiveMatch, MatchError, SlideBBox,
};
pub use crate::raster::{GrayImage, Rect, RgbaImage};
pub use crate::score::Score;
pub use crate::template::MatchPoint;
pub use crate::thresholds::Thresholds;
