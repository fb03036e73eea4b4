//! The matching pipeline: trim, reduce to luma, detect edges, slide the
//! template over the background.
//!
//! Under the fixed thresholds the whole pipeline runs here. Under adaptive
//! thresholds it runs in two steps, because those thresholds are fractions
//! and the edge detector takes fractions only as floating-point numbers,
//! which this library does not hold. The first step reads and prepares the
//! pictures and derives the thresholds; the caller detects the edges of the
//! two luma pictures under them; the second step slides the template, and
//! matches again under the fixed thresholds where the score is not trusted.

use crate::crop::{alpha_bounding_box, crop, cropped, full_rect, opaque_bounds};
use crate::decode::{decode, decoded_picture};
use crate::edges::{baseline_edge_map, baseline_edges, detectable, MAX_AREA, MAX_SIDE};
use crate::luma::{grayscale, luma_raster};
use crate::raster::{lemma_area_fits, GrayImage, Raster, Rect, RgbaImage};
use crate::score::{
    confidence_from_double, double_in_unit_interval, narrowed, validate_match_result, Score,
    DEFAULT_CONFIDENCE_DOUBLE_BITS,
};
use crate::template::{best_offset, is_first_best_offset, match_template, MatchPoint};
use crate::thresholds::{
    adaptive_thresholds,
    calculate_adaptive_canny_thresholds,
    detector_pair,
    detector_thresholds,
    Thresholds,
};
use vstd::prelude::*;

verus! {

/// Where the target was found. `target_x` and `target_y` say where the
/// opaque part of the target begins in the target picture. `(x1, y1)` is the
/// top left corner of the match in the background and `(x2, y2)` the corner
/// opposite, one past the last pixel.
#[derive(Clone, Copy, Debug, PartialEq, Eq, Structural)]
pub struct SlideBBox {
    pub target_x: u32,
    pub target_y: u32,
    pub x1: u32,
    pub y1: u32,
    pub x2: u32,
    pub y2: u32,
}

/// Why no match was made.
#[derive(Clone, Copy, Debug, PartialEq, Eq, Structural)]
pub enum MatchError {
    /// The bytes of the target are no picture that can be read.
    DecodeTarget,
    /// The bytes of the background are no picture that can be read.
    DecodeBackground,
    /// The background is narrower or lower than the target.
    Dimension { target_width: u32, target_height: u32, background_width: u32, background_height: u32 },
    /// The confidence level is no number from 0.0 to 1.0.
    Validation,
    /// The target has no pixel, or the background is larger than the edge
    /// detector can take.
    ImageSize,
}

/// What is matched: the luma of the template and of the background, and
/// the part of the target that the template was made of.
pub struct Prepared {
    pub origin: Rect,
    pub template: Raster,
    pub background: Raster,
}

/// The part of the target that is matched: its opaque part where the target
/// is trimmed, else all of it.
pub open spec fn trim_rect(target: Raster, trim: bool) -> Rect {
    if trim {
        opaque_bounds(target)
    } else {
        full_rect(target)
    }
}

/// The template: the luma of the part of the target that is matched.
pub open spec fn template_of(target: Raster, trim: bool) -> Raster {
    if trim {
        luma_raster(cropped(target, opaque_bounds(target)))
    } else {
        luma_raster(target)
    }
}

/// Whether pictures of which the background is no smaller than the target
/// can be matched: the target has a pixel, and the background is not larger
/// than the edge detector can take.
pub open spec fn matchable(target: Raster, background: Raster) -> bool {
    &&& target.width >= 1
    &&& target.height >= 1
    &&& background.width <= MAX_SIDE
    &&& background.height <= MAX_SIDE
    &&& background.area() <= MAX_AREA
}

/// What is made of two pictures before they are matched, or why they
/// cannot be matched.
pub open spec fn prepared(target: Raster, background: Raster, trim: bool) -> Result<
    Prepared,
    MatchError,
> {
    if background.width < target.width || background.height < target.height {
        Err(
            MatchError::Dimension {
                target_width: target.width as u32,
                target_height: target.height as u32,
                background_width: background.width as u32,
                background_height: background.height as u32,
            },
        )
    } else if !matchable(target, background) {
        Err(MatchError::ImageSize)
    } else {
        Ok(
            Prepared {
                origin: trim_rect(target, trim),
                template: template_of(target, trim),
                background: luma_raster(background),
            },
        )
    }
}

/// The match under the fixed thresholds.
pub open spec fn baseline_match(template: Raster, background: Raster) -> MatchPoint {
    best_offset(baseline_edge_map(background), baseline_edge_map(template))
}

/// The box of a template of the given size at a match, with the corner of
/// the matched part of the target.
pub open spec fn box_at(origin: Rect, at: MatchPoint, width: nat, height: nat) -> SlideBBox {
    SlideBBox {
        target_x: origin.start_x,
        target_y: origin.start_y,
        x1: at.x,
        y1: at.y,
        x2: (at.x + width) as u32,
        y2: (at.y + height) as u32,
    }
}

/// The box of the match under the fixed thresholds.
pub open spec fn baseline_box(p: Prepared) -> SlideBBox {
    box_at(p.origin, baseline_match(p.template, p.background), p.template.width, p.template.height)
}

/// The result of matching two pictures under the fixed thresholds.
pub open spec fn match_pictures_spec(target: Raster, background: Raster, trim: bool) -> Result<
    SlideBBox,
    MatchError,
> {
    match prepared(target, background, trim) {
        Ok(p) => Ok(baseline_box(p)),
        Err(e) => Err(e),
    }
}

/// The result of matching two encoded pictures under the fixed thresholds.
pub open spec fn match_bytes_spec(target: Seq<u8>, background: Seq<u8>, trim: bool) -> Result<
    SlideBBox,
    MatchError,
> {
    if decoded_picture(target) is None {
        Err(MatchError::DecodeTarget)
    } else if decoded_picture(background) is None {
        Err(MatchError::DecodeBackground)
    } else {
        match_pictures_spec(decoded_picture(target)->0, decoded_picture(background)->0, trim)
    }
}

/// The box lies inside a picture of the given size and its corners are in
/// order.
pub open spec fn box_inside(b: SlideBBox, width: nat, height: nat) -> bool {
    b.x1 <= b.x2 <= width && b.y1 <= b.y2 <= height
}

/// The box has the size of the template.
pub open spec fn has_size(b: SlideBBox, template: Raster) -> bool {
    b.x2 - b.x1 == template.width && b.y2 - b.y1 == template.height
}

/// Builds the box of a template of the given size at a match.
pub fn bounding_box(origin: Rect, at: MatchPoint, width: u32, height: u32) -> (b: SlideBBox)
    requires
        at.x + width <= u32::MAX,
        at.y + height <= u32::MAX,
    ensures
        b == box_at(origin, at, width as nat, height as nat),
        b.x2 - b.x1 == width,
        b.y2 - b.y1 == height,
{
    SlideBBox {
        target_x: origin.start_x,
        target_y: origin.start_y,
        x1: at.x,
        y1: at.y,
        x2: at.x + width,
        y2: at.y + height,
    }
}

/// Prepares two pictures for matching: the background must be no smaller
/// than the target and both must be of a size that the detector takes. With
/// `trim` the target is cut down to its opaque part. Both are reduced to
/// luma.
pub fn prepare(target: &RgbaImage, background: &RgbaImage, trim: bool) -> (r: Result<
    (Rect, GrayImage, GrayImage),
    MatchError,
>)
    ensures
        match r {
            Ok((origin, template, backdrop)) => {
                &&& prepared(target@, background@, trim) == Ok::<Prepared, MatchError>(
                    Prepared { origin, template: template@, background: backdrop@ },
                )
                &&& detectable(template@)
                &&& detectable(backdrop@)
                &&& template@.width <= backdrop@.width
                &&& template@.height <= backdrop@.height
                &&& backdrop@.width == background@.width
                &&& backdrop@.height == background@.height
                &&& !trim ==> origin.start_x == 0 && origin.start_y == 0
            },
            Err(e) => prepared(target@, background@, trim) == Err::<Prepared, MatchError>(e),
        },
{
    let target_width: u32 = target.width();
    let target_height: u32 = target.height();
    let background_width: u32 = background.width();
    let background_height: u32 = background.height();
    if background_width < target_width || background_height < target_height {
        return Err(
            MatchError::Dimension {
                target_width,
                target_height,
                background_width,
                background_height,
            },
        );
    }
    proof {
        lemma_area_fits(background_width, background_height);
    }
    let area: u64 = (background_width as u64) * (background_height as u64);
    if target_width == 0 || target_height == 0 || background_width > MAX_SIDE
        || background_height > MAX_SIDE || area > MAX_AREA {
        return Err(MatchError::ImageSize);
    }
    let origin: Rect = if trim {
        alpha_bounding_box(target)
    } else {
        Rect { start_x: 0, start_y: 0, width: target_width, height: target_height }
    };
    let template: GrayImage = if trim {
        grayscale(&crop(target, origin))
    } else {
        grayscale(target)
    };
    let backdrop: GrayImage = grayscale(background);
    proof {
        assert(template@.width * template@.height <= background_width * background_height)
            by (nonlinear_arith)
            requires
                0 <= template@.width <= background_width,
                0 <= template@.height <= background_height,
        ;
    }
    Ok((origin, template, backdrop))
}

/// Finds the template in the background under the fixed thresholds: the
/// first offset in row-major order with the greatest score.
pub fn locate(template: &GrayImage, background: &GrayImage) -> (m: MatchPoint)
    requires
        detectable(template@),
        detectable(background@),
        template@.width <= background@.width,
        template@.height <= background@.height,
    ensures
        m == baseline_match(template@, background@),
        m.x + template@.width <= background@.width,
        m.y + template@.height <= background@.height,
        is_first_best_offset(baseline_edge_map(background@), baseline_edge_map(template@), m),
{
    let template_edges = baseline_edges(template);
    let background_edges = baseline_edges(background);
    match_template(&background_edges, &template_edges)
}

/// Matches a target against a background under the fixed thresholds. With
/// `trim` the target is first cut down to its opaque part. A box is owed
/// whenever the background is no smaller than the target and the pictures
/// are of a size that the detector takes; it lies inside the background.
pub fn match_pictures(target: &RgbaImage, background: &RgbaImage, trim: bool) -> (r: Result<
    SlideBBox,
    MatchError,
>)
    ensures
        r == match_pictures_spec(target@, background@, trim),
        r is Ok ==> box_inside(r->Ok_0, background@.width, background@.height),
        r is Ok ==> has_size(r->Ok_0, template_of(target@, trim)),
        r is Ok && !trim ==> r->Ok_0.target_x == 0 && r->Ok_0.target_y == 0,
{
    match prepare(target, background, trim) {
        Ok((origin, template, backdrop)) => {
            let at: MatchPoint = locate(&template, &backdrop);
            Ok(bounding_box(origin, at, template.width(), template.height()))
        },
        Err(e) => Err(e),
    }
}

/// Decodes both pictures and matches them under the fixed thresholds.
pub fn match_bytes(target: &[u8], background: &[u8], trim: bool) -> (r: Result<
    SlideBBox,
    MatchError,
>)
    ensures
        r == match_bytes_spec(target@, background@, trim),
        r is Ok ==> box_inside(
            r->Ok_0,
            decoded_picture(background@)->0.width,
            decoded_picture(background@)->0.height,
        ),
        r is Ok ==> has_size(r->Ok_0, template_of(decoded_picture(target@)->0, trim)),
        r is Ok && !trim ==> r->Ok_0.target_x == 0 && r->Ok_0.target_y == 0,
{
    let target_picture: RgbaImage = match decode(target) {
        Some(picture) => picture,
        None => {
            return Err(MatchError::DecodeTarget);
        },
    };
    let background_picture: RgbaImage = match decode(background) {
        Some(picture) => picture,
        None => {
            return Err(MatchError::DecodeBackground);
        },
    };
    match_pictures(&target_picture, &background_picture, trim)
}

/// Finds the target in the background: the target is trimmed to its opaque
/// part and the edges are detected under the fixed thresholds.
pub fn slide_match(target_image: &[u8], background_image: &[u8]) -> (r: Result<
    SlideBBox,
    MatchError,
>)
    ensures
        r == match_bytes_spec(target_image@, background_image@, true),
        r is Ok ==> box_inside(
            r->Ok_0,
            decoded_picture(background_image@)->0.width,
            decoded_picture(background_image@)->0.height,
        ),
        r is Ok ==> has_size(r->Ok_0, template_of(decoded_picture(target_image@)->0, true)),
{
    match_bytes(target_image, background_image, true)
}

/// Finds the target in the background: the target is taken whole and the
/// edges are detected under the fixed thresholds.
pub fn simple_slide_match(target_image: &[u8], background_image: &[u8]) -> (r: Result<
    SlideBBox,
    MatchError,
>)
    ensures
        r == match_bytes_spec(target_image@, background_image@, false),
        r is Ok ==> box_inside(
            r->Ok_0,
            decoded_picture(background_image@)->0.width,
            decoded_picture(background_image@)->0.height,
        ),
        r is Ok ==> has_size(r->Ok_0, template_of(decoded_picture(target_image@)->0, false)),
        r is Ok ==> r->Ok_0.target_x == 0 && r->Ok_0.target_y == 0,
{
    match_bytes(target_image, background_image, false)
}

/// What a match under adaptive thresholds holds while it waits for the
/// edge maps.
pub struct Pending {
    pub origin: Rect,
    pub template: Raster,
    pub background: Raster,
    pub template_thresholds: Thresholds,
    pub background_thresholds: Thresholds,
    pub confidence: Score,
}

/// A match under adaptive thresholds that waits for the edge maps of its
/// two luma pictures. The edges of each are to be detected under its own pair
/// of thresholds, which are above 0 and in order.
#[derive(Debug)]
pub struct AdaptiveMatch {
    origin: Rect,
    template: GrayImage,
    background: GrayImage,
    template_thresholds: Thresholds,
    background_thresholds: Thresholds,
    confidence: Score,
}

impl View for AdaptiveMatch {
    type V = Pending;

    closed spec fn view(&self) -> Pending {
        Pending {
            origin: self.origin,
            template: self.template@,
            background: self.background@,
            template_thresholds: self.template_thresholds,
            background_thresholds: self.background_thresholds,
            confidence: self.confidence,
        }
    }
}

/// The pending match of what was prepared: the thresholds are those derived
/// from each picture, as the detector is given them.
pub open spec fn pending(p: Prepared, confidence: Score) -> Pending {
    Pending {
        origin: p.origin,
        template: p.template,
        background: p.background,
        template_thresholds: detector_pair(adaptive_thresholds(p.template.samples)),
        background_thresholds: detector_pair(adaptive_thresholds(p.background.samples)),
        confidence,
    }
}

/// The first step of a match of two pictures under adaptive thresholds.
pub open spec fn adaptive_pictures_spec(
    target: Raster,
    background: Raster,
    trim: bool,
    confidence: Score,
) -> Result<Pending, MatchError> {
    if !confidence.in_unit_interval() {
        Err(MatchError::Validation)
    } else {
        match prepared(target, background, trim) {
            Ok(p) => Ok(pending(p, confidence)),
            Err(e) => Err(e),
        }
    }
}

/// The bit pattern of the confidence level of a call: the one given, or
/// that of 0.3.
pub open spec fn level_or_default(given: Option<u64>) -> u64 {
    match given {
        Some(bits) => bits,
        None => DEFAULT_CONFIDENCE_DOUBLE_BITS,
    }
}

/// The first step of a match of two encoded pictures under adaptive
/// thresholds. The confidence level is judged before the pictures are read.
pub open spec fn adaptive_bytes_spec(
    target: Seq<u8>,
    background: Seq<u8>,
    trim: bool,
    confidence_threshold: Option<u64>,
) -> Result<Pending, MatchError> {
    if !double_in_unit_interval(level_or_default(confidence_threshold)) {
        Err(MatchError::Validation)
    } else if decoded_picture(target) is None {
        Err(MatchError::DecodeTarget)
    } else if decoded_picture(background) is None {
        Err(MatchError::DecodeBackground)
    } else {
        adaptive_pictures_spec(
            decoded_picture(target)->0,
            decoded_picture(background)->0,
            trim,
            narrowed(level_or_default(confidence_threshold)),
        )
    }
}

/// The match that the second step settles on, given the edge maps: the
/// best offset on them where its score is greater than the confidence level,
/// else the match under the fixed thresholds.
pub open spec fn settled_match(m: Pending, template_edges: Raster, background_edges: Raster)
    -> MatchPoint {
    let adaptive = best_offset(background_edges, template_edges);
    if adaptive.score.greater_than(m.confidence) {
        adaptive
    } else {
        baseline_match(m.template, m.background)
    }
}

/// The box that the second step returns.
pub open spec fn completed(m: Pending, template_edges: Raster, background_edges: Raster)
    -> SlideBBox {
    box_at(
        m.origin,
        settled_match(m, template_edges, background_edges),
        m.template.width,
        m.template.height,
    )
}

impl AdaptiveMatch {
    #[verifier::type_invariant]
    closed spec fn inv(self) -> bool {
        &&& detectable(self.template@)
        &&& detectable(self.background@)
        &&& self.template@.width <= self.background@.width
        &&& self.template@.height <= self.background@.height
        &&& 1 <= self.template_thresholds.low <= self.template_thresholds.high
        &&& 1 <= self.background_thresholds.low <= self.background_thresholds.high
    }

    /// Where the matched part of the target begins in the target.
    pub fn origin(&self) -> (r: Rect)
        ensures
            r == self@.origin,
    {
        self.origin
    }

    /// The luma picture of the template. It has a pixel and is no larger
    /// than the background.
    pub fn template(&self) -> (picture: &GrayImage)
        ensures
            picture@ == self@.template,
            detectable(picture@),
            picture@.width <= self@.background.width,
            picture@.height <= self@.background.height,
    {
        proof {
            use_type_invariant(self);
        }
        &self.template
    }

    /// The luma picture of the background.
    pub fn background(&self) -> (picture: &GrayImage)
        ensures
            picture@ == self@.background,
            detectable(picture@),
    {
        proof {
            use_type_invariant(self);
        }
        &self.background
    }

    /// The thresholds to detect the edges of the template under.
    pub fn template_thresholds(&self) -> (t: Thresholds)
        ensures
            t == self@.template_thresholds,
            1 <= t.low <= t.high,
    {
        proof {
            use_type_invariant(self);
        }
        self.template_thresholds
    }

    /// The thresholds to detect the edges of the background under.
    pub fn background_thresholds(&self) -> (t: Thresholds)
        ensures
            t == self@.background_thresholds,
            1 <= t.low <= t.high,
    {
        proof {
            use_type_invariant(self);
        }
        self.background_thresholds
    }

    /// The confidence level.
    pub fn confidence(&self) -> (c: Score)
        ensures
            c == self@.confidence,
    {
        self.confidence
    }

    /// The second step: slides the edge map of the template over that of
    /// the background. Where the score of the best offset is greater than the
    /// confidence level, the box stands there. Else both pictures are matched
    /// again under the fixed thresholds, edge maps and all, and the box stands
    /// where that match is. The box lies inside the background. Each edge map
    /// must have the size of its picture.
    pub fn complete(&self, template_edges: &GrayImage, background_edges: &GrayImage) -> (b:
        SlideBBox)
        requires
            template_edges@.width == self@.template.width,
            template_edges@.height == self@.template.height,
            background_edges@.width == self@.background.width,
            background_edges@.height == self@.background.height,
        ensures
            b == completed(self@, template_edges@, background_edges@),
            box_inside(b, self@.background.width, self@.background.height),
            b.x2 - b.x1 == self@.template.width,
            b.y2 - b.y1 == self@.template.height,
    {
        proof {
            use_type_invariant(self);
        }
        let adaptive: MatchPoint = match_template(background_edges, template_edges);
        let at: MatchPoint = if validate_match_result(adaptive.score, self.confidence) {
            adaptive
        } else {
            locate(&self.template, &self.background)
        };
        bounding_box(self.origin, at, self.template.width(), self.template.height())
    }
}

/// The first step of a match under adaptive thresholds: judges the
/// confidence level, prepares the pictures and derives the thresholds of
/// each.
pub fn start_adaptive(
    target: &RgbaImage,
    background: &RgbaImage,
    trim: bool,
    confidence: Score,
) -> (r: Result<AdaptiveMatch, MatchError>)
    ensures
        match r {
            Ok(m) => {
                &&& adaptive_pictures_spec(target@, background@, trim, confidence) == Ok::<
                    Pending,
                    MatchError,
                >(m@)
                &&& m@.background.width == background@.width
                &&& m@.background.height == background@.height
                &&& !trim ==> m@.origin.start_x == 0 && m@.origin.start_y == 0
            },
            Err(e) => adaptive_pictures_spec(target@, background@, trim, confidence) == Err::<
                Pending,
                MatchError,
            >(e),
        },
{
    if !confidence.is_confidence() {
        return Err(MatchError::Validation);
    }
    match prepare(target, background, trim) {
        Ok((origin, template, backdrop)) => {
            let template_thresholds = detector_thresholds(
                calculate_adaptive_canny_thresholds(&template),
            );
            let background_thresholds = detector_thresholds(
                calculate_adaptive_canny_thresholds(&backdrop),
            );
            Ok(
                AdaptiveMatch {
                    origin,
                    template,
                    background: backdrop,
                    template_thresholds,
                    background_thresholds,
                    confidence,
                },
            )
        },
        Err(e) => Err(e),
    }
}

/// The first step for encoded pictures. The confidence level is the bit
/// pattern of a binary64 number, 0.3 where none is given; it is judged as
/// given, before it is narrowed and before the pictures are read.
pub fn start_adaptive_bytes(
    target: &[u8],
    background: &[u8],
    trim: bool,
    confidence_threshold: Option<u64>,
) -> (r: Result<AdaptiveMatch, MatchError>)
    ensures
        match r {
            Ok(m) => {
                &&& adaptive_bytes_spec(target@, background@, trim, confidence_threshold) == Ok::<
                    Pending,
                    MatchError,
                >(m@)
                &&& m@.background.width == decoded_picture(background@)->0.width
                &&& m@.background.height == decoded_picture(background@)->0.height
                &&& !trim ==> m@.origin.start_x == 0 && m@.origin.start_y == 0
            },
            Err(e) => adaptive_bytes_spec(target@, background@, trim, confidence_threshold)
                == Err::<Pending, MatchError>(e),
        },
        r == Err::<AdaptiveMatch, MatchError>(MatchError::Validation) <==> !double_in_unit_interval(
            level_or_default(confidence_threshold),
        ),
{
    let bits: u64 = match confidence_threshold {
        Some(bits) => bits,
        None => DEFAULT_CONFIDENCE_DOUBLE_BITS,
    };
    let confidence: Score = match confidence_from_double(bits) {
        Some(level) => level,
        None => {
            return Err(MatchError::Validation);
        },
    };
    let target_picture: RgbaImage = match decode(target) {
        Some(picture) => picture,
        None => {
            return Err(MatchError::DecodeTarget);
        },
    };
    let background_picture: RgbaImage = match decode(background) {
        Some(picture) => picture,
        None => {
            return Err(MatchError::DecodeBackground);
        },
    };
    start_adaptive(&target_picture, &background_picture, trim, confidence)
}

/// Begins to find the target in the background under adaptive thresholds,
/// the target trimmed to its opaque part. The match that is returned waits
/// for the edge maps; `AdaptiveMatch::complete` gives the box.
pub fn improved_slide_match(
    target_image: &[u8],
    background_image: &[u8],
    confidence_threshold: Option<u64>,
) -> (r: Result<AdaptiveMatch, MatchError>)
    ensures
        match r {
            Ok(m) => {
                &&& adaptive_bytes_spec(target_image@, background_image@, true, confidence_threshold)
                    == Ok::<Pending, MatchError>(m@)
                &&& m@.background.width == decoded_picture(background_image@)->0.width
                &&& m@.background.height == decoded_picture(background_image@)->0.height
            },
            Err(e) => adaptive_bytes_spec(
                target_image@,
                background_image@,
                true,
                confidence_threshold,
            ) == Err::<Pending, MatchError>(e),
        },
        r == Err::<AdaptiveMatch, MatchError>(MatchError::Validation) <==> !double_in_unit_interval(
            level_or_default(confidence_threshold),
        ),
{
    start_adaptive_bytes(target_image, background_image, true, confidence_threshold)
}

/// Begins to find the target in the background under adaptive thresholds,
/// the target taken whole. The match that is returned waits for the edge
/// maps; `AdaptiveMatch::complete` gives the box.
pub fn improved_simple_slide_match(
    target_image: &[u8],
    background_image: &[u8],
    confidence_threshold: Option<u64>,
) -> (r: Result<AdaptiveMatch, MatchError>)
    ensures
        match r {
            Ok(m) => {
                &&& adaptive_bytes_spec(
                    target_image@,
                    background_image@,
                    false,
                    confidence_threshold,
                ) == Ok::<Pending, MatchError>(m@)
                &&& m@.background.width == decoded_picture(background_image@)->0.width
                &&& m@.background.height == decoded_picture(background_image@)->0.height
                &&& m@.origin.start_x == 0 && m@.origin.start_y == 0
            },
            Err(e) => adaptive_bytes_spec(
                target_image@,
                background_image@,
                false,
                confidence_threshold,
            ) == Err::<Pending, MatchError>(e),
        },
        r == Err::<AdaptiveMatch, MatchError>(MatchError::Validation) <==> !double_in_unit_interval(
            level_or_default(confidence_threshold),
        ),
{
    start_adaptive_bytes(target_image, background_image, false, confidence_threshold)
}

/// Matching is a function of what it is given: the same bytes and the
/// same parameters give the same result, under the fixed thresholds and in
/// both steps under adaptive ones.
pub proof fn lemma_same_input_same_result(
    target: Seq<u8>,
    background: Seq<u8>,
    other_target: Seq<u8>,
    other_background: Seq<u8>,
    trim: bool,
    confidence_threshold: Option<u64>,
    template_edges: Raster,
    background_edges: Raster,
)
    requires
        target =~= other_target,
        background =~= other_background,
    ensures
        match_bytes_spec(target, background, trim) == match_bytes_spec(
            other_target,
            other_background,
            trim,
        ),
        adaptive_bytes_spec(target, background, trim, confidence_threshold) == adaptive_bytes_spec(
            other_target,
            other_background,
            trim,
            confidence_threshold,
        ),
        adaptive_bytes_spec(target, background, trim, confidence_threshold) is Ok ==> completed(
            adaptive_bytes_spec(target, background, trim, confidence_threshold)->Ok_0,
            template_edges,
            background_edges,
        ) == completed(
            adaptive_bytes_spec(other_target, other_background, trim, confidence_threshold)->Ok_0,
            template_edges,
            background_edges,
        ),
{
}

/// Where the best offset on the edge maps has a score that is not greater
/// than the confidence level, the match under adaptive thresholds gives the
/// box that the match under the fixed thresholds gives on the same bytes.
pub proof fn lemma_low_score_falls_back(
    target: Seq<u8>,
    background: Seq<u8>,
    trim: bool,
    confidence_threshold: Option<u64>,
    template_edges: Raster,
    background_edges: Raster,
)
    requires
        adaptive_bytes_spec(target, background, trim, confidence_threshold) is Ok,
        !best_offset(background_edges, template_edges).score.greater_than(
            adaptive_bytes_spec(target, background, trim, confidence_threshold)->Ok_0.confidence,
        ),
    ensures
        match_bytes_spec(target, background, trim) == Ok::<SlideBBox, MatchError>(
            completed(
                adaptive_bytes_spec(target, background, trim, confidence_threshold)->Ok_0,
                template_edges,
                background_edges,
            ),
        ),
{
}

/// The two steps fail on the pictures exactly where the match under the
/// fixed thresholds fails, and with the same error, once the confidence level
/// is valid.
pub proof fn lemma_adaptive_fails_as_baseline(
    target: Seq<u8>,
    background: Seq<u8>,
    trim: bool,
    confidence_threshold: Option<u64>,
)
    requires
        double_in_unit_interval(level_or_default(confidence_threshold)),
    ensures
        adaptive_bytes_spec(target, background, trim, confidence_threshold) is Err
            <==> match_bytes_spec(target, background, trim) is Err,
        match_bytes_spec(target, background, trim) is Err ==> adaptive_bytes_spec(
            target,
            background,
            trim,
            confidence_threshold,
        )->Err_0 == match_bytes_spec(target, background, trim)->Err_0,
{
    crate::score::lemma_narrowed_is_confidence(level_or_default(confidence_threshold));
}

/// A confidence level that is no number from 0.0 to 1.0 is refused whatever
/// the pictures are.
pub proof fn lemma_invalid_confidence_is_refused(
    target: Seq<u8>,
    background: Seq<u8>,
    trim: bool,
    confidence_threshold: Option<u64>,
)
    requires
        !double_in_unit_interval(level_or_default(confidence_threshold)),
    ensures
        adaptive_bytes_spec(target, background, trim, confidence_threshold) == Err::<
            Pending,
            MatchError,
        >(MatchError::Validation),
{
}

/// A background that is narrower or lower than the target is refused by
/// every variant, and no box is made.
pub proof fn lemma_smaller_background_is_refused(
    target: Seq<u8>,
    background: Seq<u8>,
    trim: bool,
    confidence_threshold: Option<u64>,
)
    requires
        decoded_picture(target) is Some,
        decoded_picture(background) is Some,
        decoded_picture(background)->0.width < decoded_picture(target)->0.width
            || decoded_picture(background)->0.height < decoded_picture(target)->0.height,
    ensures
        match_bytes_spec(target, background, trim) is Err,
        match_bytes_spec(target, background, trim)->Err_0 is Dimension,
        adaptive_bytes_spec(target, background, trim, confidence_threshold) is Err,
        double_in_unit_interval(level_or_default(confidence_threshold)) ==> adaptive_bytes_spec(
            target,
            background,
            trim,
            confidence_threshold,
        )->Err_0 is Dimension,
{
    if double_in_unit_interval(level_or_default(confidence_threshold)) {
        crate::score::lemma_narrowed_is_confidence(level_or_default(confidence_threshold));
    }
}

/// A target whose opaque pixels are exactly those of a block is matched by
/// that block when it is trimmed: the box reports the corner of the block and
/// the template has the size of the block. Taken whole, the target is matched
/// as it is: the corner is (0, 0) and the template has the size of the target.
pub proof fn lemma_block_is_what_is_matched(target: Raster, background: Raster, block: Rect)
    requires
        block.width >= 1,
        block.height >= 1,
        block.within(target.width, target.height),
        forall|x: int, y: int|
            target.contains(x, y) ==> (#[trigger] crate::crop::opaque_at(target, x, y)
                <==> block.covers(x, y)),
        prepared(target, background, true) is Ok,
    ensures
        match_pictures_spec(target, background, true) is Ok,
        match_pictures_spec(target, background, true)->Ok_0.target_x == block.start_x,
        match_pictures_spec(target, background, true)->Ok_0.target_y == block.start_y,
        template_of(target, true).width == block.width,
        template_of(target, true).height == block.height,
        match_pictures_spec(target, background, false) is Ok,
        match_pictures_spec(target, background, false)->Ok_0.target_x == 0,
        match_pictures_spec(target, background, false)->Ok_0.target_y == 0,
        template_of(target, false).width == target.width,
        template_of(target, false).height == target.height,
{
    crate::crop::lemma_opaque_block_bounds(target, block);
}

/// Within the sizes that the detector takes, a box is owed: where both
/// pictures can be read, the target has a pixel, and the background is no
/// smaller than the target and no larger than the detector takes, the match
/// under the fixed thresholds is `Ok`, and so is the first step under
/// adaptive thresholds with a valid confidence level.
pub proof fn lemma_match_is_owed(
    target: Seq<u8>,
    background: Seq<u8>,
    trim: bool,
    confidence_threshold: Option<u64>,
)
    requires
        decoded_picture(target) is Some,
        decoded_picture(background) is Some,
        decoded_picture(target)->0.width <= decoded_picture(background)->0.width,
        decoded_picture(target)->0.height <= decoded_picture(background)->0.height,
        matchable(decoded_picture(target)->0, decoded_picture(background)->0),
    ensures
        match_bytes_spec(target, background, trim) is Ok,
        match_bytes_spec(target, background, trim)->Ok_0.target_x == trim_rect(
            decoded_picture(target)->0,
            trim,
        ).start_x,
        match_bytes_spec(target, background, trim)->Ok_0.target_y == trim_rect(
            decoded_picture(target)->0,
            trim,
        ).start_y,
        double_in_unit_interval(level_or_default(confidence_threshold)) ==> adaptive_bytes_spec(
            target,
            background,
            trim,
            confidence_threshold,
        ) is Ok,
{
    if double_in_unit_interval(level_or_default(confidence_threshold)) {
        crate::score::lemma_narrowed_is_confidence(level_or_default(confidence_threshold));
    }
}

} // verus!
