//! Template matching by normalised cross-correlation.

use crate::raster::{GrayImage, Raster};
use crate::score::{lemma_greater_than_is_strict_order, lemma_numbers_are_comparable, Score};
use vstd::arithmetic::div_mod::{lemma_fundamental_div_mod, lemma_mod_bound};
use vstd::prelude::*;

verus! {

/// The correlation surface of a template slid over a picture: one score for
/// each offset, row by row, each an IEEE 754 binary32 number held as its bit
/// pattern.
pub uninterp spec fn correlation_surface(picture: Raster, template: Raster) -> Seq<u32>;

/// Calls `imageproc::template_matching::match_template` with the method
/// `CrossCorrelationNormalized`. Trusted: the surface is a function of the two
/// pictures alone and holds one score for each offset at which the template
/// lies inside the picture; and every score is a number, since a score is a
/// sum of products of samples, divided by a norm only where the norm is
/// above 0. The template must be no larger than the picture.
#[verifier::external_body]
pub(crate) fn correlate(picture: &GrayImage, template: &GrayImage) -> (r: Vec<u32>)
    requires
        1 <= template@.width <= picture@.width,
        1 <= template@.height <= picture@.height,
    ensures
        r@ == correlation_surface(picture@, template@),
        r@.len() == (picture@.width - template@.width + 1) * (picture@.height - template@.height
            + 1),
        forall|i: int| 0 <= i < r@.len() ==> !(#[trigger] score_at(r@, i)).is_nan(),
{
    let image =
        image::GrayImage::from_raw(picture.width, picture.height, picture.data.clone()).unwrap();
    let patch =
        image::GrayImage::from_raw(template.width, template.height, template.data.clone()).unwrap();
    let method = imageproc::template_matching::MatchTemplateMethod::CrossCorrelationNormalized;
    let scores = imageproc::template_matching::match_template(&image, &patch, method);
    scores.into_raw().into_iter().map(|score| score.to_bits()).collect()
}

/// An offset of the template in the picture, with the score there.
#[derive(Clone, Copy, Debug, PartialEq, Eq, Structural)]
pub struct MatchPoint {
    pub x: u32,
    pub y: u32,
    pub score: Score,
}

/// The score at position `i` of a surface.
pub open spec fn score_at(surface: Seq<u32>, i: int) -> Score {
    Score { bits: surface[i] }
}

/// The position that a scan of the first `n` scores ends on. The scan
/// starts on the first score and moves on to a later one only where that is
/// greater than the one it stands on.
pub open spec fn leader(surface: Seq<u32>, n: nat) -> int
    decreases n,
{
    if n <= 1 {
        0
    } else {
        let before = leader(surface, (n - 1) as nat);
        if score_at(surface, n - 1).greater_than(score_at(surface, before)) {
            n - 1
        } else {
            before
        }
    }
}

/// The point that a row-major scan of a surface of the given width ends on.
pub open spec fn peak(surface: Seq<u32>, width: nat) -> MatchPoint {
    let at = leader(surface, surface.len());
    MatchPoint {
        x: (at % (width as int)) as u32,
        y: (at / (width as int)) as u32,
        score: score_at(surface, at),
    }
}

/// The scan ends inside the part that it has gone through.
pub proof fn lemma_leader_in_range(surface: Seq<u32>, n: nat)
    requires
        n >= 1,
    ensures
        0 <= leader(surface, n) < n,
    decreases n,
{
    if n > 1 {
        lemma_leader_in_range(surface, (n - 1) as nat);
    }
}

/// On a surface whose scores are all numbers, the scan ends on the first
/// position that holds the greatest score: no score is greater than the one
/// there, and that one is greater than each score before it.
pub proof fn lemma_leader_is_first_maximum(surface: Seq<u32>, n: nat)
    requires
        1 <= n <= surface.len(),
        forall|i: int| 0 <= i < n ==> !(#[trigger] score_at(surface, i)).is_nan(),
    ensures
        forall|i: int|
            0 <= i < n ==> !(#[trigger] score_at(surface, i)).greater_than(
                score_at(surface, leader(surface, n)),
            ),
        forall|i: int|
            0 <= i < leader(surface, n) ==> score_at(surface, leader(surface, n)).greater_than(
                #[trigger] score_at(surface, i),
            ),
    decreases n,
{
    if n > 1 {
        let m = (n - 1) as nat;
        lemma_leader_is_first_maximum(surface, m);
        lemma_leader_in_range(surface, m);
        let before = leader(surface, m);
        let last = score_at(surface, n - 1);
        let best = score_at(surface, before);
        if last.greater_than(best) {
            assert forall|i: int| 0 <= i < n - 1 implies last.greater_than(
                #[trigger] score_at(surface, i),
            ) by {
                let s = score_at(surface, i);
                lemma_numbers_are_comparable(s, best);
                lemma_greater_than_is_strict_order(last, best, s);
            }
        }
    }
}

/// The tie-break in two dimensions. On a surface of `width` by `height`
/// scores that are all numbers, no score is greater than the one at the
/// peak, and the peak is greater than every score above it and every score
/// to its left in its own row: of several offsets with the greatest score the
/// one with the lower `y`, then the lower `x`, is the peak.
pub proof fn lemma_peak_is_first_in_row_major_order(
    surface: Seq<u32>,
    width: u32,
    height: u32,
    x: int,
    y: int,
)
    requires
        width >= 1,
        height >= 1,
        surface.len() == width * height,
        forall|i: int| 0 <= i < surface.len() ==> !(#[trigger] score_at(surface, i)).is_nan(),
        0 <= x < width,
        0 <= y < height,
    ensures
        peak(surface, width as nat).x < width,
        peak(surface, width as nat).y < height,
        !score_at(surface, y * width + x).greater_than(peak(surface, width as nat).score),
        y < peak(surface, width as nat).y || (y == peak(surface, width as nat).y && x < peak(
            surface,
            width as nat,
        ).x) ==> peak(surface, width as nat).score.greater_than(score_at(surface, y * width + x)),
{
    let len = surface.len();
    let w = width as int;
    crate::raster::lemma_offset_in_area(w, height as int, x, y);
    lemma_leader_in_range(surface, len);
    lemma_leader_is_first_maximum(surface, len);
    let at = leader(surface, len);
    lemma_fundamental_div_mod(at, w);
    lemma_mod_bound(at, w);
    assert(0 <= at / w < height) by (nonlinear_arith)
        requires
            0 <= at < w * height,
            w >= 1,
    ;
    let here = y * w + x;
    let best = score_at(surface, at);
    assert(!score_at(surface, here).greater_than(best));
    if y < at / w {
        assert(y * w + x < w * (at / w)) by (nonlinear_arith)
            requires
                y + 1 <= at / w,
                0 <= x < w,
        ;
        assert(best.greater_than(score_at(surface, here)));
    } else if y == at / w && x < at % w {
        assert(y * w == w * (at / w)) by (nonlinear_arith)
            requires
                y == at / w,
        ;
        assert(best.greater_than(score_at(surface, here)));
    }
}

/// Finds the greatest score of a surface that holds `width` scores in each
/// of `height` rows. Of several positions with that score the first in
/// row-major order is returned.
pub fn find_maximum(surface: &Vec<u32>, width: u32, height: u32) -> (m: MatchPoint)
    requires
        width >= 1,
        height >= 1,
        surface@.len() == width * height,
    ensures
        m == peak(surface@, width as nat),
        m.x < width,
        m.y < height,
{
    let len: usize = surface.len();
    assert(width * height >= 1) by (nonlinear_arith)
        requires
            width >= 1,
            height >= 1,
    ;
    let mut at: usize = 0;
    let mut i: usize = 1;
    while i < len
        invariant
            1 <= i <= len,
            len == surface@.len(),
            at == leader(surface@, i as nat),
            0 <= at < i,
        decreases len - i,
    {
        let candidate = Score::from_bits(surface[i]);
        let best = Score::from_bits(surface[at]);
        if candidate.exceeds(&best) {
            at = i;
        }
        i = i + 1;
    }
    proof {
        lemma_fundamental_div_mod(at as int, width as int);
        lemma_mod_bound(at as int, width as int);
        assert(at as int / width as int >= 0 && at as int / (width as int) < height)
            by (nonlinear_arith)
            requires
                0 <= at < width * height,
                width >= 1,
        ;
    }
    let w: usize = width as usize;
    MatchPoint { x: (at % w) as u32, y: (at / w) as u32, score: Score::from_bits(surface[at]) }
}

/// The best offset of a template in a picture: the peak of their
/// correlation surface.
pub open spec fn best_offset(picture: Raster, template: Raster) -> MatchPoint {
    peak(correlation_surface(picture, template), (picture.width - template.width + 1) as nat)
}

/// The score of the template at offset `(x, y)` of the picture.
pub open spec fn offset_score(picture: Raster, template: Raster, x: int, y: int) -> Score {
    score_at(
        correlation_surface(picture, template),
        y * (picture.width - template.width + 1) + x,
    )
}

/// Whether `m` is the first offset in row-major order with the greatest
/// score: no offset has a greater score, and the score at `m` is greater than
/// that at every offset above it and at every offset to its left in its row.
pub open spec fn is_first_best_offset(picture: Raster, template: Raster, m: MatchPoint) -> bool {
    forall|x: int, y: int|
        0 <= x <= picture.width - template.width && 0 <= y <= picture.height - template.height
            ==> {
            &&& !(#[trigger] offset_score(picture, template, x, y)).greater_than(m.score)
            &&& y < m.y || (y == m.y && x < m.x) ==> m.score.greater_than(
                offset_score(picture, template, x, y),
            )
        }
}

/// Slides the template over the picture and returns the offset with the
/// greatest score, the first in row-major order where several have it. The
/// template at that offset lies inside the picture.
pub fn match_template(picture: &GrayImage, template: &GrayImage) -> (m: MatchPoint)
    requires
        1 <= template@.width <= picture@.width,
        1 <= template@.height <= picture@.height,
    ensures
        m == best_offset(picture@, template@),
        m.x + template@.width <= picture@.width,
        m.y + template@.height <= picture@.height,
        m.score == offset_score(picture@, template@, m.x as int, m.y as int),
        is_first_best_offset(picture@, template@, m),
{
    let surface: Vec<u32> = correlate(picture, template);
    let width: u32 = picture.width() - template.width() + 1;
    let height: u32 = picture.height() - template.height() + 1;
    let m = find_maximum(&surface, width, height);
    proof {
        assert forall|x: int, y: int|
            0 <= x <= picture@.width - template@.width && 0 <= y <= picture@.height
                - template@.height implies {
            &&& !(#[trigger] offset_score(picture@, template@, x, y)).greater_than(m.score)
            &&& y < m.y || (y == m.y && x < m.x) ==> m.score.greater_than(
                offset_score(picture@, template@, x, y),
            )
        } by {
            lemma_peak_is_first_in_row_major_order(surface@, width, height, x, y);
        }
        let at = leader(surface@, surface@.len());
        assert(width * height >= 1) by (nonlinear_arith)
            requires
                width >= 1,
                height >= 1,
        ;
        lemma_leader_in_range(surface@, surface@.len());
        lemma_fundamental_div_mod(at, width as int);
        lemma_mod_bound(at, width as int);
        assert(0 <= at / (width as int) < height) by (nonlinear_arith)
            requires
                0 <= at < width * height,
                width >= 1,
        ;
        assert(m.y * width + m.x == at) by (nonlinear_arith)
            requires
                at == width * (at / (width as int)) + at % (width as int),
                m.y == at / (width as int),
                m.x == at % (width as int),
        {
        }
    }
    m
}

} // verus!
