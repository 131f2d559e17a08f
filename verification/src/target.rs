//! Choosing where a dive zooms next: a boundary of the fractal near a random
//! pixel. From the start the search goes to the nearest dark pixel of the
//! blurred preview, and from there to the nearest bright pixel of the edge
//! picture, so that the target lies on a contour and not in a flat area.

use crate::bitmap::{Bitmap, Picture, Rgb};
use crate::edges::{edged, edges};
use crate::finder::{accepted_at, find_point, lemma_precedes_total, precedes, rejected_at};
use crate::random::draw_u32;
use rand::StdRng;
use vstd::prelude::*;

verus! {

/// Half of the range of a channel.
pub const HALF_RANGE: u8 = 128;

/// A pixel of at most half intensity. Previews are gray, so the red channel
/// stands for the intensity.
pub open spec fn is_dark(pixel: Rgb) -> bool {
    pixel.red <= HALF_RANGE
}

/// A pixel of at least half intensity.
pub open spec fn is_bright(pixel: Rgb) -> bool {
    pixel.red >= HALF_RANGE
}

/// What a search looks for.
#[derive(Debug, Copy, Clone, PartialEq, Eq, Structural)]
pub enum Tone {
    Dark,
    Bright,
}

/// Whether a pixel has the given tone.
pub open spec fn has_tone(tone: Tone, pixel: Rgb) -> bool {
    match tone {
        Tone::Dark => is_dark(pixel),
        Tone::Bright => is_bright(pixel),
    }
}

/// `(x, y)` is the first pixel of the picture, in the order of the search
/// from `start`, that has the tone.
pub open spec fn first_toned(image: Picture, start: (u32, u32), tone: Tone, x: int, y: int) -> bool {
    &&& image.contains(x, y)
    &&& has_tone(tone, image.pixel(x, y))
    &&& forall|qx: int, qy: int|
        image.contains(qx, qy) && #[trigger] precedes(start, qx, qy, x, y) ==> !has_tone(
            tone,
            image.pixel(qx, qy),
        )
}

/// No pixel of the picture has the tone.
pub open spec fn nowhere(image: Picture, tone: Tone) -> bool {
    forall|qx: int, qy: int| #[trigger] image.contains(qx, qy) ==> !has_tone(tone, image.pixel(qx, qy))
}

/// `found` is the pixel of the given tone nearest to `start`, or nothing
/// where the picture has no pixel of that tone.
pub open spec fn nearest(
    image: Picture,
    start: (u32, u32),
    tone: Tone,
    found: Option<(u32, u32)>,
) -> bool {
    match found {
        Some(p) => first_toned(image, start, tone, p.0 as int, p.1 as int),
        None => nowhere(image, tone),
    }
}

/// The target of a zoom step that starts its search at `start`: the bright
/// pixel of the edge picture of `grayscaled` nearest to the dark pixel of
/// `blurred` nearest to `start`. There is none if `blurred` has no dark
/// pixel or the edge picture no bright one.
pub open spec fn is_target(
    grayscaled: Picture,
    blurred: Picture,
    start: (u32, u32),
    target: Option<(u32, u32)>,
) -> bool {
    exists|dark: Option<(u32, u32)>|
        {
            &&& #[trigger] nearest(blurred, start, Tone::Dark, dark)
            &&& match dark {
                Some(from) => nearest(edged(grayscaled), from, Tone::Bright, target),
                None => target is None,
            }
        }
}

/// A search has one answer: two pixels that are both the nearest of a tone
/// are the same pixel, and a picture that has such a pixel is not without.
pub proof fn lemma_nearest_unique(
    image: Picture,
    start: (u32, u32),
    tone: Tone,
    a: Option<(u32, u32)>,
    b: Option<(u32, u32)>,
)
    requires
        nearest(image, start, tone, a),
        nearest(image, start, tone, b),
    ensures
        a == b,
{
    match (a, b) {
        (Some(p), Some(q)) => {
            if p != q {
                lemma_precedes_total(start, p.0 as int, p.1 as int, q.0 as int, q.1 as int);
            }
        },
        (Some(p), None) => {
            assert(image.contains(p.0 as int, p.1 as int));
        },
        (None, Some(q)) => {
            assert(image.contains(q.0 as int, q.1 as int));
        },
        (None, None) => {},
    }
}

/// A zoom step has one target: for a preview, its blurred form and a start
/// the target is determined.
pub proof fn lemma_target_unique(
    grayscaled: Picture,
    blurred: Picture,
    start: (u32, u32),
    a: Option<(u32, u32)>,
    b: Option<(u32, u32)>,
)
    requires
        is_target(grayscaled, blurred, start, a),
        is_target(grayscaled, blurred, start, b),
    ensures
        a == b,
{
    let dark_a = choose|dark: Option<(u32, u32)>|
        {
            &&& #[trigger] nearest(blurred, start, Tone::Dark, dark)
            &&& match dark {
                Some(from) => nearest(edged(grayscaled), from, Tone::Bright, a),
                None => a is None,
            }
        };
    let dark_b = choose|dark: Option<(u32, u32)>|
        {
            &&& #[trigger] nearest(blurred, start, Tone::Dark, dark)
            &&& match dark {
                Some(from) => nearest(edged(grayscaled), from, Tone::Bright, b),
                None => b is None,
            }
        };
    lemma_nearest_unique(blurred, start, Tone::Dark, dark_a, dark_b);
    match dark_a {
        Some(from) => {
            lemma_nearest_unique(edged(grayscaled), from, Tone::Bright, a, b);
        },
        None => {},
    }
}

/// Finds the pixel of the given tone nearest to `start`.
pub fn find_toned_point(start: (u32, u32), image: &Bitmap, tone: Tone) -> (found: Option<
    (u32, u32),
>)
    requires
        image.wf(),
        image@.contains(start.0 as int, start.1 as int),
    ensures
        nearest(image@, start, tone, found),
        found is Some ==> image@.contains(found->Some_0.0 as int, found->Some_0.1 as int),
{
    let predicate = |pixel: Rgb| -> (toned: bool)
        ensures
            toned == has_tone(tone, pixel),
        {
            match tone {
                Tone::Dark => pixel.red <= HALF_RANGE,
                Tone::Bright => pixel.red >= HALF_RANGE,
            }
        };
    let found: Option<(u32, u32)> = find_point(start, image, predicate);
    proof {
        assert forall|qx: int, qy: int| rejected_at(image@, predicate, qx, qy) implies !has_tone(
            tone,
            image@.pixel(qx, qy),
        ) by {}
        match found {
            Some(p) => {
                assert(accepted_at(image@, predicate, p.0 as int, p.1 as int));
                assert forall|qx: int, qy: int|
                    image@.contains(qx, qy) && #[trigger] precedes(
                        start,
                        qx,
                        qy,
                        p.0 as int,
                        p.1 as int,
                    ) implies !has_tone(tone, image@.pixel(qx, qy)) by {
                    assert(rejected_at(image@, predicate, qx, qy));
                }
            },
            None => {
                assert forall|qx: int, qy: int| #[trigger] image@.contains(qx, qy) implies !has_tone(
                    tone,
                    image@.pixel(qx, qy),
                ) by {
                    assert(rejected_at(image@, predicate, qx, qy));
                }
            },
        }
    }
    found
}

/// Finds the target of a zoom step whose search starts at `start`, in a gray
/// preview and its blurred form.
pub fn locate_target(start: (u32, u32), grayscaled: &Bitmap, blurred: &Bitmap) -> (target: Option<
    (u32, u32),
>)
    requires
        grayscaled.wf(),
        blurred.wf(),
        blurred@.width == grayscaled@.width,
        blurred@.height == grayscaled@.height,
        blurred@.contains(start.0 as int, start.1 as int),
    ensures
        is_target(grayscaled@, blurred@, start, target),
        target is Some ==> grayscaled@.contains(target->Some_0.0 as int, target->Some_0.1 as int),
{
    let dark: Option<(u32, u32)> = find_toned_point(start, blurred, Tone::Dark);
    match dark {
        Some(from) => {
            let contours: Bitmap = edges(grayscaled);
            let target: Option<(u32, u32)> = find_toned_point(from, &contours, Tone::Bright);
            assert(nearest(blurred@, start, Tone::Dark, dark));
            target
        },
        None => {
            assert(nearest(blurred@, start, Tone::Dark, dark));
            None
        },
    }
}

/// Draws the pixel at which a search starts: a column, then a row, of a
/// picture of `width` by `height` pixels.
pub fn choose_start(rng: &mut StdRng, width: u32, height: u32) -> (start: (u32, u32))
    requires
        width > 0,
        height > 0,
    ensures
        start.0 < width,
        start.1 < height,
{
    let x: u32 = draw_u32(rng, 0, width);
    let y: u32 = draw_u32(rng, 0, height);
    (x, y)
}

/// Finds the target of the next zoom step: draws the start of the search
/// within the preview, then locates the target from there.
pub fn find_target_point(rng: &mut StdRng, grayscaled: &Bitmap, blurred: &Bitmap) -> (target:
    Option<(u32, u32)>)
    requires
        grayscaled.wf(),
        blurred.wf(),
        blurred@.width == grayscaled@.width,
        blurred@.height == grayscaled@.height,
        grayscaled@.width > 0,
        grayscaled@.height > 0,
    ensures
        exists|start: (u32, u32)|
            blurred@.contains(start.0 as int, start.1 as int) && #[trigger] is_target(
                grayscaled@,
                blurred@,
                start,
                target,
            ),
        target is Some ==> grayscaled@.contains(target->Some_0.0 as int, target->Some_0.1 as int),
{
    let (width, height) = grayscaled.dimensions();
    let start: (u32, u32) = choose_start(rng, width, height);
    let target: Option<(u32, u32)> = locate_target(start, grayscaled, blurred);
    assert(is_target(grayscaled@, blurred@, start, target));
    target
}

} // verus!
