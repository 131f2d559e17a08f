//! The point finder: the nearest pixel of a picture that a predicate accepts,
//! where pixels are joined to their four neighbours and every step costs one.
//!
//! On such a grid the fewest steps between two pixels is the sum of their
//! horizontal and vertical gaps, so the search walks the rings of equal
//! distance around the start, nearest ring first.

use crate::bitmap::{Bitmap, Picture, Rgb};
use vstd::prelude::*;

verus! {

/// The gap between two coordinates.
pub open spec fn gap(a: int, b: int) -> int {
    if a >= b {
        a - b
    } else {
        b - a
    }
}

/// The fewest steps from `(ax, ay)` to `(bx, by)` on the grid.
pub open spec fn steps(ax: int, ay: int, bx: int, by: int) -> int {
    gap(ax, bx) + gap(ay, by)
}

/// Whether two pixels are neighbours in a row or a column.
pub open spec fn adjacent(a: (int, int), b: (int, int)) -> bool {
    steps(a.0, a.1, b.0, b.1) == 1
}

/// A walk through the picture: a run of pixels of the picture, each the
/// neighbour of the one before.
pub open spec fn is_walk(image: Picture, walk: Seq<(int, int)>) -> bool {
    &&& walk.len() > 0
    &&& forall|i: int| 0 <= i < walk.len() ==> image.contains((#[trigger] walk[i]).0, walk[i].1)
    &&& forall|i: int| 0 <= i < walk.len() - 1 ==> adjacent(#[trigger] walk[i], walk[i + 1])
}

/// No walk is shorter than `steps` says: a walk between two pixels takes at
/// least as many steps as their gaps add up to.
pub proof fn lemma_walk_takes_steps(image: Picture, walk: Seq<(int, int)>)
    requires
        is_walk(image, walk),
    ensures
        walk.len() - 1 >= steps(walk.first().0, walk.first().1, walk.last().0, walk.last().1),
    decreases walk.len(),
{
    if walk.len() > 1 {
        let shorter = walk.drop_last();
        assert forall|i: int| 0 <= i < shorter.len() implies image.contains(
            (#[trigger] shorter[i]).0,
            shorter[i].1,
        ) by {
            assert(shorter[i] == walk[i]);
        }
        assert forall|i: int| 0 <= i < shorter.len() - 1 implies adjacent(
            #[trigger] shorter[i],
            shorter[i + 1],
        ) by {
            assert(shorter[i] == walk[i]);
            assert(shorter[i + 1] == walk[i + 1]);
        }
        lemma_walk_takes_steps(image, shorter);
        assert(shorter.last() == walk[walk.len() - 2]);
        assert(adjacent(walk[walk.len() - 2], walk[walk.len() - 1]));
    }
}

/// Some walk is as short as `steps` says: between any two pixels of a picture
/// there is a walk, within the picture, of exactly that many steps.
pub proof fn lemma_walk_of_steps_exists(image: Picture, a: (int, int), b: (int, int)) -> (walk: Seq<
    (int, int),
>)
    requires
        image.contains(a.0, a.1),
        image.contains(b.0, b.1),
    ensures
        is_walk(image, walk),
        walk.first() == a,
        walk.last() == b,
        walk.len() - 1 == steps(a.0, a.1, b.0, b.1),
    decreases steps(a.0, a.1, b.0, b.1),
{
    if a == b {
        seq![a]
    } else {
        let before: (int, int) = if b.0 > a.0 {
            (b.0 - 1, b.1)
        } else if b.0 < a.0 {
            (b.0 + 1, b.1)
        } else if b.1 > a.1 {
            (b.0, b.1 - 1)
        } else {
            (b.0, b.1 + 1)
        };
        let shorter = lemma_walk_of_steps_exists(image, a, before);
        let walk = shorter.push(b);
        assert forall|i: int| 0 <= i < walk.len() implies image.contains(
            (#[trigger] walk[i]).0,
            walk[i].1,
        ) by {
            if i < shorter.len() {
                assert(walk[i] == shorter[i]);
            }
        }
        assert forall|i: int| 0 <= i < walk.len() - 1 implies adjacent(
            #[trigger] walk[i],
            walk[i + 1],
        ) by {
            if i < shorter.len() - 1 {
                assert(walk[i] == shorter[i]);
                assert(walk[i + 1] == shorter[i + 1]);
            } else {
                assert(walk[i] == shorter.last());
            }
        }
        walk
    }
}

/// Whether the search from `start` looks at `(px, py)` before `(qx, qy)`:
/// the nearer pixel first; of two equally near the upper one; of two in one
/// row the left one.
pub open spec fn precedes(start: (u32, u32), px: int, py: int, qx: int, qy: int) -> bool {
    let dp = steps(start.0 as int, start.1 as int, px, py);
    let dq = steps(start.0 as int, start.1 as int, qx, qy);
    dp < dq || (dp == dq && (py < qy || (py == qy && px < qx)))
}

/// The predicate, asked about the pixel at `(x, y)`, may answer yes.
pub open spec fn accepted_at<P: Fn(Rgb) -> bool>(
    image: Picture,
    predicate: P,
    x: int,
    y: int,
) -> bool {
    predicate.ensures((image.pixel(x, y),), true)
}

/// The predicate, asked about the pixel at `(x, y)`, may answer no.
pub open spec fn rejected_at<P: Fn(Rgb) -> bool>(
    image: Picture,
    predicate: P,
    x: int,
    y: int,
) -> bool {
    predicate.ensures((image.pixel(x, y),), false)
}

/// `(x, y)` is the first pixel of the picture, in the order of the search
/// from `start`, that the predicate accepted; all before it were rejected.
pub open spec fn first_accepted<P: Fn(Rgb) -> bool>(
    image: Picture,
    start: (u32, u32),
    predicate: P,
    x: int,
    y: int,
) -> bool {
    &&& image.contains(x, y)
    &&& accepted_at(image, predicate, x, y)
    &&& forall|qx: int, qy: int|
        image.contains(qx, qy) && precedes(start, qx, qy, x, y) ==> #[trigger] rejected_at(
            image,
            predicate,
            qx,
            qy,
        )
}

/// The predicate rejected every pixel of the picture.
pub open spec fn all_rejected<P: Fn(Rgb) -> bool>(image: Picture, predicate: P) -> bool {
    forall|qx: int, qy: int|
        image.contains(qx, qy) ==> #[trigger] rejected_at(image, predicate, qx, qy)
}

/// What a search from `start` may return: the first accepted pixel, or
/// nothing where every pixel was rejected.
pub open spec fn search_result<P: Fn(Rgb) -> bool>(
    image: Picture,
    start: (u32, u32),
    predicate: P,
    found: Option<(u32, u32)>,
) -> bool {
    match found {
        Some(p) => first_accepted(image, start, predicate, p.0 as int, p.1 as int),
        None => all_rejected(image, predicate),
    }
}

/// The predicate gives one answer for each pixel.
pub open spec fn single_valued<P: Fn(Rgb) -> bool>(predicate: P) -> bool {
    forall|pixel: Rgb| !(predicate.ensures((pixel,), true) && predicate.ensures((pixel,), false))
}

/// Of two different pixels the search looks at one before the other.
pub proof fn lemma_precedes_total(start: (u32, u32), px: int, py: int, qx: int, qy: int)
    requires
        (px, py) != (qx, qy),
    ensures
        precedes(start, px, py, qx, qy) || precedes(start, qx, qy, px, py),
{
}

/// The start is looked at before every other pixel.
pub proof fn lemma_start_precedes(start: (u32, u32), qx: int, qy: int)
    requires
        (start.0 as int, start.1 as int) != (qx, qy),
    ensures
        precedes(start, start.0 as int, start.1 as int, qx, qy),
{
}

/// With a predicate that gives one answer for each pixel, a search has one
/// possible result: two results of searches from the same start in the same
/// picture are the same.
pub proof fn lemma_search_result_unique<P: Fn(Rgb) -> bool>(
    image: Picture,
    start: (u32, u32),
    predicate: P,
    a: Option<(u32, u32)>,
    b: Option<(u32, u32)>,
)
    requires
        single_valued(predicate),
        search_result(image, start, predicate, a),
        search_result(image, start, predicate, b),
    ensures
        a == b,
{
    match (a, b) {
        (Some(p), Some(q)) => {
            if p != q {
                lemma_precedes_total(start, p.0 as int, p.1 as int, q.0 as int, q.1 as int);
                if precedes(start, p.0 as int, p.1 as int, q.0 as int, q.1 as int) {
                    assert(rejected_at(image, predicate, p.0 as int, p.1 as int));
                } else {
                    assert(rejected_at(image, predicate, q.0 as int, q.1 as int));
                }
            }
        },
        (Some(p), None) => {
            assert(rejected_at(image, predicate, p.0 as int, p.1 as int));
        },
        (None, Some(q)) => {
            assert(rejected_at(image, predicate, q.0 as int, q.1 as int));
        },
        (None, None) => {},
    }
}

/// The pixel found is the nearest: the predicate rejected every pixel that
/// takes fewer steps to reach.
pub proof fn lemma_found_is_nearest<P: Fn(Rgb) -> bool>(
    image: Picture,
    start: (u32, u32),
    predicate: P,
    found: (u32, u32),
    qx: int,
    qy: int,
)
    requires
        search_result(image, start, predicate, Some(found)),
        image.contains(qx, qy),
        steps(start.0 as int, start.1 as int, qx, qy) < steps(
            start.0 as int,
            start.1 as int,
            found.0 as int,
            found.1 as int,
        ),
    ensures
        rejected_at(image, predicate, qx, qy),
{
    assert(precedes(start, qx, qy, found.0 as int, found.1 as int));
}

/// Where the predicate can only accept the pixel at the start, the search
/// stops there, after no step at all.
pub proof fn lemma_search_stops_at_accepted_start<P: Fn(Rgb) -> bool>(
    image: Picture,
    start: (u32, u32),
    predicate: P,
    found: Option<(u32, u32)>,
)
    requires
        image.contains(start.0 as int, start.1 as int),
        !rejected_at(image, predicate, start.0 as int, start.1 as int),
        search_result(image, start, predicate, found),
    ensures
        found == Some(start),
        steps(start.0 as int, start.1 as int, found->Some_0.0 as int, found->Some_0.1 as int) == 0,
{
    match found {
        Some(p) => {
            if p != start {
                lemma_start_precedes(start, p.0 as int, p.1 as int);
            }
        },
        None => {},
    }
}

/// Finds the pixel nearest to `start` that `predicate` accepts, counting
/// steps between neighbours in a row or a column. Of several equally near
/// it returns the uppermost, and of those in one row the leftmost. Returns
/// nothing if the predicate accepts no pixel of the picture.
pub fn find_point<P: Fn(Rgb) -> bool>(start: (u32, u32), image: &Bitmap, predicate: P) -> (found:
    Option<(u32, u32)>)
    requires
        image.wf(),
        image@.contains(start.0 as int, start.1 as int),
        forall|pixel: Rgb| predicate.requires((pixel,)),
    ensures
        search_result(image@, start, predicate, found),
        !rejected_at(image@, predicate, start.0 as int, start.1 as int) ==> found == Some(start),
{
    let (width, height) = image.dimensions();
    let sx: u64 = start.0 as u64;
    let sy: u64 = start.1 as u64;
    let reach: u64 = (width - 1) as u64 + (height - 1) as u64;
    let ghost picture = image@;
    let mut ring: u64 = 0;
    while ring <= reach
        invariant
            image.wf(),
            picture == image@,
            picture.width == width,
            picture.height == height,
            picture.contains(sx as int, sy as int),
            sx == start.0,
            sy == start.1,
            reach == (width - 1) + (height - 1),
            ring <= reach + 1,
            forall|pixel: Rgb| predicate.requires((pixel,)),
            forall|qx: int, qy: int|
                picture.contains(qx, qy) && steps(sx as int, sy as int, qx, qy) < ring
                    ==> #[trigger] rejected_at(picture, predicate, qx, qy),
        decreases reach + 1 - ring,
    {
        let top: u64 = if sy >= ring {
            sy - ring
        } else {
            0
        };
        let bottom: u64 = if sy + ring < height as u64 {
            sy + ring
        } else {
            (height - 1) as u64
        };
        let mut y: u64 = top;
        while y <= bottom
            invariant
                image.wf(),
                picture == image@,
                picture.width == width,
                picture.height == height,
                picture.contains(sx as int, sy as int),
                sx == start.0,
                sy == start.1,
                ring <= reach,
                reach == (width - 1) + (height - 1),
                top <= y <= bottom + 1,
                bottom < height,
                top == if sy >= ring {
                    sy - ring
                } else {
                    0
                },
                bottom == if sy + ring < height {
                    sy + ring
                } else {
                    height - 1
                },
                forall|pixel: Rgb| predicate.requires((pixel,)),
                forall|qx: int, qy: int|
                    picture.contains(qx, qy) && steps(sx as int, sy as int, qx, qy) < ring
                        ==> #[trigger] rejected_at(picture, predicate, qx, qy),
                forall|qx: int, qy: int|
                    picture.contains(qx, qy) && steps(sx as int, sy as int, qx, qy) == ring && qy
                        < y ==> #[trigger] rejected_at(picture, predicate, qx, qy),
            decreases bottom + 1 - y,
        {
            let across: u64 = if y >= sy {
                ring - (y - sy)
            } else {
                ring - (sy - y)
            };
            if sx >= across {
                let x: u64 = sx - across;
                if predicate(image.get_pixel(x as u32, y as u32)) {
                    assert(accepted_at(picture, predicate, x as int, y as int));
                    assert(start.0 == x && start.1 == y ==> ring == 0);
                    return Some((x as u32, y as u32));
                }
                assert(rejected_at(picture, predicate, x as int, y as int));
            }
            if across > 0 && sx + across < width as u64 {
                let x: u64 = sx + across;
                if predicate(image.get_pixel(x as u32, y as u32)) {
                    assert(accepted_at(picture, predicate, x as int, y as int));
                    return Some((x as u32, y as u32));
                }
                assert(rejected_at(picture, predicate, x as int, y as int));
            }
            assert forall|qx: int, qy: int|
                picture.contains(qx, qy) && steps(sx as int, sy as int, qx, qy) == ring && qy < y
                    + 1 implies #[trigger] rejected_at(picture, predicate, qx, qy) by {
                if qy == y {
                    assert(qx == sx - across || qx == sx + across);
                }
            }
            y += 1;
        }
        ring += 1;
    }
    assert forall|qx: int, qy: int| picture.contains(qx, qy) implies #[trigger] rejected_at(
        picture,
        predicate,
        qx,
        qy,
    ) by {
        assert(steps(sx as int, sy as int, qx, qy) <= reach);
    }
    None
}

} // verus!
