//! The edge detector: a fixed 3 by 3 kernel that weighs a pixel by 8 and each
//! of its eight neighbours by -1, so that flat areas turn black and contours
//! stand out.

use crate::bitmap::{lemma_cell_in_range, lemma_pixel_after_update, lemma_position_of_cell, Bitmap, Picture, Rgb};
use vstd::prelude::*;

verus! {

/// The channel value nearest to `v`.
pub open spec fn clamped(v: int) -> u8 {
    if v < 0 {
        0
    } else if v > 255 {
        255
    } else {
        v as u8
    }
}

/// The kernel applied to one channel: eight times the centre less the eight
/// values around it, brought back into the range of a channel.
pub open spec fn contour(
    centre: u8,
    north_west: u8,
    north: u8,
    north_east: u8,
    west: u8,
    east: u8,
    south_west: u8,
    south: u8,
    south_east: u8,
) -> u8 {
    clamped(
        8 * centre - north_west - north - north_east - west - east - south_west - south
            - south_east,
    )
}

/// Whether `(x, y)` has all eight neighbours inside the picture.
pub open spec fn interior(image: Picture, x: int, y: int) -> bool {
    1 <= x < image.width - 1 && 1 <= y < image.height - 1
}

/// The pixel of the edge picture at `(x, y)`: the kernel applied to each
/// channel where all eight neighbours exist, black on the border.
pub open spec fn edge_pixel(image: Picture, x: int, y: int) -> Rgb {
    if interior(image, x, y) {
        let c = image.pixel(x, y);
        let nw = image.pixel(x - 1, y - 1);
        let n = image.pixel(x, y - 1);
        let ne = image.pixel(x + 1, y - 1);
        let w = image.pixel(x - 1, y);
        let e = image.pixel(x + 1, y);
        let sw = image.pixel(x - 1, y + 1);
        let s = image.pixel(x, y + 1);
        let se = image.pixel(x + 1, y + 1);
        Rgb {
            red: contour(c.red, nw.red, n.red, ne.red, w.red, e.red, sw.red, s.red, se.red),
            green: contour(
                c.green,
                nw.green,
                n.green,
                ne.green,
                w.green,
                e.green,
                sw.green,
                s.green,
                se.green,
            ),
            blue: contour(
                c.blue,
                nw.blue,
                n.blue,
                ne.blue,
                w.blue,
                e.blue,
                sw.blue,
                s.blue,
                se.blue,
            ),
        }
    } else {
        Rgb::spec_gray(0)
    }
}

/// The edge picture of `image`: same size, each pixel as `edge_pixel` says.
pub open spec fn edged(image: Picture) -> Picture {
    Picture {
        width: image.width,
        height: image.height,
        pixels: Seq::new(
            image.width * image.height,
            |i: int| edge_pixel(image, i % (image.width as int), i / (image.width as int)),
        ),
    }
}

/// The kernel on one channel.
fn contour_of(
    centre: u8,
    north_west: u8,
    north: u8,
    north_east: u8,
    west: u8,
    east: u8,
    south_west: u8,
    south: u8,
    south_east: u8,
) -> (value: u8)
    ensures
        value == contour(
            centre,
            north_west,
            north,
            north_east,
            west,
            east,
            south_west,
            south,
            south_east,
        ),
{
    let around: i32 = north_west as i32 + north as i32 + north_east as i32 + west as i32
        + east as i32 + south_west as i32 + south as i32 + south_east as i32;
    let weighed: i32 = 8 * (centre as i32) - around;
    if weighed < 0 {
        0
    } else if weighed > 255 {
        255
    } else {
        weighed as u8
    }
}

/// The edge pixel at an interior position.
fn edge_pixel_of(image: &Bitmap, x: u32, y: u32) -> (pixel: Rgb)
    requires
        image.wf(),
        interior(image@, x as int, y as int),
    ensures
        pixel == edge_pixel(image@, x as int, y as int),
{
    let c: Rgb = image.get_pixel(x, y);
    let nw: Rgb = image.get_pixel(x - 1, y - 1);
    let n: Rgb = image.get_pixel(x, y - 1);
    let ne: Rgb = image.get_pixel(x + 1, y - 1);
    let w: Rgb = image.get_pixel(x - 1, y);
    let e: Rgb = image.get_pixel(x + 1, y);
    let sw: Rgb = image.get_pixel(x - 1, y + 1);
    let s: Rgb = image.get_pixel(x, y + 1);
    let se: Rgb = image.get_pixel(x + 1, y + 1);
    Rgb {
        red: contour_of(c.red, nw.red, n.red, ne.red, w.red, e.red, sw.red, s.red, se.red),
        green: contour_of(
            c.green,
            nw.green,
            n.green,
            ne.green,
            w.green,
            e.green,
            sw.green,
            s.green,
            se.green,
        ),
        blue: contour_of(
            c.blue,
            nw.blue,
            n.blue,
            ne.blue,
            w.blue,
            e.blue,
            sw.blue,
            s.blue,
            se.blue,
        ),
    }
}

/// Whether the walk over the interior, row by row, has passed `(qx, qy)`
/// when it stands at `(x, y)`.
spec fn passed(qx: int, qy: int, x: int, y: int) -> bool {
    qy < y || (qy == y && qx < x)
}

/// Detects the contours of a picture. The result has the size of `image`;
/// each pixel that has all eight neighbours is the kernel's answer there,
/// channel by channel, and the pixels on the border are black.
pub fn edges(image: &Bitmap) -> (out: Bitmap)
    requires
        image.wf(),
    ensures
        out.wf(),
        out@ == edged(image@),
{
    let (width, height) = image.dimensions();
    let ghost picture = image@;
    proof {
        image.lemma_pixels_fit();
    }
    let mut out: Bitmap = Bitmap::new(width, height);
    if width >= 3 && height >= 3 {
        proof {
            assert forall|qx: int, qy: int| picture.contains(qx, qy) implies #[trigger] out@.pixel(
                qx,
                qy,
            ) == Rgb::spec_gray(0) by {
                lemma_cell_in_range(width as int, height as int, qx, qy);
            }
        }
        let mut y: u32 = 1;
        while y < height - 1
            invariant
                image.wf(),
                picture == image@,
                picture.width == width,
                picture.height == height,
                width >= 3,
                height >= 3,
                1 <= y <= height - 1,
                out.wf(),
                out@.width == width,
                out@.height == height,
                forall|qx: int, qy: int|
                    picture.contains(qx, qy) ==> #[trigger] out@.pixel(qx, qy) == if qy < y {
                        edge_pixel(picture, qx, qy)
                    } else {
                        Rgb::spec_gray(0)
                    },
            decreases height - 1 - y,
        {
            let mut x: u32 = 1;
            while x < width - 1
                invariant
                    image.wf(),
                    picture == image@,
                    picture.width == width,
                    picture.height == height,
                    width >= 3,
                    height >= 3,
                    1 <= y < height - 1,
                    1 <= x <= width - 1,
                    out.wf(),
                    out@.width == width,
                    out@.height == height,
                    forall|qx: int, qy: int|
                        picture.contains(qx, qy) ==> #[trigger] out@.pixel(qx, qy) == if passed(
                            qx,
                            qy,
                            x as int,
                            y as int,
                        ) {
                            edge_pixel(picture, qx, qy)
                        } else {
                            Rgb::spec_gray(0)
                        },
                decreases width - 1 - x,
            {
                let pixel: Rgb = edge_pixel_of(image, x, y);
                let ghost before = out@;
                out.put_pixel(x, y, pixel);
                proof {
                    assert forall|qx: int, qy: int| picture.contains(qx, qy) implies #[trigger] out@.pixel(
                        qx,
                        qy,
                    ) == if passed(qx, qy, x + 1, y as int) {
                        edge_pixel(picture, qx, qy)
                    } else {
                        Rgb::spec_gray(0)
                    } by {
                        lemma_pixel_after_update(before, x as int, y as int, pixel, qx, qy);
                        assert(before.pixel(qx, qy) == if passed(qx, qy, x as int, y as int) {
                            edge_pixel(picture, qx, qy)
                        } else {
                            Rgb::spec_gray(0)
                        });
                    }
                }
                x += 1;
            }
            y += 1;
        }
    }
    proof {
        let target = edged(picture);
        assert(out@.pixels.len() == target.pixels.len());
        assert forall|i: int| 0 <= i < out@.pixels.len() implies out@.pixels[i]
            == target.pixels[i] by {
            if width > 0 {
                lemma_position_of_cell(width as int, height as int, i);
                let qx = i % (width as int);
                let qy = i / (width as int);
                assert(picture.contains(qx, qy));
                assert(out@.pixel(qx, qy) == out@.pixels[i]);
            }
        }
        assert(out@.pixels =~= target.pixels);
    }
    out
}

} // verus!
