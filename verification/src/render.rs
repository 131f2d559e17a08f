//! The renderer: every pixel of a picture is sampled and painted on its own,
//! and a supersampled picture is brought down to the size asked for.

use crate::bitmap::{
    bytes_of, lemma_pixel_after_update, lemma_pixels_of_bytes_of, lemma_position_of_cell,
    pixels_of, Bitmap, Picture, Rgb,
};
use vstd::prelude::*;

verus! {

/// The longest side, in pixels, that the downsampling filter is used on: two
/// to the power of twenty.
///
/// The filter works in single precision, where whole numbers are exact up to
/// two to the power of twenty-four. It places the centre of each sample by
/// one division and one multiplication, so with sides up to this bound the
/// centre is off by less than an eighth of a pixel. The pixel under the
/// centre then always gets a weight above zero, and the filter can divide by
/// the sum of the weights. On much longer sides a sample can be left without
/// any weight, and the filter fails.
pub const MAX_SIDE: u32 = 1048576;

/// What the triangle filter makes of a picture of `width` by `height` pixels,
/// given as bytes, when it resizes it to `new_width` by `new_height`: the
/// bytes of the resized picture.
pub uninterp spec fn triangle_resized(
    bytes: Seq<u8>,
    width: u32,
    height: u32,
    new_width: u32,
    new_height: u32,
) -> Seq<u8>;

/// Calls `image::imageops::resize` with `FilterType::Triangle` on the picture
/// that `bytes` holds. The contract names the bytes that come back and states
/// their number: the resized buffer is allocated for `new_width * new_height`
/// pixels of three bytes. The preconditions keep to the inputs on which the
/// call returns: the buffer matches the size, both intermediate buffers can
/// be allocated, no side is longer than `MAX_SIDE`, so that every sample has
/// a weight to divide by, and a side is empty in the source only if it is
/// empty in the result.
#[verifier::external_body]
fn resize_triangle(bytes: Vec<u8>, width: u32, height: u32, new_width: u32, new_height: u32) -> (out:
    Vec<u8>)
    requires
        bytes@.len() == 3 * (width * height),
        width <= MAX_SIDE,
        height <= MAX_SIDE,
        new_width <= MAX_SIDE,
        new_height <= MAX_SIDE,
        (width == 0) == (new_width == 0),
        (height == 0) == (new_height == 0),
        3 * (width * new_height) <= usize::MAX,
        3 * (new_width * new_height) <= usize::MAX,
    ensures
        out@ == triangle_resized(bytes@, width, height, new_width, new_height),
        out@.len() == 3 * (new_width * new_height),
{
    let source = image::RgbImage::from_raw(width, height, bytes).unwrap();
    image::imageops::resize(&source, new_width, new_height, image::FilterType::Triangle).into_raw()
}

/// The picture that downsampling `image` to `width` by `height` gives.
pub open spec fn downsampled(image: Picture, width: u32, height: u32) -> Picture {
    Picture {
        width: width as nat,
        height: height as nat,
        pixels: pixels_of(
            triangle_resized(
                bytes_of(image.pixels),
                image.width as u32,
                image.height as u32,
                width,
                height,
            ),
        ),
    }
}

/// Whether a picture of `from_width` by `from_height` pixels can be resized
/// to `width` by `height`.
pub open spec fn can_resize(from_width: nat, from_height: nat, width: u32, height: u32) -> bool {
    &&& from_width <= MAX_SIDE
    &&& from_height <= MAX_SIDE
    &&& width <= MAX_SIDE
    &&& height <= MAX_SIDE
    &&& (from_width == 0) == (width == 0)
    &&& (from_height == 0) == (height == 0)
    &&& 3 * (from_width * from_height) <= usize::MAX
    &&& 3 * (from_width * height) <= usize::MAX
    &&& 3 * (width * height) <= usize::MAX
}

/// Resizes a picture to `width` by `height` pixels with the triangle filter.
pub fn downsample(image: &Bitmap, width: u32, height: u32) -> (out: Bitmap)
    requires
        image.wf(),
        can_resize(image@.width, image@.height, width, height),
    ensures
        out.wf(),
        out@ == downsampled(image@, width, height),
{
    let (from_width, from_height) = image.dimensions();
    let bytes: Vec<u8> = image.to_raw();
    proof {
        lemma_pixels_of_bytes_of(image@.pixels);
    }
    let resized: Vec<u8> = resize_triangle(bytes, from_width, from_height, width, height);
    Bitmap::from_bytes(width, height, &resized)
}

/// `pixel` is what painting a sample taken at `(x, y)` may give.
pub open spec fn painted_sample<S: Fn(u32, u32) -> u8, P: Fn(u8) -> Rgb>(
    sampler: S,
    painter: P,
    x: u32,
    y: u32,
    pixel: Rgb,
) -> bool {
    exists|sample: u8| #[trigger] sampler.ensures((x, y), sample) && painter.ensures((sample,), pixel)
}

/// `image` is a picture of `width` by `height` pixels, each of them the
/// painted sample of its own position.
pub open spec fn rendering<S: Fn(u32, u32) -> u8, P: Fn(u8) -> Rgb>(
    image: Picture,
    width: u32,
    height: u32,
    sampler: S,
    painter: P,
) -> bool {
    &&& image.wf()
    &&& image.width == width
    &&& image.height == height
    &&& forall|x: u32, y: u32|
        x < width && y < height ==> painted_sample(
            sampler,
            painter,
            x,
            y,
            #[trigger] image.pixel(x as int, y as int),
        )
}

/// The sampler can be asked about every position of a `width` by `height`
/// picture, and the painter about every sample.
pub open spec fn can_render<S: Fn(u32, u32) -> u8, P: Fn(u8) -> Rgb>(
    width: nat,
    height: nat,
    sampler: S,
    painter: P,
) -> bool {
    &&& forall|x: u32, y: u32| x < width && y < height ==> #[trigger] sampler.requires((x, y))
    &&& forall|sample: u8| #[trigger] painter.requires((sample,))
}

/// Renders a picture of `width` by `height` pixels: the pixel at `(x, y)` is
/// `painter(sampler(x, y))`. The sampler is asked about positions of the
/// picture only, once each, row by row.
pub fn render<S: Fn(u32, u32) -> u8, P: Fn(u8) -> Rgb>(
    sampler: &S,
    width: u32,
    height: u32,
    painter: &P,
) -> (out: Bitmap)
    requires
        width * height <= usize::MAX,
        can_render(width as nat, height as nat, *sampler, *painter),
    ensures
        out.wf(),
        rendering(out@, width, height, *sampler, *painter),
{
    let mut out: Bitmap = Bitmap::new(width, height);
    let mut y: u32 = 0;
    while y < height
        invariant
            y <= height,
            out.wf(),
            out@.width == width,
            out@.height == height,
            can_render(width as nat, height as nat, *sampler, *painter),
            forall|qx: u32, qy: u32|
                qx < width && qy < y ==> painted_sample(
                    *sampler,
                    *painter,
                    qx,
                    qy,
                    #[trigger] out@.pixel(qx as int, qy as int),
                ),
        decreases height - y,
    {
        let mut x: u32 = 0;
        while x < width
            invariant
                y < height,
                x <= width,
                out.wf(),
                out@.width == width,
                out@.height == height,
                can_render(width as nat, height as nat, *sampler, *painter),
                forall|qx: u32, qy: u32|
                    qx < width && (qy < y || (qy == y && qx < x)) ==> painted_sample(
                        *sampler,
                        *painter,
                        qx,
                        qy,
                        #[trigger] out@.pixel(qx as int, qy as int),
                    ),
            decreases width - x,
        {
            let sample: u8 = sampler(x, y);
            let pixel: Rgb = painter(sample);
            let ghost before = out@;
            out.put_pixel(x, y, pixel);
            proof {
                assert(painted_sample(*sampler, *painter, x, y, pixel));
                assert forall|qx: u32, qy: u32|
                    qx < width && (qy < y || (qy == y && qx < x + 1)) implies painted_sample(
                    *sampler,
                    *painter,
                    qx,
                    qy,
                    #[trigger] out@.pixel(qx as int, qy as int),
                ) by {
                    lemma_pixel_after_update(before, x as int, y as int, pixel, qx as int, qy as int);
                    if !(qx == x && qy == y) {
                        assert(painted_sample(
                            *sampler,
                            *painter,
                            qx,
                            qy,
                            before.pixel(qx as int, qy as int),
                        ));
                    }
                }
            }
            x += 1;
        }
        y += 1;
    }
    out
}

/// The side of the supersampled picture for a side of `side` pixels.
pub open spec fn supersampled(side: u32, antialiazing: Option<u32>) -> nat {
    match antialiazing {
        Some(factor) => (side * factor) as nat,
        None => side as nat,
    }
}

/// What `produce_image` may return. Without antialiasing it is a rendering at
/// the size asked for. With a factor it is the downsampled form of a
/// rendering whose sides are that many times longer.
pub open spec fn produced<S: Fn(u32, u32) -> u8, P: Fn(u8) -> Rgb>(
    image: Picture,
    sampler: S,
    dimensions: (u32, u32),
    antialiazing: Option<u32>,
    painter: P,
) -> bool {
    match antialiazing {
        None => rendering(image, dimensions.0, dimensions.1, sampler, painter),
        Some(factor) => exists|large: Picture|
            #![trigger downsampled(large, dimensions.0, dimensions.1)]
            {
                &&& rendering(
                    large,
                    (dimensions.0 * factor) as u32,
                    (dimensions.1 * factor) as u32,
                    sampler,
                    painter,
                )
                &&& image == downsampled(large, dimensions.0, dimensions.1)
            },
    }
}

/// Whether a picture of the given dimensions can be produced with the given
/// antialiasing: the rendering can be held in memory and, where it is
/// downsampled, no side of it is longer than `MAX_SIDE`.
pub open spec fn fits(dimensions: (u32, u32), antialiazing: Option<u32>) -> bool {
    match antialiazing {
        None => dimensions.0 * dimensions.1 <= usize::MAX,
        Some(factor) => {
            &&& dimensions.0 * factor <= MAX_SIDE
            &&& dimensions.1 * factor <= MAX_SIDE
            &&& 3 * ((dimensions.0 * factor) * (dimensions.1 * factor)) <= usize::MAX
        },
    }
}

/// Tests whether a picture of the given dimensions can be produced with the
/// given antialiasing.
pub fn can_produce(dimensions: (u32, u32), antialiazing: Option<u32>) -> (ok: bool)
    ensures
        ok == fits(dimensions, antialiazing),
{
    let (width, height) = dimensions;
    let limit: u128 = usize::MAX as u128;
    match antialiazing {
        None => {
            assert(0 <= width * height <= 0xFFFF_FFFF * 0xFFFF_FFFF) by (nonlinear_arith)
                requires
                    0 <= width <= 0xFFFF_FFFF,
                    0 <= height <= 0xFFFF_FFFF,
            ;
            (width as u128) * (height as u128) <= limit
        },
        Some(factor) => {
            assert(0 <= width * factor <= 0xFFFF_FFFF * 0xFFFF_FFFF && 0 <= height * factor
                <= 0xFFFF_FFFF * 0xFFFF_FFFF) by (nonlinear_arith)
                requires
                    0 <= width <= 0xFFFF_FFFF,
                    0 <= height <= 0xFFFF_FFFF,
                    0 <= factor <= 0xFFFF_FFFF,
            ;
            let large_width: u64 = (width as u64) * (factor as u64);
            let large_height: u64 = (height as u64) * (factor as u64);
            if large_width > MAX_SIDE as u64 || large_height > MAX_SIDE as u64 {
                false
            } else {
                assert(0 <= large_width * large_height <= 1048576 * 1048576) by (nonlinear_arith)
                    requires
                        0 <= large_width <= 1048576,
                        0 <= large_height <= 1048576,
                ;
                3 * ((large_width as u128) * (large_height as u128)) <= limit
            }
        },
    }
}

/// Produces a picture of the given dimensions. Each pixel is sampled at its
/// position and painted, independently of the others. With an antialiasing
/// factor the picture is first rendered with sides that many times longer,
/// the sampler being asked about the positions of that larger picture, and
/// then brought down to the dimensions asked for.
pub fn produce_image<S: Fn(u32, u32) -> u8, P: Fn(u8) -> Rgb>(
    sampler: S,
    dimensions: (u32, u32),
    antialiazing: Option<u32>,
    painter: P,
) -> (out: Bitmap)
    requires
        antialiazing != Some(0u32),
        fits(dimensions, antialiazing),
        can_render(
            supersampled(dimensions.0, antialiazing),
            supersampled(dimensions.1, antialiazing),
            sampler,
            painter,
        ),
    ensures
        out.wf(),
        out@.width == dimensions.0,
        out@.height == dimensions.1,
        produced(out@, sampler, dimensions, antialiazing, painter),
{
    let (width, height) = dimensions;
    match antialiazing {
        None => render(&sampler, width, height, &painter),
        Some(factor) => {
            assert(width * factor >= width && height * factor >= height) by (nonlinear_arith)
                requires
                    factor >= 1,
                    width >= 0,
                    height >= 0,
            ;
            assert((width == 0) == (width * factor == 0) && (height == 0) == (height * factor
                == 0)) by (nonlinear_arith)
                requires
                    factor >= 1,
            ;
            let large_width: u32 = width * factor;
            let large_height: u32 = height * factor;
            assert(large_width * height <= large_width * large_height && width * height
                <= large_width * large_height && 0 <= width * height) by (nonlinear_arith)
                requires
                    0 <= width <= large_width,
                    0 <= height <= large_height,
            ;
            let large: Bitmap = render(&sampler, large_width, large_height, &painter);
            let out: Bitmap = downsample(&large, width, height);
            assert(out@ == downsampled(large@, width, height));
            out
        },
    }
}

/// Two pictures of one size with the same pixel at every position are the
/// same picture.
pub proof fn lemma_same_pixels_same_picture(a: Picture, b: Picture)
    requires
        a.wf(),
        b.wf(),
        a.width == b.width,
        a.height == b.height,
        forall|x: int, y: int| a.contains(x, y) ==> a.pixel(x, y) == b.pixel(x, y),
    ensures
        a == b,
{
    assert forall|i: int| 0 <= i < a.pixels.len() implies a.pixels[i] == b.pixels[i] by {
        if a.width > 0 {
            lemma_position_of_cell(a.width as int, a.height as int, i);
            let x = i % (a.width as int);
            let y = i / (a.width as int);
            assert(a.contains(x, y));
            assert(a.pixel(x, y) == a.pixels[i]);
            assert(b.pixel(x, y) == b.pixels[i]);
        } else {
            assert(a.width * a.height == 0) by (nonlinear_arith)
                requires
                    a.width == 0,
            ;
        }
    }
    assert(a.pixels =~= b.pixels);
}

/// The sampler gives one sample for each position and the painter one pixel
/// for each sample.
pub open spec fn single_valued<S: Fn(u32, u32) -> u8, P: Fn(u8) -> Rgb>(
    sampler: S,
    painter: P,
) -> bool {
    &&& forall|x: u32, y: u32, a: u8, b: u8|
        sampler.ensures((x, y), a) && sampler.ensures((x, y), b) ==> a == b
    &&& forall|sample: u8, a: Rgb, b: Rgb|
        painter.ensures((sample,), a) && painter.ensures((sample,), b) ==> a == b
}

/// Rendering is deterministic: with a sampler and a painter that give one
/// answer each, two pictures produced from the same sampler, dimensions,
/// antialiasing and painter are the same, pixel for pixel.
pub proof fn lemma_produce_image_deterministic<S: Fn(u32, u32) -> u8, P: Fn(u8) -> Rgb>(
    a: Picture,
    b: Picture,
    sampler: S,
    dimensions: (u32, u32),
    antialiazing: Option<u32>,
    painter: P,
)
    requires
        single_valued(sampler, painter),
        produced(a, sampler, dimensions, antialiazing, painter),
        produced(b, sampler, dimensions, antialiazing, painter),
    ensures
        a == b,
{
    match antialiazing {
        None => {
            lemma_rendering_unique(a, b, dimensions.0, dimensions.1, sampler, painter);
        },
        Some(factor) => {
            let width = (dimensions.0 * factor) as u32;
            let height = (dimensions.1 * factor) as u32;
            let large_a = choose|large: Picture|
                #![trigger downsampled(large, dimensions.0, dimensions.1)]
                rendering(large, width, height, sampler, painter) && a == downsampled(
                    large,
                    dimensions.0,
                    dimensions.1,
                );
            let large_b = choose|large: Picture|
                #![trigger downsampled(large, dimensions.0, dimensions.1)]
                rendering(large, width, height, sampler, painter) && b == downsampled(
                    large,
                    dimensions.0,
                    dimensions.1,
                );
            lemma_rendering_unique(large_a, large_b, width, height, sampler, painter);
        },
    }
}

/// With a sampler and a painter that give one answer each, a size has one
/// rendering.
pub proof fn lemma_rendering_unique<S: Fn(u32, u32) -> u8, P: Fn(u8) -> Rgb>(
    a: Picture,
    b: Picture,
    width: u32,
    height: u32,
    sampler: S,
    painter: P,
)
    requires
        single_valued(sampler, painter),
        rendering(a, width, height, sampler, painter),
        rendering(b, width, height, sampler, painter),
    ensures
        a == b,
{
    assert forall|x: int, y: int| a.contains(x, y) implies a.pixel(x, y) == b.pixel(x, y) by {
        let ux = x as u32;
        let uy = y as u32;
        assert(painted_sample(sampler, painter, ux, uy, a.pixel(ux as int, uy as int)));
        assert(painted_sample(sampler, painter, ux, uy, b.pixel(ux as int, uy as int)));
    }
    lemma_same_pixels_same_picture(a, b);
}

} // verus!
