//! An RGB picture held in memory, row by row, with its mathematical model.

use vstd::prelude::*;

verus! {

/// One pixel: three 8-bit channels.
#[derive(Debug, Copy, Clone, PartialEq, Eq, Structural)]
pub struct Rgb {
    pub red: u8,
    pub green: u8,
    pub blue: u8,
}

impl Rgb {
    /// The gray pixel of the given intensity.
    pub open spec fn spec_gray(intensity: u8) -> Rgb {
        Rgb { red: intensity, green: intensity, blue: intensity }
    }

    /// The gray pixel of the given intensity: all three channels carry it.
    #[verifier::when_used_as_spec(spec_gray)]
    pub fn gray(intensity: u8) -> (pixel: Rgb)
        ensures
            pixel == Rgb::spec_gray(intensity),
    {
        Rgb { red: intensity, green: intensity, blue: intensity }
    }
}

/// The model of a picture: its size and its pixels, row by row from the top,
/// each row from the left.
pub struct Picture {
    pub width: nat,
    pub height: nat,
    pub pixels: Seq<Rgb>,
}

impl Picture {
    /// There is one pixel for each position.
    pub open spec fn wf(self) -> bool {
        self.pixels.len() == self.width * self.height
    }

    /// Whether `(x, y)` is a position of the picture.
    pub open spec fn contains(self, x: int, y: int) -> bool {
        0 <= x < self.width && 0 <= y < self.height
    }

    /// The pixel at `(x, y)`.
    pub open spec fn pixel(self, x: int, y: int) -> Rgb
        recommends
            self.wf(),
            self.contains(x, y),
    {
        self.pixels[y * self.width + x]
    }
}

/// The bytes of a row of pixels: red, green and blue of each in turn.
pub open spec fn bytes_of(pixels: Seq<Rgb>) -> Seq<u8> {
    Seq::new(
        3 * pixels.len(),
        |i: int|
            if i % 3 == 0 {
                pixels[i / 3].red
            } else if i % 3 == 1 {
                pixels[i / 3].green
            } else {
                pixels[i / 3].blue
            },
    )
}

/// The pixels that a run of bytes holds, three bytes to a pixel.
pub open spec fn pixels_of(bytes: Seq<u8>) -> Seq<Rgb> {
    Seq::new(
        bytes.len() / 3,
        |i: int| Rgb { red: bytes[3 * i], green: bytes[3 * i + 1], blue: bytes[3 * i + 2] },
    )
}

/// A position of a `width` by `height` grid has its place within the
/// `width * height` cells stored row by row.
pub proof fn lemma_cell_in_range(width: int, height: int, x: int, y: int)
    requires
        0 <= x < width,
        0 <= y < height,
    ensures
        0 <= y * width + x < width * height,
        0 <= y * width <= y * width + x,
{
    assert(y * width + x < width * height) by (nonlinear_arith)
        requires
            0 <= x < width,
            0 <= y < height,
    ;
    assert(0 <= y * width) by (nonlinear_arith)
        requires
            0 <= width,
            0 <= y,
    ;
}

/// The place of `(x, y)` in the row-by-row order gives back `x` and `y`.
pub proof fn lemma_cell_position(width: int, x: int, y: int)
    requires
        0 <= x < width,
        0 <= y,
    ensures
        (y * width + x) % width == x,
        (y * width + x) / width == y,
{
    vstd::arithmetic::div_mod::lemma_fundamental_div_mod_converse(y * width + x, width, y, x);
}

/// Every place in the row-by-row order is that of one position.
pub proof fn lemma_position_of_cell(width: int, height: int, i: int)
    requires
        0 <= i < width * height,
        0 <= height,
        0 < width,
    ensures
        0 <= i % width < width,
        0 <= i / width < height,
        (i / width) * width + i % width == i,
{
    vstd::arithmetic::div_mod::lemma_fundamental_div_mod(i, width);
    vstd::arithmetic::div_mod::lemma_mod_bound(i, width);
    let q = i / width;
    assert(q >= 0 && q < height) by (nonlinear_arith)
        requires
            0 <= i < width * height,
            0 < width,
            0 <= i % width < width,
            i == width * q + i % width,
    ;
    assert(width * q == q * width) by (nonlinear_arith);
}

/// Replacing the stored pixel of `(x, y)` changes the pixel at `(x, y)` and
/// no other.
pub proof fn lemma_pixel_after_update(picture: Picture, x: int, y: int, pixel: Rgb, qx: int, qy: int)
    requires
        picture.wf(),
        picture.contains(x, y),
        picture.contains(qx, qy),
    ensures
        (Picture { pixels: picture.pixels.update(y * picture.width + x, pixel), ..picture }).pixel(
            qx,
            qy,
        ) == if (qx, qy) == (x, y) {
            pixel
        } else {
            picture.pixel(qx, qy)
        },
{
    let width = picture.width as int;
    lemma_cell_in_range(width, picture.height as int, x, y);
    lemma_cell_in_range(width, picture.height as int, qx, qy);
    lemma_cell_position(width, x, y);
    lemma_cell_position(width, qx, qy);
}

/// Pixels written out as bytes and read back are the same pixels.
pub proof fn lemma_pixels_of_bytes_of(pixels: Seq<Rgb>)
    ensures
        pixels_of(bytes_of(pixels)) == pixels,
        bytes_of(pixels).len() == 3 * pixels.len(),
{
    let bytes = bytes_of(pixels);
    assert(pixels_of(bytes).len() == pixels.len());
    assert forall|i: int| 0 <= i < pixels.len() implies pixels_of(bytes)[i] == pixels[i] by {
        assert((3 * i) % 3 == 0 && (3 * i) / 3 == i);
        assert((3 * i + 1) % 3 == 1 && (3 * i + 1) / 3 == i);
        assert((3 * i + 2) % 3 == 2 && (3 * i + 2) / 3 == i);
    }
    assert(pixels_of(bytes) =~= pixels);
}

/// An RGB picture with 8 bits per channel.
#[derive(Debug)]
pub struct Bitmap {
    width: u32,
    height: u32,
    pixels: Vec<Rgb>,
}

impl View for Bitmap {
    type V = Picture;

    closed spec fn view(&self) -> Picture {
        Picture { width: self.width as nat, height: self.height as nat, pixels: self.pixels@ }
    }
}

impl Clone for Bitmap {
    /// A copy of the picture.
    fn clone(&self) -> (out: Bitmap)
        ensures
            out@ == self@,
    {
        let count: usize = self.pixels.len();
        let mut pixels: Vec<Rgb> = Vec::new();
        let mut i: usize = 0;
        while i < count
            invariant
                i <= count,
                count == self.pixels@.len(),
                pixels@ == self.pixels@.subrange(0, i as int),
            decreases count - i,
        {
            pixels.push(self.pixels[i]);
            i += 1;
            assert(pixels@ =~= self.pixels@.subrange(0, i as int));
        }
        assert(pixels@ =~= self.pixels@);
        Bitmap { width: self.width, height: self.height, pixels }
    }
}

impl Bitmap {
    /// The invariant of the type: one stored pixel for each position.
    pub open spec fn wf(&self) -> bool {
        &&& self@.wf()
        &&& self@.width <= u32::MAX
        &&& self@.height <= u32::MAX
    }

    /// A black picture of the given size.
    pub fn new(width: u32, height: u32) -> (out: Bitmap)
        requires
            width * height <= usize::MAX,
        ensures
            out.wf(),
            out@.width == width,
            out@.height == height,
            forall|i: int| 0 <= i < out@.pixels.len() ==> out@.pixels[i] == Rgb::spec_gray(0),
    {
        Bitmap::filled(width, height, Rgb::gray(0))
    }

    /// A picture of the given size with every pixel equal to `pixel`.
    pub fn filled(width: u32, height: u32, pixel: Rgb) -> (out: Bitmap)
        requires
            width * height <= usize::MAX,
        ensures
            out.wf(),
            out@.width == width,
            out@.height == height,
            forall|i: int| 0 <= i < out@.pixels.len() ==> out@.pixels[i] == pixel,
    {
        assert(0 <= width * height) by (nonlinear_arith)
            requires
                0 <= width,
                0 <= height,
        ;
        let count: usize = (width as usize) * (height as usize);
        let mut pixels: Vec<Rgb> = Vec::new();
        let mut i: usize = 0;
        while i < count
            invariant
                i <= count,
                pixels@.len() == i,
                forall|j: int| 0 <= j < i ==> pixels@[j] == pixel,
            decreases count - i,
        {
            pixels.push(pixel);
            i += 1;
        }
        Bitmap { width, height, pixels }
    }

    /// The picture of the given size whose pixels are the bytes of `bytes`,
    /// three to a pixel, row by row.
    pub fn from_bytes(width: u32, height: u32, bytes: &Vec<u8>) -> (out: Bitmap)
        requires
            bytes@.len() == 3 * (width * height),
        ensures
            out.wf(),
            out@.width == width,
            out@.height == height,
            out@.pixels == pixels_of(bytes@),
    {
        let count: usize = bytes.len() / 3;
        let mut pixels: Vec<Rgb> = Vec::new();
        let mut i: usize = 0;
        while i < count
            invariant
                i <= count,
                bytes@.len() == 3 * count,
                3 * count <= usize::MAX,
                pixels@.len() == i,
                pixels@ == pixels_of(bytes@).subrange(0, i as int),
            decreases count - i,
        {
            pixels.push(Rgb { red: bytes[3 * i], green: bytes[3 * i + 1], blue: bytes[3 * i + 2] });
            i += 1;
            assert(pixels@ =~= pixels_of(bytes@).subrange(0, i as int));
        }
        assert(pixels@ =~= pixels_of(bytes@));
        Bitmap { width, height, pixels }
    }

    /// As `from_bytes`, for bytes of any length: none if `bytes` has not
    /// three bytes for each position.
    pub fn from_raw(width: u32, height: u32, bytes: &Vec<u8>) -> (r: Option<Bitmap>)
        ensures
            r is Some <==> bytes@.len() == 3 * (width * height),
            r is Some ==> r->0.wf() && r->0@.width == width && r->0@.height == height
                && r->0@.pixels == pixels_of(bytes@),
    {
        assert(0 <= width * height <= 0xFFFF_FFFF * 0xFFFF_FFFF) by (nonlinear_arith)
            requires
                0 <= width <= 0xFFFF_FFFF,
                0 <= height <= 0xFFFF_FFFF,
        ;
        let cells: u64 = (width as u64) * (height as u64);
        let length: u64 = bytes.len() as u64;
        if length % 3 != 0 || length / 3 != cells {
            None
        } else {
            Some(Bitmap::from_bytes(width, height, bytes))
        }
    }

    /// The bytes of the picture: three to a pixel, row by row.
    pub fn to_raw(&self) -> (bytes: Vec<u8>)
        requires
            self.wf(),
            3 * self@.pixels.len() <= usize::MAX,
        ensures
            bytes@ == bytes_of(self@.pixels),
    {
        let count: usize = self.pixels.len();
        let mut bytes: Vec<u8> = Vec::new();
        let mut i: usize = 0;
        while i < count
            invariant
                i <= count,
                count == self.pixels@.len(),
                bytes@.len() == 3 * i,
                bytes@ == bytes_of(self.pixels@).subrange(0, 3 * i),
            decreases count - i,
        {
            let pixel: Rgb = self.pixels[i];
            let ghost before = bytes@;
            bytes.push(pixel.red);
            bytes.push(pixel.green);
            bytes.push(pixel.blue);
            i += 1;
            proof {
                let all = bytes_of(self.pixels@);
                assert((3 * (i - 1)) % 3 == 0 && (3 * (i - 1)) / 3 == i - 1);
                assert((3 * (i - 1) + 1) % 3 == 1 && (3 * (i - 1) + 1) / 3 == i - 1);
                assert((3 * (i - 1) + 2) % 3 == 2 && (3 * (i - 1) + 2) / 3 == i - 1);
                assert(bytes@ =~= all.subrange(0, 3 * i));
            }
        }
        assert(bytes@ =~= bytes_of(self.pixels@));
        bytes
    }

    /// The number of pixels.
    pub fn pixel_count(&self) -> (count: usize)
        ensures
            count == self@.pixels.len(),
    {
        self.pixels.len()
    }

    /// The pixels of a picture can be counted in a `usize`.
    pub proof fn lemma_pixels_fit(&self)
        requires
            self.wf(),
        ensures
            self@.width * self@.height <= usize::MAX,
    {
        assert(self.pixels@.len() == self.pixels.len());
    }

    /// The width in pixels.
    pub fn width(&self) -> (width: u32)
        ensures
            width == self@.width,
    {
        self.width
    }

    /// The height in pixels.
    pub fn height(&self) -> (height: u32)
        ensures
            height == self@.height,
    {
        self.height
    }

    /// Width and height, in this order.
    pub fn dimensions(&self) -> (size: (u32, u32))
        ensures
            size.0 == self@.width,
            size.1 == self@.height,
    {
        (self.width, self.height)
    }

    /// The pixel at column `x` of row `y`.
    pub fn get_pixel(&self, x: u32, y: u32) -> (pixel: Rgb)
        requires
            self.wf(),
            self@.contains(x as int, y as int),
        ensures
            pixel == self@.pixel(x as int, y as int),
    {
        proof {
            lemma_cell_in_range(self.width as int, self.height as int, x as int, y as int);
            assert(self.pixels@.len() == self.pixels.len());
        }
        self.pixels[(y as usize) * (self.width as usize) + (x as usize)]
    }

    /// Replaces the pixel at column `x` of row `y`; every other pixel stays.
    pub fn put_pixel(&mut self, x: u32, y: u32, pixel: Rgb)
        requires
            old(self).wf(),
            old(self)@.contains(x as int, y as int),
        ensures
            final(self).wf(),
            final(self)@.width == old(self)@.width,
            final(self)@.height == old(self)@.height,
            final(self)@.pixels == old(self)@.pixels.update(y * old(self)@.width + x, pixel),
    {
        proof {
            lemma_cell_in_range(self.width as int, self.height as int, x as int, y as int);
            assert(self.pixels@.len() == self.pixels.len());
        }
        let at: usize = (y as usize) * (self.width as usize) + (x as usize);
        self.pixels.set(at, pixel);
    }
}

} // verus!
