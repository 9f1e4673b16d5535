//! The pixel buffer: a fixed-size grid of RGB pixels kept by the `image`
//! crate, with contracts that say what each of its operations does.

use vstd::prelude::*;
use vstd::arithmetic::div_mod::{
    lemma_fundamental_div_mod, lemma_fundamental_div_mod_converse, lemma_mod_bound,
};
use crate::color::Color;

verus! {

/// The coordinates of a `width × height` grid.
pub open spec fn on_grid(width: nat, height: nat, x: int, y: int) -> bool {
    0 <= x < width && 0 <= y < height
}

/// Whether `(px, py)` comes before `(x, y)` when a grid is walked row after
/// row from the top, each row from the left.
pub open spec fn comes_before(px: int, py: int, x: int, y: int) -> bool {
    py < y || (py == y && px < x)
}

/// Whether the bytes of a `width × height` image, three per pixel, fit in
/// one allocation on this machine.
pub open spec fn has_room(width: u32, height: u32) -> bool {
    3 * width * height <= isize::MAX
}

/// What a pixel buffer holds: its size and the color at each coordinate
/// `(x, y)`, where `x` counts columns from the left and `y` rows from the
/// top.
pub struct Picture {
    pub width: nat,
    pub height: nat,
    pub pixels: Map<(int, int), Color>,
}

impl Picture {
    /// There is a pixel at exactly the coordinates of the grid.
    pub open spec fn well_formed(self) -> bool {
        forall|x: int, y: int|
            #[trigger] self.pixels.dom().contains((x, y)) <==> on_grid(
                self.width,
                self.height,
                x,
                y,
            )
    }

    /// The color at `(x, y)`.
    pub open spec fn pixel(self, x: int, y: int) -> Color {
        self.pixels[(x, y)]
    }

    /// The channels of all pixels in one sequence: row after row from the
    /// top, each row from the left, three bytes (red, green, blue) per pixel.
    pub open spec fn raw(self) -> Seq<u8> {
        Seq::new(
            3 * self.width * self.height,
            |i: int|
                self.pixel((i / 3) % (self.width as int), (i / 3) / (self.width as int)).channel(
                    i % 3,
                ),
        )
    }
}

/// A `width × height` grid of RGB pixels, stored as an `image::RgbImage`.
///
/// Verus does not look inside the image. Its size and its pixels go by the
/// names `buffer_size` and `buffer_pixels`, which make up the view of the
/// buffer. The functions of this file that call into the `image` crate say
/// over these names what the crate does; that is assumed, not proved.
#[verifier::external_body]
pub struct PixelBuffer {
    image: image::RgbImage,
}

/// The width and the height of the image in pixels: what
/// `image::ImageBuffer::dimensions` returns.
pub uninterp spec fn buffer_size(buffer: PixelBuffer) -> (nat, nat);

/// The pixels of the image: the color at each coordinate `(x, y)` with `x`
/// below the width and `y` below the height.
pub uninterp spec fn buffer_pixels(buffer: PixelBuffer) -> Map<(int, int), Color>;

impl View for PixelBuffer {
    type V = Picture;

    open spec fn view(&self) -> Picture {
        Picture {
            width: buffer_size(*self).0,
            height: buffer_size(*self).1,
            pixels: buffer_pixels(*self),
        }
    }
}

/// `image::ImageBuffer::new`: an image of the given size whose channels are
/// all zero. The call multiplies three by the width and the product by the
/// height, and panics where either product does not fit in `usize` or the
/// bytes do not fit in a vector. With a width and a height of at least one,
/// `has_room` bounds both products; other sizes are excluded.
#[verifier::external_body]
fn blank(width: u32, height: u32) -> (buffer: PixelBuffer)
    requires
        0 < width,
        0 < height,
        has_room(width, height),
    ensures
        buffer_size(buffer) == (width as nat, height as nat),
        buffer_pixels(buffer) == Map::new(
            |at: (int, int)| on_grid(width as nat, height as nat, at.0, at.1),
            |at: (int, int)| Color { red: 0, green: 0, blue: 0 },
        ),
{
    PixelBuffer { image: image::RgbImage::new(width, height) }
}

/// `image::ImageBuffer::put_pixel`: replaces the pixel at `(x, y)` and
/// leaves the size and every other pixel as they were. The call panics
/// outside the grid, so such coordinates are excluded.
#[verifier::external_body]
fn put(buffer: &mut PixelBuffer, x: u32, y: u32, color: Color)
    requires
        x < buffer_size(*old(buffer)).0,
        y < buffer_size(*old(buffer)).1,
    ensures
        buffer_size(*final(buffer)) == buffer_size(*old(buffer)),
        buffer_pixels(*final(buffer)) == buffer_pixels(*old(buffer)).insert(
            (x as int, y as int),
            color,
        ),
{
    buffer.image.put_pixel(x, y, image::Rgb([color.red, color.green, color.blue]));
}

/// `image::ImageBuffer::get_pixel`: the pixel at `(x, y)`. The call panics
/// outside the grid, so such coordinates are excluded.
#[verifier::external_body]
fn get(buffer: &PixelBuffer, x: u32, y: u32) -> (color: Color)
    requires
        x < buffer_size(*buffer).0,
        y < buffer_size(*buffer).1,
    ensures
        color == buffer_pixels(*buffer)[(x as int, y as int)],
{
    let pixel = buffer.image.get_pixel(x, y);
    Color { red: pixel.0[0], green: pixel.0[1], blue: pixel.0[2] }
}

/// `image::ImageBuffer::dimensions`: the width and the height.
#[verifier::external_body]
fn dimensions(buffer: &PixelBuffer) -> (size: (u32, u32))
    ensures
        (size.0 as nat, size.1 as nat) == buffer_size(*buffer),
{
    buffer.image.dimensions()
}

/// `image::ImageBuffer::into_raw`: the channels of the image as one vector,
/// row after row from the top, each row from the left, three bytes (red,
/// green, blue) per pixel.
#[verifier::external_body]
fn raw_of(buffer: PixelBuffer) -> (bytes: Vec<u8>)
    ensures
        bytes@.len() == 3 * buffer_size(buffer).0 * buffer_size(buffer).1,
        forall|x: int, y: int|
            on_grid(buffer_size(buffer).0, buffer_size(buffer).1, x, y) ==> {
                let first = 3 * (y * buffer_size(buffer).0 + x);
                Color { red: bytes@[first], green: bytes@[first + 1], blue: bytes@[first + 2] }
                    == #[trigger] buffer_pixels(buffer)[(x, y)]
            },
{
    buffer.image.into_raw()
}

impl PixelBuffer {
    /// A buffer of the given size with every pixel black.
    pub(crate) fn black(width: u32, height: u32) -> (buffer: PixelBuffer)
        requires
            0 < width,
            0 < height,
            has_room(width, height),
        ensures
            buffer@.width == width,
            buffer@.height == height,
            buffer@.well_formed(),
            forall|x: int, y: int|
                on_grid(width as nat, height as nat, x, y) ==> #[trigger] buffer@.pixel(x, y)
                    == (Color { red: 0, green: 0, blue: 0 }),
    {
        blank(width, height)
    }

    /// Gives the pixel at `(x, y)` the color `color` and leaves the others
    /// as they were.
    pub(crate) fn paint(&mut self, x: u32, y: u32, color: Color)
        requires
            old(self)@.well_formed(),
            on_grid(old(self)@.width, old(self)@.height, x as int, y as int),
        ensures
            final(self)@.width == old(self)@.width,
            final(self)@.height == old(self)@.height,
            final(self)@.well_formed(),
            final(self)@.pixel(x as int, y as int) == color,
            forall|px: int, py: int|
                px != x || py != y ==> #[trigger] final(self)@.pixel(px, py) == old(self)@.pixel(
                    px,
                    py,
                ),
    {
        put(self, x, y, color);
        proof {
            assert forall|px: int, py: int| #[trigger]
                self@.pixels.dom().contains((px, py)) <==> on_grid(
                    self@.width,
                    self@.height,
                    px,
                    py,
                ) by {
                assert(old(self)@.pixels.dom().contains((px, py)) <==> on_grid(
                    self@.width,
                    self@.height,
                    px,
                    py,
                ));
            }
        }
    }

    /// Whether the bytes of a `width × height` image, three per pixel, fit
    /// in one allocation on this machine.
    pub fn fits(width: u32, height: u32) -> (fits: bool)
        ensures
            fits == has_room(width, height),
    {
        assert(3 * (width as u128) * (height as u128) <= u128::MAX) by (nonlinear_arith)
            requires
                width <= u32::MAX,
                height <= u32::MAX,
        ;
        3 * (width as u128) * (height as u128) <= isize::MAX as u128
    }

    /// The width in pixels.
    pub fn width(&self) -> (width: u32)
        ensures
            width == self@.width,
    {
        dimensions(self).0
    }

    /// The height in pixels.
    pub fn height(&self) -> (height: u32)
        ensures
            height == self@.height,
    {
        dimensions(self).1
    }

    /// The color at `(x, y)`, or `None` outside the grid.
    pub fn pixel(&self, x: u32, y: u32) -> (color: Option<Color>)
        ensures
            color == if on_grid(self@.width, self@.height, x as int, y as int) {
                Some(self@.pixel(x as int, y as int))
            } else {
                None
            },
    {
        let (width, height) = dimensions(self);
        if x < width && y < height {
            Some(get(self, x, y))
        } else {
            None
        }
    }

    /// The channels of all pixels as one vector: row after row from the top,
    /// each row from the left, three bytes (red, green, blue) per pixel.
    pub fn into_raw(self) -> (bytes: Vec<u8>)
        ensures
            bytes@ == self@.raw(),
    {
        let bytes = raw_of(self);
        proof {
            let w = self@.width as int;
            let h = self@.height as int;
            assert(bytes@.len() == self@.raw().len());
            assert forall|i: int| 0 <= i < bytes@.len() implies bytes@[i] == self@.raw()[i] by {
                let (x, y) = pixel_of_byte(w, h, i);
                assert(buffer_pixels(self)[(x, y)] == Color {
                    red: bytes@[3 * (y * w + x)],
                    green: bytes@[3 * (y * w + x) + 1],
                    blue: bytes@[3 * (y * w + x) + 2],
                });
            }
            assert(bytes@ =~= self@.raw());
        }
        bytes
    }
}

/// Byte `i` of a raw `width × height` image belongs to the pixel in column
/// `(i / 3) % width` of row `(i / 3) / width`, and is its channel `i % 3`.
proof fn pixel_of_byte(width: int, height: int, i: int) -> (at: (int, int))
    requires
        0 <= width,
        0 <= height,
        0 <= i < 3 * width * height,
    ensures
        at == ((i / 3) % width, (i / 3) / width),
        0 <= at.0 < width,
        0 <= at.1 < height,
        3 * (at.1 * width + at.0) + i % 3 == i,
{
    let p = i / 3;
    assert(0 < width && 0 <= p < width * height) by (nonlinear_arith)
        requires
            0 <= width,
            0 <= height,
            0 <= i < 3 * width * height,
            p == i / 3,
    ;
    lemma_fundamental_div_mod(p, width);
    lemma_mod_bound(p, width);
    assert(0 <= p / width < height) by (nonlinear_arith)
        requires
            0 < width,
            0 <= p < width * height,
    ;
    assert((p / width) * width == width * (p / width)) by (nonlinear_arith);
    (p % width, p / width)
}

/// The three bytes of the pixel at `(x, y)` stand side by side in the raw
/// image, after the bytes of the rows above and of the pixels to the left.
pub proof fn raw_layout(picture: Picture, x: int, y: int)
    requires
        on_grid(picture.width, picture.height, x, y),
    ensures
        3 * (y * picture.width + x) + 2 < picture.raw().len(),
        picture.raw()[3 * (y * picture.width + x)] == picture.pixel(x, y).red,
        picture.raw()[3 * (y * picture.width + x) + 1] == picture.pixel(x, y).green,
        picture.raw()[3 * (y * picture.width + x) + 2] == picture.pixel(x, y).blue,
{
    let w = picture.width as int;
    let h = picture.height as int;
    let p = y * w + x;
    assert(0 <= p && p + 1 <= w * h && 3 * w * h == 3 * (w * h)) by (nonlinear_arith)
        requires
            0 <= x < w,
            0 <= y < h,
            p == y * w + x,
    ;
    assert(p / w == y && p % w == x) by {
        lemma_fundamental_div_mod_converse(p, w, y, x);
    }
    assert((3 * p) / 3 == p && (3 * p + 1) / 3 == p && (3 * p + 2) / 3 == p);
}

/// Well-formed pictures of the same size that agree at every coordinate of
/// the grid are the same picture.
pub proof fn pictures_agree(first: Picture, second: Picture)
    requires
        first.well_formed(),
        second.well_formed(),
        first.width == second.width,
        first.height == second.height,
        forall|x: int, y: int|
            on_grid(first.width, first.height, x, y) ==> #[trigger] first.pixel(x, y)
                == second.pixel(x, y),
    ensures
        first == second,
{
    assert forall|at: (int, int)|
        first.pixels.dom().contains(at) implies #[trigger] first.pixels[at]
        == second.pixels[at] by {
        assert(first.pixels.dom().contains((at.0, at.1)));
        assert(first.pixel(at.0, at.1) == second.pixel(at.0, at.1));
    }
    assert forall|at: (int, int)|
        first.pixels.dom().contains(at) <==> second.pixels.dom().contains(at) by {
        assert(first.pixels.dom().contains((at.0, at.1)) <==> second.pixels.dom().contains(
            (at.0, at.1),
        ));
    }
    assert(first.pixels =~= second.pixels);
}

} // verus!
