//! The fractal renderer: a color gradient in red and blue with an
//! escape-time count in green.
//!
//! The orbit of a pixel is computed in floating point, which stays outside
//! this crate. What is decided here is how long an orbit is followed, and
//! how the counts and the gradient make up the image.

use vstd::prelude::*;
use vstd::arithmetic::div_mod::lemma_fundamental_div_mod_converse;
use crate::buffer::{comes_before, has_room, on_grid, pictures_agree, Picture, PixelBuffer};
use crate::color::Color;
use crate::error::ConfigError;

verus! {

/// The number of iterations after which an orbit is no longer followed.
pub const MAX_ITERATIONS: u8 = 255;

/// The side in pixels of the canvas that is rendered by default.
pub const DEFAULT_SIZE: u32 = 800;

/// The background level at a coordinate: three tenths of it, rounded down,
/// of which the low eight bits are kept.
pub open spec fn gradient(coordinate: int) -> u8 {
    ((3 * coordinate / 10) % 256) as u8
}

/// The background level at a coordinate.
pub fn gradient_at(coordinate: u32) -> (level: u8)
    ensures
        level == gradient(coordinate as int),
{
    let tenths: u64 = 3 * (coordinate as u64) / 10;
    (tenths % 256) as u8
}

/// Whether the iteration of an orbit goes on after `count` iterations, and
/// with which count: it goes on while the count is below the maximum and
/// the orbit is still inside the escape radius.
pub open spec fn next_count(count: u8, inside: bool) -> Option<u8> {
    if count < MAX_ITERATIONS && inside {
        Some((count + 1) as u8)
    } else {
        None
    }
}

/// Decides one step of the escape-time iteration. `inside` tells whether
/// the current point of the orbit lies within the escape radius. The result
/// is the new count if the orbit is to be iterated once more, and `None` if
/// `count` is final.
pub fn escape_step(count: u8, inside: bool) -> (next: Option<u8>)
    ensures
        next == next_count(count, inside),
{
    if count < MAX_ITERATIONS && inside {
        Some(count + 1)
    } else {
        None
    }
}

/// The final count of an orbit that is followed from `count` on, where
/// `inside(k)` tells whether the orbit lies within the escape radius after
/// `k` iterations.
pub open spec fn count_from(inside: spec_fn(nat) -> bool, count: u8) -> u8
    decreases MAX_ITERATIONS - count,
{
    match next_count(count, inside(count as nat)) {
        Some(next) => count_from(inside, next),
        None => count,
    }
}

/// The escape count of an orbit: the final count when it is followed from
/// its start.
pub open spec fn escape_count(inside: spec_fn(nat) -> bool) -> u8 {
    count_from(inside, 0)
}

/// Following an orbit that has stayed inside so far ends at the first
/// iteration at which it is outside, or at the maximum.
proof fn lemma_count_from(inside: spec_fn(nat) -> bool, count: u8)
    requires
        forall|k: nat| k < count ==> #[trigger] inside(k),
    ensures
        count <= count_from(inside, count),
        forall|k: nat| k < count_from(inside, count) ==> #[trigger] inside(k),
        count_from(inside, count) < MAX_ITERATIONS ==> !inside(count_from(inside, count) as nat),
    decreases MAX_ITERATIONS - count,
{
    if count < MAX_ITERATIONS && inside(count as nat) {
        lemma_count_from(inside, (count + 1) as u8);
    }
}

/// The escape count is the number of iterations before the orbit is first
/// outside the escape radius, and it is the maximum exactly when the orbit
/// stays inside for that many iterations.
pub proof fn escape_count_is_first_escape(inside: spec_fn(nat) -> bool)
    ensures
        forall|k: nat| k < escape_count(inside) ==> #[trigger] inside(k),
        escape_count(inside) < MAX_ITERATIONS ==> !inside(escape_count(inside) as nat),
        escape_count(inside) == MAX_ITERATIONS <==> forall|k: nat|
            k < MAX_ITERATIONS ==> #[trigger] inside(k),
{
    lemma_count_from(inside, 0);
}

/// An orbit that stays inside the escape radius for its first `steps`
/// points, `steps` no more than the maximum, has an escape count of at
/// least `steps`.
pub proof fn escape_count_at_least(inside: spec_fn(nat) -> bool, steps: nat)
    requires
        steps <= MAX_ITERATIONS,
        forall|k: nat| k < steps ==> #[trigger] inside(k),
    ensures
        escape_count(inside) >= steps,
{
    escape_count_is_first_escape(inside);
    if escape_count(inside) < steps {
        assert(inside(escape_count(inside) as nat));
    }
}

/// The color of the pixel at `(x, y)` whose orbit has the escape count
/// `escapes`: the gradient of `x` in red, the count in green, the gradient
/// of `y` in blue.
pub open spec fn fractal_color(x: int, y: int, escapes: u8) -> Color {
    Color { red: gradient(x), green: escapes, blue: gradient(y) }
}

/// The place of the pixel at `(x, y)` among the pixels of an image
/// `width` wide, counted row after row from the top, each row from the
/// left.
pub open spec fn cell_of(x: int, y: int, width: int) -> int {
    y * width + x
}

/// Why a request for a fractal image is rejected, if it is. A zero width is
/// reported first, then a zero height, then a number of escape counts that
/// differs from the number of pixels.
pub open spec fn fractal_error(width: u32, height: u32, counts: nat) -> Option<ConfigError> {
    if width == 0 {
        Some(ConfigError::ZeroWidth)
    } else if height == 0 {
        Some(ConfigError::ZeroHeight)
    } else if counts != width * height {
        Some(ConfigError::EscapeCountMismatch)
    } else {
        None
    }
}

/// `picture` is the `width × height` fractal image for the escape counts
/// given row after row: the pixel at `(x, y)` has the count at its place
/// `cell_of(x, y, width)`.
pub open spec fn is_fractal(
    picture: Picture,
    width: u32,
    height: u32,
    escape_counts: Seq<u8>,
) -> bool {
    &&& picture.width == width
    &&& picture.height == height
    &&& picture.well_formed()
    &&& forall|x: int, y: int|
        on_grid(width as nat, height as nat, x, y) ==> #[trigger] picture.pixel(x, y)
            == fractal_color(x, y, escape_counts[cell_of(x, y, width as int)])
}

/// The image is a function of its size and of the escape counts: two
/// renderings of the same request are the same picture, and so have the
/// same raw bytes.
pub proof fn fractal_is_determined(
    first: Picture,
    second: Picture,
    width: u32,
    height: u32,
    escape_counts: Seq<u8>,
)
    requires
        is_fractal(first, width, height, escape_counts),
        is_fractal(second, width, height, escape_counts),
    ensures
        first == second,
        first.raw() == second.raw(),
{
    assert forall|x: int, y: int|
        on_grid(first.width, first.height, x, y) implies #[trigger] first.pixel(x, y)
        == second.pixel(x, y) by {
        let count = escape_counts[cell_of(x, y, width as int)];
        assert(second.pixel(x, y) == fractal_color(x, y, count));
    }
    pictures_agree(first, second);
}

/// Every pixel of the grid has a place below the number of pixels, and
/// different pixels have different places.
pub proof fn cell_in_range(width: int, height: int, x: int, y: int)
    requires
        0 <= x < width,
        0 <= y < height,
    ensures
        0 <= cell_of(x, y, width) < width * height,
        cell_of(x, y, width) / width == y,
        cell_of(x, y, width) % width == x,
{
    assert(0 <= y * width && (y + 1) * width <= height * width && (y + 1) * width == y * width
        + width && height * width == width * height) by (nonlinear_arith)
        requires
            0 <= x < width,
            0 <= y < height,
    ;
    lemma_fundamental_div_mod_converse(y * width + x, width, y, x);
}

/// Where the counts handed to the renderer are the escape counts of the
/// pixels' orbits, the green channel of every pixel is the escape count of
/// its orbit: the number of iterations before the orbit is first outside
/// the escape radius, and the maximum exactly when the orbit stays inside
/// for that many iterations. `inside(x, y, k)` tells whether the orbit of
/// the pixel at `(x, y)` lies within the escape radius after `k`
/// iterations.
pub proof fn green_is_escape_count(
    picture: Picture,
    width: u32,
    height: u32,
    escape_counts: Seq<u8>,
    inside: spec_fn(int, int, nat) -> bool,
    x: int,
    y: int,
)
    requires
        is_fractal(picture, width, height, escape_counts),
        on_grid(width as nat, height as nat, x, y),
        escape_counts[cell_of(x, y, width as int)] == escape_count(|k: nat| inside(x, y, k)),
    ensures
        picture.pixel(x, y).green == escape_count(|k: nat| inside(x, y, k)),
        forall|k: nat| k < picture.pixel(x, y).green ==> #[trigger] inside(x, y, k),
        picture.pixel(x, y).green < MAX_ITERATIONS ==> !inside(
            x,
            y,
            picture.pixel(x, y).green as nat,
        ),
        picture.pixel(x, y).green == MAX_ITERATIONS <==> forall|k: nat|
            k < MAX_ITERATIONS ==> #[trigger] inside(x, y, k),
{
    let orbit = |k: nat| inside(x, y, k);
    escape_count_is_first_escape(orbit);
    assert forall|k: nat| k < picture.pixel(x, y).green implies #[trigger] inside(x, y, k) by {
        assert(orbit(k));
    }
    if picture.pixel(x, y).green == MAX_ITERATIONS {
        assert forall|k: nat| k < MAX_ITERATIONS implies #[trigger] inside(x, y, k) by {
            assert(orbit(k));
        }
    }
    if forall|k: nat| k < MAX_ITERATIONS ==> #[trigger] inside(x, y, k) {
        assert forall|k: nat| k < MAX_ITERATIONS implies #[trigger] orbit(k) by {
            assert(inside(x, y, k));
        }
    }
}

/// Why a request for a fractal image with `counts` escape counts is
/// rejected, if it is.
pub fn fractal_rejection(
    width: u32,
    height: u32,
    counts: usize,
) -> (rejection: Option<ConfigError>)
    ensures
        rejection == fractal_error(width, height, counts as nat),
{
    if width == 0 {
        Some(ConfigError::ZeroWidth)
    } else if height == 0 {
        Some(ConfigError::ZeroHeight)
    } else {
        assert((width as u128) * (height as u128) <= u128::MAX) by (nonlinear_arith)
            requires
                width <= u32::MAX,
                height <= u32::MAX,
        ;
        if (counts as u128) != (width as u128) * (height as u128) {
            Some(ConfigError::EscapeCountMismatch)
        } else {
            None
        }
    }
}

/// The place of the pixel at `(x, y)` among the escape counts of a
/// `width × height` image.
pub fn cell_index(x: u32, y: u32, width: u32, height: u32) -> (cell: usize)
    requires
        x < width,
        y < height,
        width * height <= usize::MAX,
    ensures
        cell == cell_of(x as int, y as int, width as int),
        cell < width * height,
{
    proof {
        cell_in_range(width as int, height as int, x as int, y as int);
        assert(y * width <= cell_of(x as int, y as int, width as int)) by (nonlinear_arith)
            requires
                0 <= x,
                cell_of(x as int, y as int, width as int) == y * width + x,
        ;
    }
    (y as usize) * (width as usize) + (x as usize)
}

/// Assembles the `width × height` fractal image from the escape counts of
/// its pixels, given row after row from the top, each row from the left.
///
/// Rejects a zero width or height and a number of counts that is not the
/// number of pixels; nothing is painted then, whatever the size. A request
/// that is not rejected must fit in memory.
pub fn fractal(width: u32, height: u32, escape_counts: &Vec<u8>) -> (r: Result<
    PixelBuffer,
    ConfigError,
>)
    requires
        fractal_error(width, height, escape_counts@.len()) is None ==> has_room(width, height),
    ensures
        match fractal_error(width, height, escape_counts@.len()) {
            Some(e) => r == Err::<PixelBuffer, ConfigError>(e),
            None => r is Ok && is_fractal(r->Ok_0@, width, height, escape_counts@),
        },
{
    if let Some(rejection) = fractal_rejection(width, height, escape_counts.len()) {
        return Err(rejection);
    }
    assert(width * height <= 3 * width * height) by (nonlinear_arith);
    let mut buffer = PixelBuffer::black(width, height);
    let mut y: u32 = 0;
    while y < height
        invariant
            y <= height,
            escape_counts@.len() == width * height,
            width * height <= usize::MAX,
            buffer@.width == width,
            buffer@.height == height,
            buffer@.well_formed(),
            forall|px: int, py: int|
                on_grid(width as nat, height as nat, px, py) && comes_before(px, py, 0, y as int)
                    ==> #[trigger] buffer@.pixel(px, py) == fractal_color(
                    px,
                    py,
                    escape_counts@[cell_of(px, py, width as int)],
                ),
        decreases height - y,
    {
        let blue: u8 = gradient_at(y);
        let mut x: u32 = 0;
        while x < width
            invariant
                x <= width,
                y < height,
                blue == gradient(y as int),
                escape_counts@.len() == width * height,
                width * height <= usize::MAX,
                buffer@.width == width,
                buffer@.height == height,
                buffer@.well_formed(),
                forall|px: int, py: int|
                    on_grid(width as nat, height as nat, px, py) && comes_before(
                        px,
                        py,
                        x as int,
                        y as int,
                    ) ==> #[trigger] buffer@.pixel(px, py) == fractal_color(
                        px,
                        py,
                        escape_counts@[cell_of(px, py, width as int)],
                    ),
            decreases width - x,
        {
            let cell: usize = cell_index(x, y, width, height);
            let color = Color { red: gradient_at(x), green: escape_counts[cell], blue };
            buffer.paint(x, y, color);
            x += 1;
        }
        y += 1;
    }
    Ok(buffer)
}

} // verus!
