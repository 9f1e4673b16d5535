//! The stripe generator: a buffer painted with bands of solid color, side
//! by side (vertical stripes) or one above the other (horizontal stripes).

use vstd::prelude::*;
use vstd::arithmetic::div_mod::{lemma_div_is_ordered, lemma_fundamental_div_mod, lemma_mod_bound};
use crate::buffer::{comes_before, has_room, on_grid, pictures_agree, Picture, PixelBuffer};
use crate::color::Color;
use crate::error::ConfigError;

verus! {

/// Which axis is divided into bands.
#[derive(Clone, Copy, Debug, PartialEq, Eq, PartialOrd, Ord, Structural)]
pub enum StripeOrientation {
    /// Bands side by side: the band of a pixel depends on its `x`.
    Vertical,
    /// Bands one above the other: the band of a pixel depends on its `y`.
    Horizontal,
}

/// The width in pixels of every band but the last: the axis length divided
/// by the number of bands, rounded down.
pub open spec fn band_width(axis_length: int, bands: int) -> int {
    axis_length / bands
}

/// The band that holds `coordinate`. Bands are `band_width` pixels wide and
/// follow each other from coordinate zero; the pixels that are left over
/// after the last full band belong to the last band.
pub open spec fn band_index(coordinate: int, axis_length: int, bands: int) -> int {
    let full = coordinate / band_width(axis_length, bands);
    if full < bands - 1 {
        full
    } else {
        bands - 1
    }
}

/// The length of the axis that `orientation` divides.
pub open spec fn striped_axis(orientation: StripeOrientation, width: int, height: int) -> int {
    match orientation {
        StripeOrientation::Vertical => width,
        StripeOrientation::Horizontal => height,
    }
}

/// How far the pixel at `(x, y)` lies along the axis that `orientation`
/// divides.
pub open spec fn along_axis(orientation: StripeOrientation, x: int, y: int) -> int {
    match orientation {
        StripeOrientation::Vertical => x,
        StripeOrientation::Horizontal => y,
    }
}

/// The band of the pixel at `(x, y)` in a `width × height` image of `bands`
/// stripes.
pub open spec fn stripe_band(
    orientation: StripeOrientation,
    width: int,
    height: int,
    bands: int,
    x: int,
    y: int,
) -> int {
    band_index(along_axis(orientation, x, y), striped_axis(orientation, width, height), bands)
}

/// The color of the pixel at `(x, y)` in a `width × height` image striped
/// with `colors`: the color of its band.
pub open spec fn stripe_color(
    colors: Seq<Color>,
    orientation: StripeOrientation,
    width: int,
    height: int,
    x: int,
    y: int,
) -> Color {
    colors[stripe_band(orientation, width, height, colors.len() as int, x, y)]
}

/// Why a request for stripes is rejected, if it is. An empty color list is
/// reported first, then a zero width, then a zero height, then a color list
/// longer than the striped axis.
pub open spec fn stripe_error(
    width: u32,
    height: u32,
    bands: nat,
    orientation: StripeOrientation,
) -> Option<ConfigError> {
    if bands == 0 {
        Some(ConfigError::NoColors)
    } else if width == 0 {
        Some(ConfigError::ZeroWidth)
    } else if height == 0 {
        Some(ConfigError::ZeroHeight)
    } else if striped_axis(orientation, width as int, height as int) < bands {
        Some(ConfigError::TooManyColors)
    } else {
        None
    }
}

/// `picture` is the `width × height` image striped with `colors`.
pub open spec fn is_striped(
    picture: Picture,
    width: u32,
    height: u32,
    colors: Seq<Color>,
    orientation: StripeOrientation,
) -> bool {
    &&& picture.width == width
    &&& picture.height == height
    &&& picture.well_formed()
    &&& forall|x: int, y: int|
        on_grid(width as nat, height as nat, x, y) ==> #[trigger] picture.pixel(x, y)
            == stripe_color(colors, orientation, width as int, height as int, x, y)
}

/// With at least one band and an axis no shorter than the number of bands,
/// a band is at least one pixel wide.
pub proof fn band_width_positive(axis_length: int, bands: int)
    requires
        1 <= bands <= axis_length,
    ensures
        1 <= band_width(axis_length, bands) <= axis_length,
{
    assert(1 <= axis_length / bands <= axis_length) by (nonlinear_arith)
        requires
            1 <= bands <= axis_length,
    ;
}

/// Every coordinate falls into one of the bands.
pub proof fn band_index_in_range(coordinate: int, axis_length: int, bands: int)
    requires
        1 <= bands <= axis_length,
        0 <= coordinate,
    ensures
        0 <= band_index(coordinate, axis_length, bands) < bands,
{
    band_width_positive(axis_length, bands);
    let w = band_width(axis_length, bands);
    assert(0 <= coordinate / w) by (nonlinear_arith)
        requires
            0 <= coordinate,
            1 <= w,
    ;
}

/// Moving along the striped axis, the band never goes back to an earlier one:
/// each band is one unbroken stretch of the axis.
pub proof fn band_index_monotonic(first: int, second: int, axis_length: int, bands: int)
    requires
        1 <= bands <= axis_length,
        0 <= first <= second,
    ensures
        band_index(first, axis_length, bands) <= band_index(second, axis_length, bands),
{
    band_width_positive(axis_length, bands);
    lemma_div_is_ordered(first, second, band_width(axis_length, bands));
}

/// Band `band` begins at `band` times the band width, inside the axis, so
/// no band is empty. Every band but the last is one band width long; the
/// last one runs to the end of the axis.
pub proof fn band_extent(coordinate: int, band: int, axis_length: int, bands: int)
    requires
        1 <= bands <= axis_length,
        0 <= band < bands,
        0 <= coordinate,
    ensures
        0 <= band * band_width(axis_length, bands) < axis_length,
        band_index(coordinate, axis_length, bands) == band <==> {
            &&& band * band_width(axis_length, bands) <= coordinate
            &&& band == bands - 1 || coordinate < (band + 1) * band_width(axis_length, bands)
        },
{
    band_width_positive(axis_length, bands);
    let w = band_width(axis_length, bands);
    let full = coordinate / w;
    lemma_fundamental_div_mod(coordinate, w);
    lemma_mod_bound(coordinate, w);
    assert(0 <= band * w && band * w < axis_length) by (nonlinear_arith)
        requires
            1 <= bands <= axis_length,
            0 <= band < bands,
            w == axis_length / bands,
            1 <= w,
    ;
    assert(full < band <==> coordinate < band * w) by (nonlinear_arith)
        requires
            1 <= w,
            coordinate == w * full + coordinate % w,
            0 <= coordinate % w < w,
    ;
    assert(full <= band <==> coordinate < (band + 1) * w) by (nonlinear_arith)
        requires
            1 <= w,
            coordinate == w * full + coordinate % w,
            0 <= coordinate % w < w,
    ;
}

/// A striped image shows no color that is not in the list.
pub proof fn stripes_use_listed_colors(
    picture: Picture,
    width: u32,
    height: u32,
    colors: Seq<Color>,
    orientation: StripeOrientation,
)
    requires
        stripe_error(width, height, colors.len(), orientation) is None,
        is_striped(picture, width, height, colors, orientation),
    ensures
        forall|x: int, y: int|
            on_grid(width as nat, height as nat, x, y) ==> colors.contains(
                #[trigger] picture.pixel(x, y),
            ),
{
    let bands = colors.len() as int;
    assert forall|x: int, y: int|
        on_grid(width as nat, height as nat, x, y) implies colors.contains(
        #[trigger] picture.pixel(x, y),
    ) by {
        let band = stripe_band(orientation, width as int, height as int, bands, x, y);
        band_index_in_range(
            along_axis(orientation, x, y),
            striped_axis(orientation, width as int, height as int),
            bands,
        );
        assert(colors[band] == picture.pixel(x, y));
    }
}

/// Of two pixels, the one further along the striped axis is in the same
/// band or in a later one, never in an earlier one. So the bands follow
/// each other without a break, and pixels equally far along the axis share
/// their band.
pub proof fn stripes_are_contiguous(
    width: u32,
    height: u32,
    bands: nat,
    orientation: StripeOrientation,
    x1: int,
    y1: int,
    x2: int,
    y2: int,
)
    requires
        stripe_error(width, height, bands, orientation) is None,
        on_grid(width as nat, height as nat, x1, y1),
        on_grid(width as nat, height as nat, x2, y2),
        along_axis(orientation, x1, y1) <= along_axis(orientation, x2, y2),
    ensures
        stripe_band(orientation, width as int, height as int, bands as int, x1, y1) <= stripe_band(
            orientation,
            width as int,
            height as int,
            bands as int,
            x2,
            y2,
        ),
{
    band_index_monotonic(
        along_axis(orientation, x1, y1),
        along_axis(orientation, x2, y2),
        striped_axis(orientation, width as int, height as int),
        bands as int,
    );
}

/// A striped image of a single color has that color at every pixel.
pub proof fn single_color_is_uniform(
    picture: Picture,
    width: u32,
    height: u32,
    colors: Seq<Color>,
    orientation: StripeOrientation,
)
    requires
        colors.len() == 1,
        is_striped(picture, width, height, colors, orientation),
    ensures
        forall|x: int, y: int|
            on_grid(width as nat, height as nat, x, y) ==> #[trigger] picture.pixel(x, y)
                == colors[0],
{
}

/// The striped image is a function of its size, the colors and the
/// orientation: two paintings of the same request are the same picture.
pub proof fn stripes_are_determined(
    first: Picture,
    second: Picture,
    width: u32,
    height: u32,
    colors: Seq<Color>,
    orientation: StripeOrientation,
)
    requires
        is_striped(first, width, height, colors, orientation),
        is_striped(second, width, height, colors, orientation),
    ensures
        first == second,
{
    assert forall|x: int, y: int|
        on_grid(first.width, first.height, x, y) implies #[trigger] first.pixel(x, y)
        == second.pixel(x, y) by {
        assert(second.pixel(x, y) == stripe_color(
            colors,
            orientation,
            width as int,
            height as int,
            x,
            y,
        ));
    }
    pictures_agree(first, second);
}

/// Why a request for stripes of `bands` colors is rejected, if it is.
pub fn stripe_rejection(
    width: u32,
    height: u32,
    bands: usize,
    stripe_orientation: StripeOrientation,
) -> (rejection: Option<ConfigError>)
    ensures
        rejection == stripe_error(width, height, bands as nat, stripe_orientation),
{
    let axis_length: u32 = match stripe_orientation {
        StripeOrientation::Vertical => width,
        StripeOrientation::Horizontal => height,
    };
    if bands == 0 {
        Some(ConfigError::NoColors)
    } else if width == 0 {
        Some(ConfigError::ZeroWidth)
    } else if height == 0 {
        Some(ConfigError::ZeroHeight)
    } else if (axis_length as usize) < bands {
        Some(ConfigError::TooManyColors)
    } else {
        None
    }
}

/// The band that holds `coordinate` on an axis of `axis_length` pixels
/// divided into `bands` bands.
pub fn locate_band(coordinate: u32, axis_length: u32, bands: usize) -> (band: usize)
    requires
        1 <= bands <= axis_length,
    ensures
        band == band_index(coordinate as int, axis_length as int, bands as int),
        band < bands,
{
    proof {
        band_width_positive(axis_length as int, bands as int);
        band_index_in_range(coordinate as int, axis_length as int, bands as int);
    }
    let width: usize = (axis_length as usize) / bands;
    let full: usize = (coordinate as usize) / width;
    if full < bands - 1 {
        full
    } else {
        bands - 1
    }
}

/// Paints a `width × height` image with one band per color, in the order of
/// the list: side by side for vertical stripes, one above the other for
/// horizontal ones.
///
/// Rejects an empty color list, a zero width or height, and a list with
/// more colors than the striped axis has pixels; nothing is painted then,
/// whatever the size. A request that is not rejected must fit in memory.
pub fn generate(
    width: u32,
    height: u32,
    colors: &Vec<Color>,
    stripe_orientation: StripeOrientation,
) -> (r: Result<PixelBuffer, ConfigError>)
    requires
        stripe_error(width, height, colors@.len(), stripe_orientation) is None ==> has_room(
            width,
            height,
        ),
    ensures
        match stripe_error(width, height, colors@.len(), stripe_orientation) {
            Some(e) => r == Err::<PixelBuffer, ConfigError>(e),
            None => r is Ok && is_striped(r->Ok_0@, width, height, colors@, stripe_orientation),
        },
        r matches Ok(buffer) ==> forall|x: int, y: int|
            on_grid(width as nat, height as nat, x, y) ==> colors@.contains(
                #[trigger] buffer@.pixel(x, y),
            ),
        r matches Ok(buffer) ==> colors@.len() == 1 ==> forall|x: int, y: int|
            on_grid(width as nat, height as nat, x, y) ==> #[trigger] buffer@.pixel(x, y)
                == colors@[0],
{
    let bands: usize = colors.len();
    if let Some(rejection) = stripe_rejection(width, height, bands, stripe_orientation) {
        return Err(rejection);
    }
    let axis_length: u32 = match stripe_orientation {
        StripeOrientation::Vertical => width,
        StripeOrientation::Horizontal => height,
    };
    let mut buffer = PixelBuffer::black(width, height);
    let mut y: u32 = 0;
    while y < height
        invariant
            y <= height,
            1 <= bands <= axis_length,
            bands == colors@.len(),
            axis_length == striped_axis(stripe_orientation, width as int, height as int),
            buffer@.width == width,
            buffer@.height == height,
            buffer@.well_formed(),
            forall|px: int, py: int|
                on_grid(width as nat, height as nat, px, py) && comes_before(px, py, 0, y as int)
                    ==> #[trigger] buffer@.pixel(px, py) == stripe_color(
                    colors@,
                    stripe_orientation,
                    width as int,
                    height as int,
                    px,
                    py,
                ),
        decreases height - y,
    {
        let mut x: u32 = 0;
        while x < width
            invariant
                x <= width,
                y < height,
                1 <= bands <= axis_length,
                bands == colors@.len(),
                axis_length == striped_axis(stripe_orientation, width as int, height as int),
                buffer@.width == width,
                buffer@.height == height,
                buffer@.well_formed(),
                forall|px: int, py: int|
                    on_grid(width as nat, height as nat, px, py) && comes_before(
                        px,
                        py,
                        x as int,
                        y as int,
                    ) ==> #[trigger] buffer@.pixel(px, py) == stripe_color(
                        colors@,
                        stripe_orientation,
                        width as int,
                        height as int,
                        px,
                        py,
                    ),
            decreases width - x,
        {
            let along: u32 = match stripe_orientation {
                StripeOrientation::Vertical => x,
                StripeOrientation::Horizontal => y,
            };
            let band: usize = locate_band(along, axis_length, bands);
            buffer.paint(x, y, colors[band]);
            x += 1;
        }
        y += 1;
    }
    proof {
        stripes_use_listed_colors(buffer@, width, height, colors@, stripe_orientation);
        if colors@.len() == 1 {
            single_color_is_uniform(buffer@, width, height, colors@, stripe_orientation);
        }
    }
    Ok(buffer)
}

} // verus!
