//! Palettes: the colours of the points that escape.
//!
//! A palette for an iteration limit `limit` is a table of `limit + 1`
//! colours. The entry `k` is the colour at the position `k / limit` of the
//! colouring's range, so a point that escaped at check `k` takes entry `k`.

use vstd::prelude::*;
use crate::image::{lerp_colour, lerp_pixels, RGBPixel};

verus! {

/// How the points that escape are coloured.
#[derive(Clone, Copy, Debug, PartialEq, Eq)]
pub enum Colouring {
    /// A cyclic gradient through the hues, from the `colorgrad` crate.
    Sinebow,
    /// Each channel runs in a straight line from the first colour, at
    /// position 0, to the second, at position 1.
    TwoColour(RGBPixel, RGBPixel),
}

/// `palette` is a palette of `colouring` for the iteration limit `limit`. Of
/// the sinebow this fixes the size alone: its colours are what the gradient
/// computes, and nothing is claimed of them.
pub open spec fn is_palette(palette: Seq<RGBPixel>, colouring: Colouring, limit: usize) -> bool {
    &&& palette.len() == limit + 1
    &&& colouring matches Colouring::TwoColour(start, end) ==> forall|k: int|
        0 <= k <= limit ==> #[trigger] palette[k] == lerp_colour(start, end, k, limit as int)
}

/// A gradient of the `colorgrad` crate. What it holds is not looked into.
#[verifier::external_type_specification]
#[verifier::external_body]
pub struct ExGradient(colorgrad::Gradient);

/// A colour of the `colorgrad` crate, with channels that are not whole
/// numbers. What it holds is not looked into.
#[verifier::external_type_specification]
#[verifier::external_body]
pub struct ExColor(colorgrad::Color);

/// `colorgrad::sinebow` makes the sinebow gradient. Nothing is claimed of it.
pub assume_specification[ colorgrad::sinebow ]() -> (gradient: colorgrad::Gradient);

/// `Gradient::colors` samples a gradient at `n` evenly spaced positions, the
/// first at the start of its range and the last at the end. It returns one
/// colour for each position; that much is claimed, and nothing of the
/// colours.
pub assume_specification[ colorgrad::Gradient::colors ](
    gradient: &colorgrad::Gradient,
    n: usize,
) -> (colours: Vec<colorgrad::Color>)
    ensures
        colours.len() == n,
;

/// `Color::to_rgba8` scales the channels of a colour to bytes: red, green,
/// blue, alpha. Nothing is claimed of the bytes.
pub assume_specification[ colorgrad::Color::to_rgba8 ](
    colour: &colorgrad::Color,
) -> (rgba: [u8; 4]);

/// The sinebow gradient at `count` evenly spaced positions, the first at 0
/// and the last at 1, without the alpha.
fn sinebow_colours(count: usize) -> (palette: Vec<RGBPixel>)
    ensures
        palette.len() == count,
{
    let gradient = colorgrad::sinebow();
    let colours = gradient.colors(count);
    let mut palette: Vec<RGBPixel> = Vec::new();
    let mut k: usize = 0;
    while k < count
        invariant
            k <= count,
            colours.len() == count,
            palette.len() == k,
        decreases count - k,
    {
        let rgba = colours[k].to_rgba8();
        palette.push((rgba[0], rgba[1], rgba[2]));
        k = k + 1;
    }
    palette
}

impl Colouring {
    /// Builds the palette for an iteration limit.
    pub fn palette(&self, limit: usize) -> (palette: Vec<RGBPixel>)
        requires
            0 < limit < usize::MAX,
        ensures
            is_palette(palette@, *self, limit),
    {
        match self {
            Colouring::Sinebow => sinebow_colours(limit + 1),
            Colouring::TwoColour(start, end) => {
                let mut palette: Vec<RGBPixel> = Vec::new();
                let mut k: usize = 0;
                while k <= limit
                    invariant
                        0 < limit < usize::MAX,
                        k <= limit + 1,
                        palette.len() == k,
                        forall|j: int|
                            0 <= j < k ==> #[trigger] palette[j] == lerp_colour(
                                *start,
                                *end,
                                j,
                                limit as int,
                            ),
                    decreases limit + 1 - k,
                {
                    palette.push(lerp_pixels(*start, *end, k, limit));
                    k = k + 1;
                }
                palette
            },
        }
    }
}

/// A colouring in a straight line has one palette for each limit.
pub proof fn lemma_two_colour_palette_is_unique(
    first: Seq<RGBPixel>,
    second: Seq<RGBPixel>,
    start: RGBPixel,
    end: RGBPixel,
    limit: usize,
)
    requires
        is_palette(first, Colouring::TwoColour(start, end), limit),
        is_palette(second, Colouring::TwoColour(start, end), limit),
    ensures
        first == second,
{
    assert(first =~= second);
}

/// The palette in a straight line starts at the first colour and ends at the
/// second.
pub proof fn lemma_two_colour_palette_ends(
    palette: Seq<RGBPixel>,
    start: RGBPixel,
    end: RGBPixel,
    limit: usize,
)
    requires
        limit > 0,
        is_palette(palette, Colouring::TwoColour(start, end), limit),
    ensures
        palette[0] == start,
        palette[limit as int] == end,
{
    crate::image::lemma_lerp_ends(start, end, limit as int);
}

} // verus!
