//! Pixels and pixel buffers.

use vstd::prelude::*;
use vstd::arithmetic::div_mod::{
    lemma_div_is_ordered,
    lemma_div_multiples_vanish,
    lemma_fundamental_div_mod_converse,
    lemma_hoist_over_denominator,
};
use crate::mandelbrot::{
    default_configuration,
    is_rendering,
    ConfigError,
    FractalBuilder,
    DEFAULT_ITERATION_LIMIT,
};
use crate::palette::{is_palette, Colouring};

verus! {

/// Three 8-bit channels: red, green, blue.
pub type RGBPixel = (u8, u8, u8);

/// Pure white.
pub const WHITE: RGBPixel = (255, 255, 255);

/// Pure black.
pub const BLACK: RGBPixel = (0, 0, 0);

/// The value of one channel at the fraction `num / den` of the way from `a`
/// to `b`, which is `a + (b - a) * num / den`, cut off to a whole number. The
/// exact value lies between the two ends, so it is never negative, and
/// cutting it off rounds it down.
pub open spec fn lerp_channel(a: u8, b: u8, num: int, den: int) -> int {
    a + ((b - a) * num) / den
}

/// The colour at the fraction `num / den` of the way from `a` to `b`, each
/// channel interpolated by itself.
pub open spec fn lerp_colour(a: RGBPixel, b: RGBPixel, num: int, den: int) -> RGBPixel {
    (
        lerp_channel(a.0, b.0, num, den) as u8,
        lerp_channel(a.1, b.1, num, den) as u8,
        lerp_channel(a.2, b.2, num, den) as u8,
    )
}

/// Interpolation at the fraction 0 gives the first colour, and at the
/// fraction 1 the second, exactly.
pub proof fn lemma_lerp_ends(a: RGBPixel, b: RGBPixel, den: int)
    requires
        den > 0,
    ensures
        lerp_colour(a, b, 0, den) == a,
        lerp_colour(a, b, den, den) == b,
{
    lemma_channel_ends(a.0, b.0, den);
    lemma_channel_ends(a.1, b.1, den);
    lemma_channel_ends(a.2, b.2, den);
}

/// One channel at the fractions 0 and 1.
proof fn lemma_channel_ends(a: u8, b: u8, den: int)
    requires
        den > 0,
    ensures
        lerp_channel(a, b, 0, den) == a,
        lerp_channel(a, b, den, den) == b,
{
    assert((b - a) * 0 == 0);
    assert((b - a) * den == den * (b - a)) by (nonlinear_arith);
    lemma_div_multiples_vanish(b - a, den);
}

/// Interpolates one channel, in whole numbers throughout.
fn lerp(a: u8, b: u8, num: usize, den: usize) -> (channel: u8)
    requires
        0 < den,
        num <= den,
    ensures
        channel == lerp_channel(a, b, num as int, den as int),
        num == 0 ==> channel == a,
        num == den ==> channel == b,
{
    proof {
        assert(a * (den - num) <= 255 * 0xffff_ffff_ffff_ffff) by (nonlinear_arith)
            requires
                a <= 255,
                0 <= den - num <= 0xffff_ffff_ffff_ffff,
        ;
        assert(b * num <= 255 * 0xffff_ffff_ffff_ffff) by (nonlinear_arith)
            requires
                b <= 255,
                0 <= num <= 0xffff_ffff_ffff_ffff,
        ;
    }
    let weighted: u128 = (a as u128) * ((den - num) as u128) + (b as u128) * (num as u128);
    let quotient: u128 = weighted / (den as u128);
    proof {
        let d = den as int;
        let n = num as int;
        assert(weighted == a * d + (b - a) * n) by (nonlinear_arith)
            requires
                weighted == a * (d - n) + b * n,
        ;
        lemma_hoist_over_denominator((b - a) * n, a as int, d as nat);
        assert((b - a) * n + a * d == a * d + (b - a) * n);
        assert(weighted <= 255 * d) by (nonlinear_arith)
            requires
                weighted == a * (d - n) + b * n,
                0 <= n <= d,
                a <= 255,
                b <= 255,
        ;
        lemma_div_is_ordered(weighted as int, 255 * d, d);
        lemma_div_multiples_vanish(255, d);
        assert(255 * d == d * 255);
        lemma_channel_ends(a, b, d);
    }
    quotient as u8
}

/// Interpolates between two colours, channel by channel, at the fraction
/// `num / den` of the way from `a` to `b`. The arithmetic is exact: each
/// channel is `a + (b - a) * num / den` cut off to a whole number, so the
/// fraction 0 gives `a` and the fraction 1 gives `b`.
pub fn lerp_pixels(a: RGBPixel, b: RGBPixel, num: usize, den: usize) -> (pixel: RGBPixel)
    requires
        0 < den,
        num <= den,
    ensures
        pixel == lerp_colour(a, b, num as int, den as int),
        pixel.0 == lerp_channel(a.0, b.0, num as int, den as int),
        pixel.1 == lerp_channel(a.1, b.1, num as int, den as int),
        pixel.2 == lerp_channel(a.2, b.2, num as int, den as int),
        num == 0 ==> pixel == a,
        num == den ==> pixel == b,
{
    (lerp(a.0, b.0, num, den), lerp(a.1, b.1, num, den), lerp(a.2, b.2, num, den))
}

/// What an image is: its size and its pixels in row-major order.
pub struct Raster {
    pub width: usize,
    pub height: usize,
    pub pixels: Seq<RGBPixel>,
}

/// A grid of pixels, `width` wide and `height` high, stored row by row.
pub struct Image {
    pixels: Vec<RGBPixel>,
    width: usize,
    height: usize,
}

impl View for Image {
    type V = Raster;

    closed spec fn view(&self) -> Raster {
        Raster { width: self.width, height: self.height, pixels: self.pixels@ }
    }
}

/// The colour that one coin flip stands for.
pub open spec fn coin_colour(heads: bool) -> RGBPixel {
    if heads {
        WHITE
    } else {
        BLACK
    }
}

/// Turns a coin flip into a pixel: white for heads, black for tails.
pub fn coin_pixel(heads: bool) -> (pixel: RGBPixel)
    ensures
        pixel == coin_colour(heads),
{
    if heads {
        WHITE
    } else {
        BLACK
    }
}

/// Draws one boolean with `rand::random`, which takes it from the generator
/// of the current thread. The value is a matter of chance, so nothing is
/// claimed of it. The call panics where the system has no seed to give to
/// the generator.
#[verifier::external_body]
fn random_bool() -> (heads: bool) {
    rand::random::<bool>()
}

impl Image {
    /// There is one pixel for each grid position.
    #[verifier::type_invariant]
    spec fn well_formed(self) -> bool {
        self.pixels@.len() == self.width * self.height
    }

    /// Get pixel index of cartesian coord
    pub fn index(&self, x: usize, y: usize) -> (i: usize)
        requires
            x < self@.width,
            y < self@.height,
        ensures
            i == y * self@.width + x,
            i < self@.pixels.len(),
    {
        proof {
            use_type_invariant(self);
            assert((y + 1) * self.width <= self.height * self.width) by (nonlinear_arith)
                requires
                    y < self.height,
            ;
            assert((y + 1) * self.width == y * self.width + self.width) by (nonlinear_arith);
            assert(self.height * self.width == self.width * self.height) by (nonlinear_arith);
            assert(self.pixels.len() == self.pixels@.len());
        }
        y * self.width + x
    }

    /// Generate a new image with random black/white pixels
    pub fn random(width: usize, height: usize) -> (image: Self)
        requires
            width * height <= usize::MAX,
        ensures
            image@.width == width,
            image@.height == height,
            image@.pixels.len() == width * height,
            forall|i: int|
                0 <= i < image@.pixels.len() ==> {
                    let pixel = #[trigger] image@.pixels[i];
                    pixel == WHITE || pixel == BLACK
                },
    {
        let total = width * height;
        let mut pixels: Vec<RGBPixel> = Vec::new();
        let mut i: usize = 0;
        while i < total
            invariant
                i <= total,
                pixels.len() == i,
                forall|j: int|
                    0 <= j < i ==> {
                        let pixel = #[trigger] pixels[j];
                        pixel == WHITE || pixel == BLACK
                    },
            decreases total - i,
        {
            pixels.push(coin_pixel(random_bool()));
            i = i + 1;
        }
        Self { pixels, width, height }
    }

    /// Renders the Mandelbrot set on a grid of the given size, with the
    /// default iteration limit and colouring. `sample` maps a grid position
    /// to a point of the plane, and `has_escaped` and `advance` are the check
    /// and the step of the iteration.
    pub fn fractal<Z: Copy, M: Fn(usize, usize) -> Z, C: Fn(&Z) -> bool, S: Fn(Z, Z) -> Z>(
        width: usize,
        height: usize,
        sample: M,
        has_escaped: C,
        advance: S,
    ) -> (result: Result<Self, ConfigError>)
        requires
            forall|x: usize, y: usize| x < width && y < height ==> call_requires(sample, (x, y)),
            forall|z: Z| call_requires(has_escaped, (&z,)),
            forall|z: Z, c: Z| call_requires(advance, (z, c)),
        ensures
            match result {
                Ok(image) => {
                    &&& width * height <= usize::MAX
                    &&& image@.width == width
                    &&& image@.height == height
                    &&& exists|palette: Seq<RGBPixel>|
                        #[trigger] is_rendering(
                            image@.pixels,
                            default_configuration::<Z>(width, height),
                            palette,
                            &sample,
                            &has_escaped,
                            &advance,
                        ) && is_palette(palette, Colouring::Sinebow, DEFAULT_ITERATION_LIMIT)
                },
                Err(error) => width * height > usize::MAX && error == ConfigError::GridTooLarge,
            },
    {
        let builder: FractalBuilder<Z> = FractalBuilder::new(width, height);
        match builder.render(sample, has_escaped, advance) {
            Ok(pixels) => {
                let ghost palette = choose|palette: Seq<RGBPixel>|
                    #[trigger] is_rendering(
                        pixels@,
                        builder@,
                        palette,
                        &sample,
                        &has_escaped,
                        &advance,
                    ) && is_palette(palette, builder@.colouring, builder@.iteration_limit);
                let image = Self { pixels, width, height };
                proof {
                    assert(is_rendering(
                        image@.pixels,
                        default_configuration::<Z>(width, height),
                        palette,
                        &sample,
                        &has_escaped,
                        &advance,
                    ));
                    assert(is_palette(palette, Colouring::Sinebow, DEFAULT_ITERATION_LIMIT));
                }
                Ok(image)
            },
            Err(error) => Err(error),
        }
    }

    /// Makes an image of a buffer of pixels, if the buffer holds one pixel
    /// for each position of the grid.
    pub fn from_pixels(width: usize, height: usize, pixels: Vec<RGBPixel>) -> (image: Option<Self>)
        ensures
            image is Some <==> pixels.len() == width * height,
            image matches Some(image) ==> image@ == (Raster { width, height, pixels: pixels@ }),
    {
        match width.checked_mul(height) {
            Some(total) => {
                if pixels.len() == total {
                    Some(Self { pixels, width, height })
                } else {
                    None
                }
            },
            None => None,
        }
    }

    /// The number of columns.
    pub fn width(&self) -> (width: usize)
        ensures
            width == self@.width,
    {
        self.width
    }

    /// The number of rows.
    pub fn height(&self) -> (height: usize)
        ensures
            height == self@.height,
    {
        self.height
    }

    /// The pixels, row by row from the top left: one for each position of
    /// the grid.
    pub fn pixels(&self) -> (pixels: &Vec<RGBPixel>)
        ensures
            pixels@ == self@.pixels,
            pixels.len() == self@.width * self@.height,
    {
        proof {
            use_type_invariant(self);
        }
        &self.pixels
    }

    /// The image as bytes, four for each pixel: red, green, blue, and an
    /// alpha of 255.
    pub fn rgba_array(&self) -> (bytes: Vec<u8>)
        ensures
            bytes.len() == 4 * self@.pixels.len(),
            forall|i: int|
                0 <= i < self@.pixels.len() ==> {
                    let pixel = #[trigger] self@.pixels[i];
                    &&& bytes[4 * i] == pixel.0
                    &&& bytes[4 * i + 1] == pixel.1
                    &&& bytes[4 * i + 2] == pixel.2
                    &&& bytes[4 * i + 3] == 255
                },
    {
        let mut bytes: Vec<u8> = Vec::new();
        let mut i: usize = 0;
        while i < self.pixels.len()
            invariant
                i <= self.pixels.len(),
                bytes.len() == 4 * i,
                forall|j: int|
                    0 <= j < i ==> {
                        let pixel = #[trigger] self.pixels[j];
                        &&& bytes[4 * j] == pixel.0
                        &&& bytes[4 * j + 1] == pixel.1
                        &&& bytes[4 * j + 2] == pixel.2
                        &&& bytes[4 * j + 3] == 255
                    },
            decreases self.pixels.len() - i,
        {
            let (r, g, b) = self.pixels[i];
            bytes.push(r);
            bytes.push(g);
            bytes.push(b);
            bytes.push(255);
            i = i + 1;
        }
        bytes
    }
}

/// Indexing and the row-major scan undo each other: the pixel that `index`
/// finds for column `x` of row `y` is the one that the scan reaches at that
/// position of the grid.
pub proof fn lemma_index_is_row_major(x: usize, y: usize, width: usize)
    requires
        x < width,
    ensures
        (y * width + x) % (width as int) == x,
        (y * width + x) / (width as int) == y,
{
    lemma_fundamental_div_mod_converse(y * width + x, width as int, y as int, x as int);
}

} // verus!
