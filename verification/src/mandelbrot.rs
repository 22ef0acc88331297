//! The renderer: the scan of the pixel grid, the colour of each outcome, and
//! the builder that holds the settings.

use vstd::prelude::*;
use vstd::arithmetic::div_mod::{lemma_fundamental_div_mod, lemma_multiply_divide_lt};
use crate::escape::{
    check_is_function,
    escape_time,
    escapes_as,
    is_run,
    lemma_outcome_is_unique,
    step_is_function,
    EscapeOutcome,
    FractalKind,
};
use crate::image::{RGBPixel, BLACK};
use crate::palette::{is_palette, lemma_two_colour_palette_is_unique, Colouring};

verus! {

/// The colour of an outcome: black for a bounded point, and for a point that
/// escaped at check `k` the entry `k` of the palette.
pub open spec fn colour_of(outcome: EscapeOutcome, palette: Seq<RGBPixel>) -> RGBPixel {
    match outcome {
        EscapeOutcome::Bounded => BLACK,
        EscapeOutcome::Escaped(k) => palette[k as int],
    }
}

/// Maps an outcome to a colour. A bounded point is black; a point that
/// escaped at check `k` takes the entry `k` of the palette.
pub fn shade(outcome: EscapeOutcome, palette: &Vec<RGBPixel>) -> (pixel: RGBPixel)
    requires
        outcome matches EscapeOutcome::Escaped(k) ==> k < palette.len(),
    ensures
        pixel == colour_of(outcome, palette@),
{
    match outcome {
        EscapeOutcome::Bounded => BLACK,
        EscapeOutcome::Escaped(k) => palette[k],
    }
}

/// The column and the row of the pixel with index `i` in a row-major grid
/// that is `width` pixels wide.
pub fn pixel_coords(i: usize, width: usize) -> (xy: (usize, usize))
    requires
        width > 0,
    ensures
        xy.0 == i % width,
        xy.1 == i / width,
        xy.1 * width + xy.0 == i,
{
    proof {
        lemma_fundamental_div_mod(i as int, width as int);
        assert(width * (i / width) == (i / width) * width) by (nonlinear_arith);
    }
    (i % width, i / width)
}

/// `pixel` is a colour of the grid position `(x, y)`: `sample` gave a point
/// for the position, the iteration from that point ended in some outcome, and
/// `pixel` is the colour of that outcome.
pub open spec fn renders_as<Z, M: Fn(usize, usize) -> Z, C: Fn(&Z) -> bool, S: Fn(Z, Z) -> Z>(
    x: usize,
    y: usize,
    kind: FractalKind<Z>,
    limit: usize,
    palette: Seq<RGBPixel>,
    sample: &M,
    has_escaped: &C,
    advance: &S,
    pixel: RGBPixel,
) -> bool {
    exists|z: Z, outcome: EscapeOutcome|
        {
            &&& call_ensures(*sample, (x, y), z)
            &&& #[trigger] escapes_as(z, kind.constant_for(z), limit, has_escaped, advance, outcome)
            &&& pixel == colour_of(outcome, palette)
        }
}

/// Computes the colour of one grid position: samples the plane there,
/// iterates from the sampled point, and shades the outcome.
pub fn render_pixel<Z: Copy, M: Fn(usize, usize) -> Z, C: Fn(&Z) -> bool, S: Fn(Z, Z) -> Z>(
    x: usize,
    y: usize,
    kind: &FractalKind<Z>,
    limit: usize,
    palette: &Vec<RGBPixel>,
    sample: &M,
    has_escaped: &C,
    advance: &S,
) -> (pixel: RGBPixel)
    requires
        limit < palette.len(),
        call_requires(*sample, (x, y)),
        forall|z: Z| call_requires(*has_escaped, (&z,)),
        forall|z: Z, c: Z| call_requires(*advance, (z, c)),
    ensures
        renders_as(x, y, *kind, limit, palette@, sample, has_escaped, advance, pixel),
{
    let z = sample(x, y);
    let outcome = escape_time(z, kind, limit, has_escaped, advance);
    proof {
        let orbit = choose|orbit: Seq<Z>|
            is_run(orbit, z, kind.constant_for(z), limit, has_escaped, advance, outcome);
        assert(is_run(orbit, z, kind.constant_for(z), limit, has_escaped, advance, outcome));
    }
    shade(outcome, palette)
}

/// Why a configuration cannot be rendered.
#[derive(Clone, Copy, Debug, PartialEq, Eq, Structural)]
pub enum ConfigError {
    /// The iteration limit is zero, so no point could be checked even once.
    ZeroIterationLimit,
    /// The iteration limit is the largest number there is, so a palette with
    /// one more entry cannot be built.
    IterationLimitTooLarge,
    /// The number of pixels, width times height, does not fit in `usize`.
    GridTooLarge,
    /// The palette has no entry for a point that escapes at the last check.
    PaletteTooShort,
}

/// The iteration limit of a builder that was given none.
pub const DEFAULT_ITERATION_LIMIT: usize = 400;

/// What a builder holds: the size of the pixel grid, the iteration limit, the
/// kind of fractal, and the colouring.
pub struct Configuration<Z> {
    pub width: usize,
    pub height: usize,
    pub iteration_limit: usize,
    pub kind: FractalKind<Z>,
    pub colouring: Colouring,
}

/// The configuration of a new builder.
pub open spec fn default_configuration<Z>(width: usize, height: usize) -> Configuration<Z> {
    Configuration {
        width,
        height,
        iteration_limit: DEFAULT_ITERATION_LIMIT,
        kind: FractalKind::Mandelbrot,
        colouring: Colouring::Sinebow,
    }
}

/// The error that a configuration is rejected with, if it is rejected, when
/// it is to be rendered with a palette of its own colouring.
pub open spec fn rejection<Z>(config: Configuration<Z>) -> Option<ConfigError> {
    if config.iteration_limit == 0 {
        Some(ConfigError::ZeroIterationLimit)
    } else if config.iteration_limit == usize::MAX {
        Some(ConfigError::IterationLimitTooLarge)
    } else if config.width * config.height > usize::MAX {
        Some(ConfigError::GridTooLarge)
    } else {
        None
    }
}

/// The error that a configuration is rejected with, if it is rejected, when
/// it is to be rendered with a given palette of `palette_len` colours.
pub open spec fn rejection_with_palette<Z>(config: Configuration<Z>, palette_len: nat) -> Option<
    ConfigError,
> {
    if config.iteration_limit == 0 {
        Some(ConfigError::ZeroIterationLimit)
    } else if config.width * config.height > usize::MAX {
        Some(ConfigError::GridTooLarge)
    } else if palette_len <= config.iteration_limit {
        Some(ConfigError::PaletteTooShort)
    } else {
        None
    }
}

/// `pixels` is a rendering of the grid in row-major order, origin at the top
/// left: the pixel with index `i` is a colour of column `i % width` of row
/// `i / width`.
pub open spec fn is_rendering<Z, M: Fn(usize, usize) -> Z, C: Fn(&Z) -> bool, S: Fn(Z, Z) -> Z>(
    pixels: Seq<RGBPixel>,
    config: Configuration<Z>,
    palette: Seq<RGBPixel>,
    sample: &M,
    has_escaped: &C,
    advance: &S,
) -> bool {
    &&& pixels.len() == config.width * config.height
    &&& forall|i: int|
        0 <= i < pixels.len() ==> renders_as(
            (i % config.width as int) as usize,
            (i / config.width as int) as usize,
            config.kind,
            config.iteration_limit,
            palette,
            sample,
            has_escaped,
            advance,
            #[trigger] pixels[i],
        )
}

/// Collects the settings of a rendering, then renders.
#[derive(Debug)]
pub struct FractalBuilder<Z> {
    width: usize,
    height: usize,
    iteration_limit: usize,
    kind: FractalKind<Z>,
    colouring: Colouring,
}

impl<Z> View for FractalBuilder<Z> {
    type V = Configuration<Z>;

    closed spec fn view(&self) -> Configuration<Z> {
        Configuration {
            width: self.width,
            height: self.height,
            iteration_limit: self.iteration_limit,
            kind: self.kind,
            colouring: self.colouring,
        }
    }
}

impl<Z: Copy> FractalBuilder<Z> {
    /// Create a new builder for a grid of the given size: the Mandelbrot set
    /// in the colours of the sinebow, with the default iteration limit.
    pub fn new(width: usize, height: usize) -> (builder: Self)
        ensures
            builder@ == default_configuration::<Z>(width, height),
    {
        Self {
            width,
            height,
            iteration_limit: DEFAULT_ITERATION_LIMIT,
            kind: FractalKind::Mandelbrot,
            colouring: Colouring::Sinebow,
        }
    }

    /// Sets the number of checks after which a point counts as bounded.
    pub fn iteration_limit(self, iteration_limit: usize) -> (builder: Self)
        ensures
            builder@ == (Configuration { iteration_limit, ..self@ }),
    {
        Self { iteration_limit, ..self }
    }

    /// Fixes the constant of the recurrence, which makes the rendering a
    /// Julia set.
    pub fn julia_constant(self, constant: Z) -> (builder: Self)
        ensures
            builder@ == (Configuration { kind: FractalKind::Julia(constant), ..self@ }),
    {
        Self { kind: FractalKind::Julia(constant), ..self }
    }

    /// Chooses how the points that escape are coloured.
    pub fn colouring(self, colouring: Colouring) -> (builder: Self)
        ensures
            builder@ == (Configuration { colouring, ..self@ }),
    {
        Self { colouring, ..self }
    }

    /// Render the fractal to RGB pixels, row by row from the top left, in
    /// the colours of the builder's colouring.
    ///
    /// `sample` maps a grid position, column first, to a point of the plane;
    /// `has_escaped` and `advance` are the check and the step of the
    /// iteration. A configuration that cannot be rendered is rejected before
    /// any of them is called.
    pub fn render<M: Fn(usize, usize) -> Z, C: Fn(&Z) -> bool, S: Fn(Z, Z) -> Z>(
        &self,
        sample: M,
        has_escaped: C,
        advance: S,
    ) -> (result: Result<Vec<RGBPixel>, ConfigError>)
        requires
            forall|x: usize, y: usize|
                x < self@.width && y < self@.height ==> call_requires(sample, (x, y)),
            forall|z: Z| call_requires(has_escaped, (&z,)),
            forall|z: Z, c: Z| call_requires(advance, (z, c)),
        ensures
            match result {
                Ok(pixels) => {
                    &&& rejection(self@) is None
                    &&& exists|palette: Seq<RGBPixel>|
                        #[trigger] is_rendering(
                            pixels@,
                            self@,
                            palette,
                            &sample,
                            &has_escaped,
                            &advance,
                        ) && is_palette(palette, self@.colouring, self@.iteration_limit)
                },
                Err(error) => rejection(self@) == Some(error),
            },
    {
        if self.iteration_limit == 0 {
            return Err(ConfigError::ZeroIterationLimit);
        }
        if self.iteration_limit == usize::MAX {
            return Err(ConfigError::IterationLimitTooLarge);
        }
        if self.width.checked_mul(self.height).is_none() {
            return Err(ConfigError::GridTooLarge);
        }
        let palette = self.colouring.palette(self.iteration_limit);
        let result = self.render_with_palette(&palette, sample, has_escaped, advance);
        proof {
            if result is Ok {
                assert(is_rendering(
                    result->Ok_0@,
                    self@,
                    palette@,
                    &sample,
                    &has_escaped,
                    &advance,
                ));
            }
        }
        result
    }

    /// Render the fractal with a palette of the caller's, whatever the
    /// builder's colouring: a point that escaped at check `k` takes the
    /// entry `k` of the palette, which therefore has to hold more entries
    /// than the iteration limit says.
    pub fn render_with_palette<M: Fn(usize, usize) -> Z, C: Fn(&Z) -> bool, S: Fn(Z, Z) -> Z>(
        &self,
        palette: &Vec<RGBPixel>,
        sample: M,
        has_escaped: C,
        advance: S,
    ) -> (result: Result<Vec<RGBPixel>, ConfigError>)
        requires
            forall|x: usize, y: usize|
                x < self@.width && y < self@.height ==> call_requires(sample, (x, y)),
            forall|z: Z| call_requires(has_escaped, (&z,)),
            forall|z: Z, c: Z| call_requires(advance, (z, c)),
        ensures
            match result {
                Ok(pixels) => {
                    &&& rejection_with_palette(self@, palette@.len()) is None
                    &&& is_rendering(pixels@, self@, palette@, &sample, &has_escaped, &advance)
                },
                Err(error) => rejection_with_palette(self@, palette@.len()) == Some(error),
            },
    {
        if self.iteration_limit == 0 {
            return Err(ConfigError::ZeroIterationLimit);
        }
        let total = match self.width.checked_mul(self.height) {
            Some(total) => total,
            None => {
                return Err(ConfigError::GridTooLarge);
            },
        };
        if palette.len() <= self.iteration_limit {
            return Err(ConfigError::PaletteTooShort);
        }
        let mut pixels: Vec<RGBPixel> = Vec::new();
        let mut i: usize = 0;
        while i < total
            invariant
                i <= total,
                total == self.width * self.height,
                self.iteration_limit < palette.len(),
                pixels.len() == i,
                forall|x: usize, y: usize|
                    x < self.width && y < self.height ==> call_requires(sample, (x, y)),
                forall|z: Z| call_requires(has_escaped, (&z,)),
                forall|z: Z, c: Z| call_requires(advance, (z, c)),
                forall|j: int|
                    0 <= j < i ==> renders_as(
                        (j % self.width as int) as usize,
                        (j / self.width as int) as usize,
                        self.kind,
                        self.iteration_limit,
                        palette@,
                        &sample,
                        &has_escaped,
                        &advance,
                        #[trigger] pixels[j],
                    ),
            decreases total - i,
        {
            assert(self.width > 0) by (nonlinear_arith)
                requires
                    i < self.width * self.height,
            ;
            let (x, y) = pixel_coords(i, self.width);
            proof {
                lemma_multiply_divide_lt(i as int, self.width as int, self.height as int);
            }
            let pixel = render_pixel(
                x,
                y,
                &self.kind,
                self.iteration_limit,
                palette,
                &sample,
                &has_escaped,
                &advance,
            );
            pixels.push(pixel);
            i = i + 1;
        }
        Ok(pixels)
    }
}

/// Each grid position is sampled at one point.
pub open spec fn sample_is_function<Z, M: Fn(usize, usize) -> Z>(sample: &M) -> bool {
    forall|x: usize, y: usize, a: Z, b: Z|
        call_ensures(*sample, (x, y), a) && call_ensures(*sample, (x, y), b) ==> a == b
}

/// Rendering is a function of the configuration, the palette and the three
/// operations: where each operation is a function, two renderings of one
/// configuration with one palette are the same pixels.
pub proof fn lemma_rendering_is_unique<
    Z,
    M: Fn(usize, usize) -> Z,
    C: Fn(&Z) -> bool,
    S: Fn(Z, Z) -> Z,
>(
    first: Seq<RGBPixel>,
    second: Seq<RGBPixel>,
    config: Configuration<Z>,
    palette: Seq<RGBPixel>,
    sample: &M,
    has_escaped: &C,
    advance: &S,
)
    requires
        sample_is_function(sample),
        check_is_function(has_escaped),
        step_is_function(advance),
        is_rendering(first, config, palette, sample, has_escaped, advance),
        is_rendering(second, config, palette, sample, has_escaped, advance),
    ensures
        first == second,
{
    assert forall|i: int| 0 <= i < first.len() implies first[i] == second[i] by {
        let x = (i % config.width as int) as usize;
        let y = (i / config.width as int) as usize;
        let kind = config.kind;
        let limit = config.iteration_limit;
        assert(renders_as(x, y, kind, limit, palette, sample, has_escaped, advance, first[i]));
        assert(renders_as(x, y, kind, limit, palette, sample, has_escaped, advance, second[i]));
        let (z1, o1) = choose|z: Z, outcome: EscapeOutcome|
            {
                &&& call_ensures(*sample, (x, y), z)
                &&& #[trigger] escapes_as(
                    z,
                    kind.constant_for(z),
                    limit,
                    has_escaped,
                    advance,
                    outcome,
                )
                &&& first[i] == colour_of(outcome, palette)
            };
        let (z2, o2) = choose|z: Z, outcome: EscapeOutcome|
            {
                &&& call_ensures(*sample, (x, y), z)
                &&& #[trigger] escapes_as(
                    z,
                    kind.constant_for(z),
                    limit,
                    has_escaped,
                    advance,
                    outcome,
                )
                &&& second[i] == colour_of(outcome, palette)
            };
        assert(z1 == z2);
        let c = kind.constant_for(z1);
        lemma_outcome_is_unique(z1, c, limit, has_escaped, advance, o1, o2);
    }
    assert(first =~= second);
}

/// With a colouring in a straight line the palette is a function of the
/// configuration too, so that two renderings of one configuration are the
/// same pixels, whichever palettes they were made with.
pub proof fn lemma_two_colour_rendering_is_unique<
    Z,
    M: Fn(usize, usize) -> Z,
    C: Fn(&Z) -> bool,
    S: Fn(Z, Z) -> Z,
>(
    first: Seq<RGBPixel>,
    second: Seq<RGBPixel>,
    config: Configuration<Z>,
    first_palette: Seq<RGBPixel>,
    second_palette: Seq<RGBPixel>,
    sample: &M,
    has_escaped: &C,
    advance: &S,
)
    requires
        config.colouring is TwoColour,
        sample_is_function(sample),
        check_is_function(has_escaped),
        step_is_function(advance),
        is_palette(first_palette, config.colouring, config.iteration_limit),
        is_palette(second_palette, config.colouring, config.iteration_limit),
        is_rendering(first, config, first_palette, sample, has_escaped, advance),
        is_rendering(second, config, second_palette, sample, has_escaped, advance),
    ensures
        first == second,
{
    let limit = config.iteration_limit;
    match config.colouring {
        Colouring::TwoColour(start, end) => {
            lemma_two_colour_palette_is_unique(first_palette, second_palette, start, end, limit);
        },
        Colouring::Sinebow => {},
    }
    lemma_rendering_is_unique(first, second, config, first_palette, sample, has_escaped, advance);
}

} // verus!
