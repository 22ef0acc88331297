use fractal_render::escape::{escape_time, EscapeOutcome, FractalKind};
use num::Complex;

/// The check of the escape-time iteration: the magnitude has reached 2.
fn has_escaped(z: &Complex<f64>) -> bool {
    !(z.norm() < 2.0)
}

/// The step of the escape-time iteration.
fn advance(z: Complex<f64>, c: Complex<f64>) -> Complex<f64> {
    z * z + c
}

fn mandelbrot(re: f64, im: f64, limit: usize) -> EscapeOutcome {
    escape_time(Complex::new(re, im), &FractalKind::Mandelbrot, limit, &has_escaped, &advance)
}

fn julia(re: f64, im: f64, c: Complex<f64>, limit: usize) -> EscapeOutcome {
    escape_time(Complex::new(re, im), &FractalKind::Julia(c), limit, &has_escaped, &advance)
}

#[test]
fn point_outside_the_threshold_escapes_at_the_first_check() {
    assert_eq!(mandelbrot(3.0, 0.0, 50), EscapeOutcome::Escaped(1));
    assert_eq!(mandelbrot(3.0, 0.0, 1), EscapeOutcome::Escaped(1));
    assert_eq!(mandelbrot(0.0, -2.5, 400), EscapeOutcome::Escaped(1));
    assert_eq!(mandelbrot(-1.5, 1.5, 7), EscapeOutcome::Escaped(1));
}

#[test]
fn point_on_the_threshold_escapes_at_the_first_check() {
    assert_eq!(mandelbrot(2.0, 0.0, 50), EscapeOutcome::Escaped(1));
    assert_eq!(mandelbrot(-2.0, 0.0, 50), EscapeOutcome::Escaped(1));
    assert_eq!(mandelbrot(0.0, 2.0, 50), EscapeOutcome::Escaped(1));
}

#[test]
fn origin_is_bounded_under_every_limit() {
    for limit in [1usize, 2, 3, 50, 100, 400, 5000] {
        assert_eq!(mandelbrot(0.0, 0.0, limit), EscapeOutcome::Bounded);
    }
}

#[test]
fn periodic_points_are_bounded() {
    assert_eq!(mandelbrot(-1.0, 0.0, 400), EscapeOutcome::Bounded);
    assert_eq!(mandelbrot(0.0, 1.0, 400), EscapeOutcome::Bounded);
    assert_eq!(mandelbrot(0.0, -1.0, 50), EscapeOutcome::Bounded);
}

#[test]
fn escape_is_reported_at_the_check_that_sees_it() {
    // 1 -> 2
    assert_eq!(mandelbrot(1.0, 0.0, 50), EscapeOutcome::Escaped(2));
    // -1-i -> -1+i -> -1-3i
    assert_eq!(mandelbrot(-1.0, -1.0, 50), EscapeOutcome::Escaped(3));
    // 0.5 -> 0.75 -> 1.0625 -> 1.62890625 -> 3.15...
    assert_eq!(mandelbrot(0.5, 0.0, 50), EscapeOutcome::Escaped(5));
    // 1.9 -> 5.51
    assert_eq!(mandelbrot(1.9, 0.0, 50), EscapeOutcome::Escaped(2));
}

#[test]
fn escape_at_the_last_check_still_counts() {
    assert_eq!(mandelbrot(0.5, 0.0, 5), EscapeOutcome::Escaped(5));
    assert_eq!(mandelbrot(1.0, 0.0, 2), EscapeOutcome::Escaped(2));
}

#[test]
fn escape_after_the_limit_is_not_seen() {
    assert_eq!(mandelbrot(0.5, 0.0, 4), EscapeOutcome::Bounded);
    assert_eq!(mandelbrot(1.0, 0.0, 1), EscapeOutcome::Bounded);
    assert_eq!(mandelbrot(-1.0, -1.0, 2), EscapeOutcome::Bounded);
}

#[test]
fn limit_of_zero_checks_nothing() {
    assert_eq!(mandelbrot(3.0, 0.0, 0), EscapeOutcome::Bounded);
    assert_eq!(mandelbrot(0.0, 0.0, 0), EscapeOutcome::Bounded);
}

#[test]
fn julia_mode_keeps_the_constant_and_varies_the_start() {
    let zero = Complex::new(0.0, 0.0);
    // 1.5 -> 2.25
    assert_eq!(julia(1.5, 0.0, zero, 50), EscapeOutcome::Escaped(2));
    // 0.5 -> 0.25 -> ... -> 0
    assert_eq!(julia(0.5, 0.0, zero, 50), EscapeOutcome::Bounded);
    // 0 -> 1 -> 2
    assert_eq!(julia(0.0, 0.0, Complex::new(1.0, 0.0), 50), EscapeOutcome::Escaped(3));
    // 0 -> -1 -> 0 -> ...
    assert_eq!(julia(0.0, 0.0, Complex::new(-1.0, 0.0), 50), EscapeOutcome::Bounded);
    assert_eq!(julia(2.0, 0.0, Complex::new(-1.0, 0.0), 50), EscapeOutcome::Escaped(1));
}

#[test]
fn julia_and_mandelbrot_differ_on_the_same_point() {
    let c = Complex::new(0.0, 0.0);
    // As a Mandelbrot point 1.5 gives 1.5 -> 3.75; as the start of the Julia
    // set of 0 it gives 1.5 -> 2.25. Both escape at the second check, but
    // 1 escapes only as a Mandelbrot point.
    assert_eq!(mandelbrot(1.0, 0.0, 50), EscapeOutcome::Escaped(2));
    assert_eq!(julia(1.0, 0.0, c, 50), EscapeOutcome::Bounded);
}

#[test]
fn constant_of_each_kind() {
    let sample = Complex::new(0.25, -0.5);
    let fixed = Complex::new(-0.8, 0.156);
    assert_eq!(FractalKind::Mandelbrot.constant(sample), sample);
    assert_eq!(FractalKind::Julia(fixed).constant(sample), fixed);
}

#[test]
fn iteration_works_on_any_kind_of_point() {
    // Whole numbers, doubling, escaped at 100 or more: 3, 6, 12, 24, 48, 96, 192.
    let outcome = escape_time(
        3u32,
        &FractalKind::Julia(2u32),
        10,
        &|z: &u32| *z >= 100,
        &|z: u32, c: u32| z * c,
    );
    assert_eq!(outcome, EscapeOutcome::Escaped(7));
    let outcome = escape_time(
        3u32,
        &FractalKind::Julia(2u32),
        6,
        &|z: &u32| *z >= 100,
        &|z: u32, c: u32| z * c,
    );
    assert_eq!(outcome, EscapeOutcome::Bounded);
}
