//! The escape-time evaluator: the iteration of `z -> z * z + c` with its
//! check for escape, counted against a limit.
//!
//! The points, the check and the step are the caller's. The evaluator decides
//! which point is the constant, how often the check is made, and what the
//! outcome is called.

use vstd::prelude::*;

verus! {

/// Which value of the recurrence `z -> z * z + c` is held fixed over the grid.
#[derive(Debug)]
pub enum FractalKind<Z> {
    /// The constant is the sampled point itself.
    Mandelbrot,
    /// The constant is the same for every sampled point.
    Julia(Z),
}

/// What the iteration found out about one sampled point.
#[derive(Clone, Copy, Debug, PartialEq, Eq, Structural)]
pub enum EscapeOutcome {
    /// No check within the limit saw the orbit leave.
    Bounded,
    /// The check with this number, counted from one, saw the orbit leave.
    Escaped(usize),
}

impl<Z> FractalKind<Z> {
    /// The constant of the recurrence for a sampled point.
    pub open spec fn constant_for(self, sample: Z) -> Z {
        match self {
            FractalKind::Mandelbrot => sample,
            FractalKind::Julia(c) => c,
        }
    }

    /// The constant of the recurrence for a sampled point.
    pub fn constant(&self, sample: Z) -> (c: Z) where Z: Copy
        ensures
            c == self.constant_for(sample),
    {
        match self {
            FractalKind::Mandelbrot => sample,
            FractalKind::Julia(c) => *c,
        }
    }
}

/// The point at position `j` of `orbit` is what `advance` made of the point
/// before it and the constant `c`.
pub open spec fn follows<Z, S: Fn(Z, Z) -> Z>(orbit: Seq<Z>, j: int, c: Z, advance: &S) -> bool {
    call_ensures(*advance, (orbit[j - 1], c), orbit[j])
}

/// `orbit` starts at `start`, and each later point follows from the one
/// before it.
pub open spec fn is_orbit<Z, S: Fn(Z, Z) -> Z>(orbit: Seq<Z>, start: Z, c: Z, advance: &S) -> bool {
    &&& orbit.len() > 0 ==> orbit[0] == start
    &&& forall|j: int| 1 <= j < orbit.len() ==> #[trigger] follows(orbit, j, c, advance)
}

/// The check answered "not escaped" on each of the first `n` points.
pub open spec fn stays_inside<Z, C: Fn(&Z) -> bool>(
    orbit: Seq<Z>,
    n: int,
    has_escaped: &C,
) -> bool {
    forall|j: int| 0 <= j < n ==> call_ensures(*has_escaped, (&#[trigger] orbit[j],), false)
}

/// `orbit` is a run of the iteration from `start` that ends in `outcome`:
/// as many points as checks were made, the last check the only one that
/// answered "escaped", if any did.
pub open spec fn is_run<Z, C: Fn(&Z) -> bool, S: Fn(Z, Z) -> Z>(
    orbit: Seq<Z>,
    start: Z,
    c: Z,
    limit: usize,
    has_escaped: &C,
    advance: &S,
    outcome: EscapeOutcome,
) -> bool {
    &&& is_orbit(orbit, start, c, advance)
    &&& match outcome {
        EscapeOutcome::Bounded => {
            &&& orbit.len() == limit
            &&& stays_inside(orbit, limit as int, has_escaped)
        },
        EscapeOutcome::Escaped(k) => {
            &&& 1 <= k <= limit
            &&& orbit.len() == k
            &&& stays_inside(orbit, k - 1, has_escaped)
            &&& call_ensures(*has_escaped, (&orbit[k - 1],), true)
        },
    }
}

/// Some run of the iteration from `start` ends in `outcome`.
pub open spec fn escapes_as<Z, C: Fn(&Z) -> bool, S: Fn(Z, Z) -> Z>(
    start: Z,
    c: Z,
    limit: usize,
    has_escaped: &C,
    advance: &S,
    outcome: EscapeOutcome,
) -> bool {
    exists|orbit: Seq<Z>| is_run(orbit, start, c, limit, has_escaped, advance, outcome)
}

/// An orbit stays one when the point that `advance` made of its last point is
/// added, and the checks made so far are still the same checks.
proof fn lemma_orbit_grows<Z, C: Fn(&Z) -> bool, S: Fn(Z, Z) -> Z>(
    orbit: Seq<Z>,
    start: Z,
    c: Z,
    has_escaped: &C,
    advance: &S,
    next: Z,
)
    requires
        orbit.len() > 0,
        is_orbit(orbit, start, c, advance),
        stays_inside(orbit, orbit.len() as int, has_escaped),
        call_ensures(*advance, (orbit.last(), c), next),
    ensures
        is_orbit(orbit.push(next), start, c, advance),
        stays_inside(orbit.push(next), orbit.len() as int, has_escaped),
{
    let longer = orbit.push(next);
    assert forall|j: int| 1 <= j < longer.len() implies #[trigger] follows(
        longer,
        j,
        c,
        advance,
    ) by {
        if j < orbit.len() {
            assert(follows(orbit, j, c, advance));
        }
    }
    assert forall|j: int| 0 <= j < orbit.len() implies call_ensures(
        *has_escaped,
        (&#[trigger] longer[j],),
        false,
    ) by {
        assert(longer[j] == orbit[j]);
    }
}

/// Iterates `z -> advance(z, c)` from the sampled point, where `c` is the
/// constant that `kind` gives for it. Each point is checked before the
/// iteration advances from it, and at most `limit` points are checked.
///
/// The outcome is `Escaped(k)` where the `k`-th check, counted from one, is
/// the first to answer "escaped", and `Bounded` where none of `limit` checks
/// does. With a limit of zero nothing is checked and the outcome is `Bounded`.
pub fn escape_time<Z: Copy, C: Fn(&Z) -> bool, S: Fn(Z, Z) -> Z>(
    sample: Z,
    kind: &FractalKind<Z>,
    limit: usize,
    has_escaped: &C,
    advance: &S,
) -> (outcome: EscapeOutcome)
    requires
        forall|z: Z| call_requires(*has_escaped, (&z,)),
        forall|z: Z, c: Z| call_requires(*advance, (z, c)),
    ensures
        escapes_as(sample, kind.constant_for(sample), limit, has_escaped, advance, outcome),
{
    let c = kind.constant(sample);
    if limit == 0 {
        let ghost nothing = Seq::<Z>::empty();
        assert(is_run(nothing, sample, c, limit, has_escaped, advance, EscapeOutcome::Bounded));
        return EscapeOutcome::Bounded;
    }
    let mut z = sample;
    let mut inside: usize = 0;
    let ghost mut orbit: Seq<Z> = seq![sample];
    loop
        invariant
            inside < limit,
            c == kind.constant_for(sample),
            forall|z: Z| call_requires(*has_escaped, (&z,)),
            forall|z: Z, c: Z| call_requires(*advance, (z, c)),
            orbit.len() == inside + 1,
            orbit.last() == z,
            is_orbit(orbit, sample, c, advance),
            stays_inside(orbit, inside as int, has_escaped),
        decreases limit - inside,
    {
        if has_escaped(&z) {
            let outcome = EscapeOutcome::Escaped(inside + 1);
            assert(is_run(orbit, sample, c, limit, has_escaped, advance, outcome));
            return outcome;
        }
        inside = inside + 1;
        if inside == limit {
            let outcome = EscapeOutcome::Bounded;
            assert(is_run(orbit, sample, c, limit, has_escaped, advance, outcome));
            return outcome;
        }
        let next = advance(z, c);
        proof {
            lemma_orbit_grows(orbit, sample, c, has_escaped, advance, next);
            orbit = orbit.push(next);
        }
        z = next;
    }
}

/// The check gives one answer for each point.
pub open spec fn check_is_function<Z, C: Fn(&Z) -> bool>(has_escaped: &C) -> bool {
    forall|z: Z, a: bool, b: bool|
        call_ensures(*has_escaped, (&z,), a) && call_ensures(*has_escaped, (&z,), b) ==> a == b
}

/// The step leads from each point and constant to one point.
pub open spec fn step_is_function<Z, S: Fn(Z, Z) -> Z>(advance: &S) -> bool {
    forall|z: Z, c: Z, a: Z, b: Z|
        call_ensures(*advance, (z, c), a) && call_ensures(*advance, (z, c), b) ==> a == b
}

/// Two orbits from one start, under a step that is a function, hold the same
/// point at every position that both have.
proof fn lemma_orbits_agree<Z, S: Fn(Z, Z) -> Z>(
    first: Seq<Z>,
    second: Seq<Z>,
    start: Z,
    c: Z,
    advance: &S,
    j: int,
)
    requires
        step_is_function(advance),
        is_orbit(first, start, c, advance),
        is_orbit(second, start, c, advance),
        0 <= j < first.len(),
        j < second.len(),
    ensures
        first[j] == second[j],
    decreases j,
{
    if j > 0 {
        lemma_orbits_agree(first, second, start, c, advance, j - 1);
        assert(follows(first, j, c, advance));
        assert(follows(second, j, c, advance));
    }
}

/// The outcome of the iteration is a function of its inputs: where the check
/// and the step are functions, one start, constant and limit have one
/// outcome.
pub proof fn lemma_outcome_is_unique<Z, C: Fn(&Z) -> bool, S: Fn(Z, Z) -> Z>(
    start: Z,
    c: Z,
    limit: usize,
    has_escaped: &C,
    advance: &S,
    first: EscapeOutcome,
    second: EscapeOutcome,
)
    requires
        check_is_function(has_escaped),
        step_is_function(advance),
        escapes_as(start, c, limit, has_escaped, advance, first),
        escapes_as(start, c, limit, has_escaped, advance, second),
    ensures
        first == second,
{
    let a = choose|orbit: Seq<Z>| is_run(orbit, start, c, limit, has_escaped, advance, first);
    let b = choose|orbit: Seq<Z>| is_run(orbit, start, c, limit, has_escaped, advance, second);
    match (first, second) {
        (EscapeOutcome::Bounded, EscapeOutcome::Bounded) => {},
        (EscapeOutcome::Escaped(k), EscapeOutcome::Bounded) => {
            lemma_orbits_agree(a, b, start, c, advance, k - 1);
            assert(call_ensures(*has_escaped, (&b[k - 1],), false));
        },
        (EscapeOutcome::Bounded, EscapeOutcome::Escaped(k)) => {
            lemma_orbits_agree(a, b, start, c, advance, k - 1);
            assert(call_ensures(*has_escaped, (&a[k - 1],), false));
        },
        (EscapeOutcome::Escaped(k), EscapeOutcome::Escaped(m)) => {
            if k < m {
                lemma_orbits_agree(a, b, start, c, advance, k - 1);
                assert(call_ensures(*has_escaped, (&b[k - 1],), false));
            } else if m < k {
                lemma_orbits_agree(a, b, start, c, advance, m - 1);
                assert(call_ensures(*has_escaped, (&a[m - 1],), false));
            }
        },
    }
}

/// The point at position `j` of `orbit` is the only one that `advance` can
/// make of the point before it and the constant `c`.
pub open spec fn is_only_successor<Z, S: Fn(Z, Z) -> Z>(
    orbit: Seq<Z>,
    j: int,
    c: Z,
    advance: &S,
) -> bool {
    let before = orbit[j - 1];
    forall|next: Z| #[trigger] call_ensures(*advance, (before, c), next) ==> next == orbit[j]
}

/// `answer` is the only one that the check can give for the point at
/// position `j` of `orbit`.
pub open spec fn is_only_answer<Z, C: Fn(&Z) -> bool>(
    orbit: Seq<Z>,
    j: int,
    has_escaped: &C,
    answer: bool,
) -> bool {
    forall|given: bool|
        #[trigger] call_ensures(*has_escaped, (&orbit[j],), given) ==> given == answer
}

/// The iteration from `start` has no choice but to run through `orbit` and
/// to end in `outcome`: the step can only lead from each point to the next,
/// and the check can only answer "not escaped" on every point but the last
/// of an orbit that escapes.
pub open spec fn is_forced_run<Z, C: Fn(&Z) -> bool, S: Fn(Z, Z) -> Z>(
    orbit: Seq<Z>,
    start: Z,
    c: Z,
    limit: usize,
    has_escaped: &C,
    advance: &S,
    outcome: EscapeOutcome,
) -> bool {
    &&& orbit.len() > 0 ==> orbit[0] == start
    &&& forall|j: int| 1 <= j < orbit.len() ==> #[trigger] is_only_successor(orbit, j, c, advance)
    &&& match outcome {
        EscapeOutcome::Bounded => {
            &&& orbit.len() == limit
            &&& forall|j: int|
                0 <= j < limit ==> #[trigger] is_only_answer(orbit, j, has_escaped, false)
        },
        EscapeOutcome::Escaped(k) => {
            &&& 1 <= k <= limit
            &&& orbit.len() == k
            &&& forall|j: int|
                0 <= j < k - 1 ==> #[trigger] is_only_answer(orbit, j, has_escaped, false)
            &&& is_only_answer(orbit, k - 1, has_escaped, true)
        },
    }
}

/// A run of the iteration holds, at every position that both have, the point
/// of the orbit that the step forces.
proof fn lemma_run_is_forced<Z, S: Fn(Z, Z) -> Z>(
    forced: Seq<Z>,
    run: Seq<Z>,
    start: Z,
    c: Z,
    advance: &S,
    j: int,
)
    requires
        forced.len() > 0 ==> forced[0] == start,
        forall|i: int|
            1 <= i < forced.len() ==> #[trigger] is_only_successor(forced, i, c, advance),
        is_orbit(run, start, c, advance),
        0 <= j < forced.len(),
        j < run.len(),
    ensures
        run[j] == forced[j],
    decreases j,
{
    if j > 0 {
        lemma_run_is_forced(forced, run, start, c, advance, j - 1);
        assert(follows(run, j, c, advance));
        assert(is_only_successor(forced, j, c, advance));
    }
}

/// Where the step and the check leave the iteration no choice, its outcome
/// is the forced one.
pub proof fn lemma_forced_outcome<Z, C: Fn(&Z) -> bool, S: Fn(Z, Z) -> Z>(
    forced: Seq<Z>,
    start: Z,
    c: Z,
    limit: usize,
    has_escaped: &C,
    advance: &S,
    expected: EscapeOutcome,
    outcome: EscapeOutcome,
)
    requires
        is_forced_run(forced, start, c, limit, has_escaped, advance, expected),
        escapes_as(start, c, limit, has_escaped, advance, outcome),
    ensures
        outcome == expected,
{
    let run = choose|orbit: Seq<Z>| is_run(orbit, start, c, limit, has_escaped, advance, outcome);
    match (expected, outcome) {
        (EscapeOutcome::Bounded, EscapeOutcome::Bounded) => {},
        (EscapeOutcome::Escaped(k), EscapeOutcome::Bounded) => {
            lemma_run_is_forced(forced, run, start, c, advance, k - 1);
            assert(call_ensures(*has_escaped, (&run[k - 1],), false));
            assert(is_only_answer(forced, k - 1, has_escaped, true));
        },
        (EscapeOutcome::Bounded, EscapeOutcome::Escaped(m)) => {
            lemma_run_is_forced(forced, run, start, c, advance, m - 1);
            assert(is_only_answer(forced, m - 1, has_escaped, false));
        },
        (EscapeOutcome::Escaped(k), EscapeOutcome::Escaped(m)) => {
            if k < m {
                lemma_run_is_forced(forced, run, start, c, advance, k - 1);
                assert(call_ensures(*has_escaped, (&run[k - 1],), false));
                assert(is_only_answer(forced, k - 1, has_escaped, true));
            } else if m < k {
                lemma_run_is_forced(forced, run, start, c, advance, m - 1);
                assert(is_only_answer(forced, m - 1, has_escaped, false));
            }
        },
    }
}

/// A point that the check can only call escaped escapes at the first check,
/// whatever the limit, as long as it allows one check.
pub proof fn lemma_escapes_at_first_check<Z, C: Fn(&Z) -> bool, S: Fn(Z, Z) -> Z>(
    start: Z,
    c: Z,
    limit: usize,
    has_escaped: &C,
    advance: &S,
    outcome: EscapeOutcome,
)
    requires
        limit >= 1,
        forall|answer: bool| call_ensures(*has_escaped, (&start,), answer) ==> answer,
        escapes_as(start, c, limit, has_escaped, advance, outcome),
    ensures
        outcome == EscapeOutcome::Escaped(1),
{
    let orbit = choose|orbit: Seq<Z>| is_run(orbit, start, c, limit, has_escaped, advance, outcome);
    match outcome {
        EscapeOutcome::Bounded => {
            assert(call_ensures(*has_escaped, (&orbit[0],), false));
        },
        EscapeOutcome::Escaped(k) => {
            if k > 1 {
                assert(call_ensures(*has_escaped, (&orbit[0],), false));
            }
        },
    }
}

/// Every point of an orbit from a point that the step leaves in place is
/// that point.
proof fn lemma_orbit_rests<Z, S: Fn(Z, Z) -> Z>(
    orbit: Seq<Z>,
    start: Z,
    c: Z,
    advance: &S,
    j: int,
)
    requires
        forall|next: Z| call_ensures(*advance, (start, c), next) ==> next == start,
        is_orbit(orbit, start, c, advance),
        0 <= j < orbit.len(),
    ensures
        orbit[j] == start,
    decreases j,
{
    if j > 0 {
        lemma_orbit_rests(orbit, start, c, advance, j - 1);
        assert(follows(orbit, j, c, advance));
    }
}

/// A point that the step leaves in place, and that the check can only call
/// not escaped, is bounded under every limit.
pub proof fn lemma_fixed_point_is_bounded<Z, C: Fn(&Z) -> bool, S: Fn(Z, Z) -> Z>(
    start: Z,
    c: Z,
    limit: usize,
    has_escaped: &C,
    advance: &S,
    outcome: EscapeOutcome,
)
    requires
        forall|answer: bool| call_ensures(*has_escaped, (&start,), answer) ==> !answer,
        forall|next: Z| call_ensures(*advance, (start, c), next) ==> next == start,
        escapes_as(start, c, limit, has_escaped, advance, outcome),
    ensures
        outcome == EscapeOutcome::Bounded,
{
    let orbit = choose|orbit: Seq<Z>| is_run(orbit, start, c, limit, has_escaped, advance, outcome);
    match outcome {
        EscapeOutcome::Bounded => {},
        EscapeOutcome::Escaped(k) => {
            lemma_orbit_rests(orbit, start, c, advance, k - 1);
        },
    }
}

} // verus!
