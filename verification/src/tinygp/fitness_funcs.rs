//! Scoring strategies.
//!
//! A strategy compares what a program wrote with what a case expects and
//! yields a score: zero for a perfect match, more negative for a larger
//! error. Scores are integers; a score too large in magnitude is cut off at
//! the extremes of the fitness type.

use vstd::prelude::*;
use crate::params::Fitness;
use super::common::{Number, Program, is_truthy};
use super::execution::{Runtime, Machine};

verus! {

/// The score of a result that is as bad as a finite error can be.
pub const WORST: Fitness = -0x7fff_ffff_ffff_ffff;

/// The score of a result that is beyond any error.
pub const NEGATIVE_INFINITY: Fitness = i64::MIN;

/// What the multiplier for reading past the input stands at.
pub const OVERREAD_PENALTY: u64 = 0x7fff_ffff_ffff_ffff;

/// The nearest representable score.
pub open spec fn bounded(x: int) -> Fitness {
    if x > i64::MAX {
        i64::MAX
    } else if x < i64::MIN {
        i64::MIN
    } else {
        x as i64
    }
}

/// The absolute difference of two numbers.
pub open spec fn gap(a: Number, b: Number) -> int {
    if a >= b {
        a - b
    } else {
        b - a
    }
}

/// The first output, or zero when nothing was written.
pub open spec fn first_or_zero(actual: Seq<Number>) -> Number {
    if actual.len() > 0 {
        actual[0]
    } else {
        0
    }
}

/// The smallest gap between the target and any of the first `k` outputs,
/// or the largest score when `k` is zero.
pub open spec fn least_gap(target: Number, actual: Seq<Number>, k: nat) -> int
    decreases k,
{
    if k == 0 {
        i64::MAX as int
    } else {
        let rest = least_gap(target, actual, (k - 1) as nat);
        let here = gap(actual[k - 1], target);
        if here < rest {
            here
        } else {
            rest
        }
    }
}

/// The least gap is no larger than the gap of any output, and some output
/// has it: it is zero exactly when the target was written.
pub proof fn lemma_least_gap(target: Number, actual: Seq<Number>, k: nat)
    requires
        k <= actual.len(),
    ensures
        forall|j: int|
            0 <= j < k ==> least_gap(target, actual, k) <= gap(#[trigger] actual[j], target),
        k > 0 ==> exists|j: int| 0 <= j < k && least_gap(target, actual, k) == gap(
            #[trigger] actual[j],
            target,
        ),
        least_gap(target, actual, k) == 0 <==> exists|j: int|
            0 <= j < k && #[trigger] actual[j] == target,
    decreases k,
{
    if k > 0 {
        lemma_least_gap(target, actual, (k - 1) as nat);
        let rest = least_gap(target, actual, (k - 1) as nat);
        let here = gap(actual[k - 1], target);
        if here < rest {
            assert(least_gap(target, actual, k) == gap(actual[k - 1], target));
        } else if k > 1 {
            let j = choose|j: int| 0 <= j < k - 1 && rest == gap(#[trigger] actual[j], target);
            assert(least_gap(target, actual, k) == gap(actual[j], target));
        }
        if least_gap(target, actual, k) == 0 {
            if here == 0 {
                assert(actual[k - 1] == target);
            } else {
                let j = choose|j: int| 0 <= j < k - 1 && #[trigger] actual[j] == target;
                assert(actual[j] == target);
            }
        }
        if exists|j: int| 0 <= j < k && #[trigger] actual[j] == target {
            let j = choose|j: int| 0 <= j < k && #[trigger] actual[j] == target;
            assert(gap(actual[j], target) == 0);
        }
    }
}

/// The sum of the gaps of the first `k` pairs of outputs and expectations.
pub open spec fn total_gap(expected: Seq<Number>, actual: Seq<Number>, k: nat) -> int
    decreases k,
{
    if k == 0 {
        0
    } else {
        total_gap(expected, actual, (k - 1) as nat) + gap(actual[k - 1], expected[k - 1])
    }
}

/// The smaller of two lengths.
pub open spec fn shorter(a: nat, b: nat) -> nat {
    if a <= b {
        a
    } else {
        b
    }
}

/// The absolute difference of two lengths.
pub open spec fn length_gap(a: nat, b: nat) -> int {
    if a >= b {
        a - b
    } else {
        b - a
    }
}

/// `r` is the square root of `x` rounded down.
pub open spec fn is_floor_root(r: int, x: int) -> bool {
    0 <= r && r * r <= x < (r + 1) * (r + 1)
}

/// The square root of `x` rounded down.
pub open spec fn floor_sqrt(x: int) -> int {
    choose|r: int| is_floor_root(r, x)
}

/// A number has at most one square root rounded down.
pub proof fn lemma_floor_root_unique(r: int, s: int, x: int)
    requires
        is_floor_root(r, x),
        is_floor_root(s, x),
    ensures
        r == s,
{
    if r < s {
        assert((r + 1) * (r + 1) <= s * s) by (nonlinear_arith)
            requires
                0 <= r + 1 <= s,
        ;
    }
    if s < r {
        assert((s + 1) * (s + 1) <= r * r) by (nonlinear_arith)
            requires
                0 <= s + 1 <= r,
        ;
    }
}

/// How far the read cursor is from the end of the input, plus one.
pub open spec fn reading_factor(m: Machine) -> int {
    length_gap(m.input.len(), m.cursor) + 1
}

/// The multiplier for reading past the input.
pub open spec fn overread_factor(m: Machine) -> int {
    if m.overread {
        OVERREAD_PENALTY as int
    } else {
        1
    }
}

/// The absolute difference of two numbers.
pub fn distance(a: Number, b: Number) -> (d: u64)
    ensures
        d == gap(a, b),
        d <= 0xffff_ffff,
{
    if a >= b {
        (a as i64 - b as i64) as u64
    } else {
        (b as i64 - a as i64) as u64
    }
}

/// The square of the absolute difference of two numbers.
pub fn distance_square(a: Number, b: Number) -> (d: u128)
    ensures
        d == gap(a, b) * gap(a, b),
        d <= 0xffff_ffff * 0xffff_ffff,
{
    let d = distance(a, b) as u128;
    assert(d * d <= 0xffff_ffff * 0xffff_ffff) by (nonlinear_arith)
        requires
            d <= 0xffff_ffff,
    ;
    d * d
}

/// How far the number of outputs is from the wanted number, plus one.
pub fn promote_output_len(wanted: usize, actual: usize) -> (f: u128)
    ensures
        f == length_gap(actual as nat, wanted as nat) + 1,
        1 <= f <= 0x1_0000_0000_0000_0000,
{
    if actual >= wanted {
        (actual - wanted) as u128 + 1
    } else {
        (wanted - actual) as u128 + 1
    }
}

/// How far the read cursor is from the end of the input, plus one.
pub fn promote_reading(runtime: &Runtime) -> (f: u128)
    ensures
        f == reading_factor(runtime@),
        1 <= f <= 0x1_0000_0000_0000_0000,
{
    let len = runtime.input.len();
    if len >= runtime.input_cursor {
        (len - runtime.input_cursor) as u128 + 1
    } else {
        (runtime.input_cursor - len) as u128 + 1
    }
}

/// The multiplier for reading past the input: one when the program never
/// did, the penalty when it did.
pub fn punish_overreading(runtime: &Runtime) -> (f: u128)
    ensures
        f == overread_factor(runtime@),
        1 <= f <= 0x7fff_ffff_ffff_ffff,
{
    if runtime.overread {
        OVERREAD_PENALTY as u128
    } else {
        1
    }
}

/// The score for an error of the given magnitude.
fn penalty(error: u128) -> (score: Fitness)
    ensures
        score == bounded(-(error as int)),
{
    if error > 0x7fff_ffff_ffff_ffff {
        i64::MIN
    } else {
        -(error as i64)
    }
}

/// A product that stops at `2^63`, one more than the largest score.
fn capped_product(a: u128, b: u128) -> (r: u128)
    requires
        a <= 0x1_0000_0000_0000_0000,
        1 <= b <= 0x1_0000_0000_0000_0000,
    ensures
        r == if a * b <= 0x8000_0000_0000_0000 {
            a * b
        } else {
            0x8000_0000_0000_0000
        },
{
    if a >= 0x8000_0000_0000_0000 {
        assert(a * b >= 0x8000_0000_0000_0000) by (nonlinear_arith)
            requires
                a >= 0x8000_0000_0000_0000,
                b >= 1,
        ;
        if a == 0x8000_0000_0000_0000 && b == 1 {
            assert(a * b == 0x8000_0000_0000_0000) by (nonlinear_arith)
                requires
                    a == 0x8000_0000_0000_0000,
                    b == 1,
            ;
        } else {
            assert(a * b > 0x8000_0000_0000_0000) by (nonlinear_arith)
                requires
                    a >= 0x8000_0000_0000_0000,
                    b >= 1,
                    a > 0x8000_0000_0000_0000 || b > 1,
            ;
        }
        return 0x8000_0000_0000_0000;
    }
    assert(a * b <= 0x8000_0000_0000_0000 * 0x1_0000_0000_0000_0000) by (nonlinear_arith)
        requires
            a <= 0x8000_0000_0000_0000,
            b <= 0x1_0000_0000_0000_0000,
    ;
    let product = a * b;
    if product <= 0x8000_0000_0000_0000 {
        product
    } else {
        0x8000_0000_0000_0000
    }
}

/// The square root of `x`, rounded down.
pub fn floor_root(x: u128) -> (r: u64)
    ensures
        is_floor_root(r as int, x as int),
        r == floor_sqrt(x as int),
{
    let mut low: u128 = 0;
    let mut high: u128 = 0x1_0000_0000_0000_0000;
    assert(high * high > x) by (nonlinear_arith)
        requires
            high == 0x1_0000_0000_0000_0000,
            x <= 0xffff_ffff_ffff_ffff_ffff_ffff_ffff_ffff,
    ;
    while high - low > 1
        invariant
            low < high <= 0x1_0000_0000_0000_0000,
            low * low <= x < high * high,
        decreases high - low,
    {
        let middle = low + (high - low) / 2;
        assert(middle * middle <= 0xffff_ffff_ffff_ffff * 0xffff_ffff_ffff_ffff)
            by (nonlinear_arith)
            requires
                middle <= 0xffff_ffff_ffff_ffff,
        ;
        if middle * middle <= x {
            low = middle;
        } else {
            high = middle;
        }
    }
    proof {
        lemma_floor_root_unique(low as int, floor_sqrt(x as int), x as int);
    }
    low as u64
}

/// Scores the first output alone: minus its distance from the first
/// expected value. A program that wrote nothing is scored as if it had
/// written zero.
pub fn diff_first(
    expected: &Vec<Number>,
    actual: &Vec<Number>,
    _runtime: &Runtime,
) -> (score: Fitness)
    requires
        expected.len() > 0,
    ensures
        score == -gap(first_or_zero(actual@), expected[0]),
{
    let output = if actual.len() > 0 {
        actual[0]
    } else {
        0
    };
    -(distance(output, expected[0]) as i64)
}

/// Scores the best-matching output: minus the smallest distance between
/// any output and the first expected value. A program that wrote nothing
/// gets the worst score.
pub fn diff_best(
    expected: &Vec<Number>,
    actual: &Vec<Number>,
    _runtime: &Runtime,
) -> (score: Fitness)
    requires
        expected.len() > 0,
    ensures
        score == -least_gap(expected[0], actual@, actual.len() as nat),
        actual.len() == 0 ==> score == WORST,
        score <= 0,
        score == 0 <==> actual@.contains(expected[0]),
{
    proof {
        lemma_least_gap(expected[0], actual@, actual.len() as nat);
    }
    let target = expected[0];
    let mut min_error: u64 = 0x7fff_ffff_ffff_ffff;
    let mut i: usize = 0;
    while i < actual.len()
        invariant
            i <= actual.len(),
            min_error == least_gap(target, actual@, i as nat),
            min_error <= 0x7fff_ffff_ffff_ffff,
        decreases actual.len() - i,
    {
        let error = distance(actual[i], target);
        if error < min_error {
            min_error = error;
        }
        i += 1;
    }
    -(min_error as i64)
}

/// Accepts an output only when it is the sole one: the score of
/// [`diff_first`] then, the worst score otherwise.
pub fn diff_only(
    expected: &Vec<Number>,
    actual: &Vec<Number>,
    _runtime: &Runtime,
) -> (score: Fitness)
    requires
        expected.len() > 0,
    ensures
        actual.len() == 1 ==> score == -gap(actual[0], expected[0]),
        actual.len() != 1 ==> score == WORST,
{
    if actual.len() != 1 {
        return WORST;
    }
    diff_first(expected, actual, _runtime)
}

/// Scores the first output and favours short outputs: minus the distance of
/// the first output from the first expected value times the square root of
/// the number of outputs, rounded down. A program that wrote nothing is
/// beyond any error.
pub fn diff_first_promote_single(
    expected: &Vec<Number>,
    actual: &Vec<Number>,
    _runtime: &Runtime,
) -> (score: Fitness)
    requires
        expected.len() > 0,
    ensures
        actual.len() == 0 ==> score == NEGATIVE_INFINITY,
        actual.len() > 0 ==> score == bounded(
            -floor_sqrt(gap(actual[0], expected[0]) * gap(actual[0], expected[0]) * actual.len()),
        ),
{
    if actual.len() == 0 {
        return NEGATIVE_INFINITY;
    }
    let square = distance_square(actual[0], expected[0]);
    let count = actual.len() as u128;
    assert(square * count <= 0xffff_ffff * 0xffff_ffff * 0xffff_ffff_ffff_ffff)
        by (nonlinear_arith)
        requires
            square <= 0xffff_ffff * 0xffff_ffff,
            count <= 0xffff_ffff_ffff_ffff,
    ;
    let root = floor_root(square * count);
    penalty(root as u128)
}

/// Scores how exactly the input was read: minus the distance of the read
/// cursor from the end of the input plus one, times the penalty when the
/// program tried to read past the end.
pub fn fit_exact_reading(
    _expected: &Vec<Number>,
    _actual: &Vec<Number>,
    runtime: &Runtime,
) -> (score: Fitness)
    ensures
        score == bounded(-(reading_factor(runtime@) * overread_factor(runtime@))),
{
    let reading = promote_reading(runtime);
    let punish = punish_overreading(runtime);
    assert(reading * punish <= 0x1_0000_0000_0000_0000 * 0x7fff_ffff_ffff_ffff)
        by (nonlinear_arith)
        requires
            reading <= 0x1_0000_0000_0000_0000,
            punish <= 0x7fff_ffff_ffff_ffff,
    ;
    penalty(reading * punish)
}

/// The product of the four factors of [`diff_first_promote_reading`].
pub open spec fn reading_error(expected: Seq<Number>, actual: Seq<Number>, m: Machine) -> int {
    gap(actual[0], expected[0]) * gap(actual[0], expected[0]) * (length_gap(actual.len(), 1) + 1)
        * reading_factor(m) * overread_factor(m)
}

/// Once a product of factors has passed the cap, more factors of at least
/// one keep it there.
proof fn lemma_capped(a: int, b: int, cap: int)
    requires
        0 <= a,
        1 <= b,
        0 <= cap,
    ensures
        a > cap ==> a * b > cap,
        a <= cap ==> a * b >= 0,
{
    assert(a * b >= a) by (nonlinear_arith)
        requires
            0 <= a,
            1 <= b,
    ;
}

/// Scores the first output, favouring a single output and an exact reading
/// of the input: minus the squared distance of the first output from the
/// first expected value, times the distance of the number of outputs from
/// one plus one, times the factors of [`fit_exact_reading`]. A program that
/// wrote nothing is beyond any error.
pub fn diff_first_promote_reading(
    expected: &Vec<Number>,
    actual: &Vec<Number>,
    runtime: &Runtime,
) -> (score: Fitness)
    requires
        expected.len() > 0,
    ensures
        actual.len() == 0 ==> score == NEGATIVE_INFINITY,
        actual.len() > 0 ==> score == bounded(-reading_error(expected@, actual@, runtime@)),
{
    if actual.len() == 0 {
        return NEGATIVE_INFINITY;
    }
    let square = distance_square(actual[0], expected[0]);
    let outputs = promote_output_len(1, actual.len());
    let reading = promote_reading(runtime);
    let punish = punish_overreading(runtime);
    let first = capped_product(square, outputs);
    let second = capped_product(first, reading);
    let third = capped_product(second, punish);
    proof {
        let cap = 0x8000_0000_0000_0000int;
        let a = square as int * outputs as int;
        let b = a * reading as int;
        lemma_capped(a, reading as int, cap);
        lemma_capped(b, punish as int, cap);
        assert(square as int * outputs as int >= 0) by (nonlinear_arith)
            requires
                square >= 0,
                outputs >= 0,
        ;
        assert(cap * reading as int >= cap) by (nonlinear_arith)
            requires
                reading >= 1,
                cap >= 0,
        ;
        assert(cap * punish as int >= cap) by (nonlinear_arith)
            requires
                punish >= 1,
                cap >= 0,
        ;
    }
    penalty(third)
}

/// Scores a whole sequence: minus the sum of the distances between outputs
/// and expected values at the same positions, and minus a thousand for
/// every output too many or too few.
pub fn fit_arithmetic_series(
    expected: &Vec<Number>,
    actual: &Vec<Number>,
    _runtime: &Runtime,
) -> (score: Fitness)
    ensures
        score == bounded(
            -(total_gap(expected@, actual@, shorter(expected.len() as nat, actual.len() as nat))
                + 1000 * length_gap(expected.len() as nat, actual.len() as nat)),
        ),
{
    let pairs = if expected.len() <= actual.len() {
        expected.len()
    } else {
        actual.len()
    };
    let mut error: u128 = 0;
    let mut i: usize = 0;
    while i < pairs
        invariant
            i <= pairs,
            pairs <= expected.len(),
            pairs <= actual.len(),
            error == total_gap(expected@, actual@, i as nat),
            error <= i * 0xffff_ffff,
        decreases pairs - i,
    {
        error = error + distance(actual[i], expected[i]) as u128;
        i += 1;
    }
    let mismatch = if expected.len() >= actual.len() {
        (expected.len() - actual.len()) as u128
    } else {
        (actual.len() - expected.len()) as u128
    };
    penalty(error + 1000 * mismatch)
}

/// Scores a truth value: zero when the sole output is true exactly when the
/// first expected value is, minus one otherwise.
pub fn fit_bool(
    expected: &Vec<Number>,
    actual: &Vec<Number>,
    _runtime: &Runtime,
) -> (score: Fitness)
    requires
        expected.len() > 0,
    ensures
        score == if actual.len() == 1 && ((expected[0] != 0) == (actual[0] != 0)) {
            0i64
        } else {
            -1i64
        },
{
    if actual.len() != 1 {
        return -1;
    }
    if is_truthy(expected[0]) == is_truthy(actual[0]) {
        return 0;
    }
    -1
}

/// The fitness by which individuals are selected: the raw fitness.
pub fn normalize_fitness(
    fitness: &Vec<Fitness>,
    _programs: &Vec<Program>,
) -> (normalized: Vec<Fitness>)
    ensures
        normalized@ == fitness@,
{
    let mut normalized: Vec<Fitness> = Vec::new();
    let mut i: usize = 0;
    while i < fitness.len()
        invariant
            i <= fitness.len(),
            normalized@ == fitness@.subrange(0, i as int),
        decreases fitness.len() - i,
    {
        normalized.push(fitness[i]);
        i += 1;
        assert(normalized@ =~= fitness@.subrange(0, i as int));
    }
    assert(fitness@.subrange(0, i as int) =~= fitness@);
    normalized
}

/// The scoring strategies.
#[derive(Debug, Clone, Copy, PartialEq, Eq, Structural)]
pub enum FitnessFunc {
    /// [`diff_first`]
    DiffFirst,
    /// [`diff_best`]
    DiffBest,
    /// [`diff_only`]
    DiffOnly,
    /// [`diff_first_promote_single`]
    DiffFirstPromoteSingle,
    /// [`fit_exact_reading`]
    FitExactReading,
    /// [`diff_first_promote_reading`]
    DiffFirstPromoteReading,
    /// [`fit_arithmetic_series`]
    FitArithmeticSeries,
    /// [`fit_bool`]
    FitBool,
}

impl FitnessFunc {
    /// Whether the strategy can score against these expectations: most
    /// strategies look at the first expected value, which must exist.
    pub open spec fn accepts(self, expected: Seq<Number>) -> bool {
        match self {
            FitnessFunc::FitExactReading | FitnessFunc::FitArithmeticSeries => true,
            _ => expected.len() > 0,
        }
    }

    /// The score the strategy gives.
    pub open spec fn score_of(
        self,
        expected: Seq<Number>,
        actual: Seq<Number>,
        m: Machine,
    ) -> Fitness {
        match self {
            FitnessFunc::DiffFirst => (-gap(first_or_zero(actual), expected[0])) as Fitness,
            FitnessFunc::DiffBest => (-least_gap(expected[0], actual, actual.len())) as Fitness,
            FitnessFunc::DiffOnly => if actual.len() == 1 {
                (-gap(actual[0], expected[0])) as Fitness
            } else {
                WORST
            },
            FitnessFunc::DiffFirstPromoteSingle => if actual.len() == 0 {
                NEGATIVE_INFINITY
            } else {
                bounded(
                    -floor_sqrt(
                        gap(actual[0], expected[0]) * gap(actual[0], expected[0]) * actual.len(),
                    ),
                )
            },
            FitnessFunc::FitExactReading => bounded(-(reading_factor(m) * overread_factor(m))),
            FitnessFunc::DiffFirstPromoteReading => if actual.len() == 0 {
                NEGATIVE_INFINITY
            } else {
                bounded(-reading_error(expected, actual, m))
            },
            FitnessFunc::FitArithmeticSeries => bounded(
                -(total_gap(expected, actual, shorter(expected.len(), actual.len())) + 1000
                    * length_gap(expected.len(), actual.len())),
            ),
            FitnessFunc::FitBool => if actual.len() == 1 && ((expected[0] != 0) == (actual[0]
                != 0)) {
                0i64
            } else {
                -1i64
            },
        }
    }

    /// Scores what a program wrote against what was expected.
    pub fn score(
        self,
        expected: &Vec<Number>,
        actual: &Vec<Number>,
        runtime: &Runtime,
    ) -> (score: Fitness)
        requires
            self.accepts(expected@),
        ensures
            score == self.score_of(expected@, actual@, runtime@),
    {
        match self {
            FitnessFunc::DiffFirst => diff_first(expected, actual, runtime),
            FitnessFunc::DiffBest => diff_best(expected, actual, runtime),
            FitnessFunc::DiffOnly => diff_only(expected, actual, runtime),
            FitnessFunc::DiffFirstPromoteSingle => diff_first_promote_single(
                expected,
                actual,
                runtime,
            ),
            FitnessFunc::FitExactReading => fit_exact_reading(expected, actual, runtime),
            FitnessFunc::DiffFirstPromoteReading => diff_first_promote_reading(
                expected,
                actual,
                runtime,
            ),
            FitnessFunc::FitArithmeticSeries => fit_arithmetic_series(expected, actual, runtime),
            FitnessFunc::FitBool => fit_bool(expected, actual, runtime),
        }
    }
}

/// The sum of two scores, cut off at the extremes.
pub fn accumulate(total: Fitness, score: Fitness) -> (sum: Fitness)
    ensures
        sum == bounded(total + score),
{
    let wide = total as i128 + score as i128;
    if wide > i64::MAX as i128 {
        i64::MAX
    } else if wide < i64::MIN as i128 {
        i64::MIN
    } else {
        wide as i64
    }
}

} // verus!
