//! How estimated blends are corrected, compared and first guessed, told of the
//! blends alone.
use vstd::prelude::*;

use crate::ledger::{held_under, put_reads_back, rising, Key, Pair};
use crate::listing::folded;
use crate::optimisation::blended::estimates::{
    added_step, brings, damp_step, damped, drift_step, drifted, estimate, fixed_line, floor_step, peak_step,
    supply_ceiling, supply_floor, supply_fraction, updated,
};
use crate::optimisation::blended::formulation::model::{Column, Line};
use crate::optimisation::blended::report::BlendKey;
use crate::optimisation::blended::input::BlendInput;
use crate::optimisation::points::{keeps, two_terms};
use crate::optimisation::sheet::{equal_row, nil, one};
use crate::scalar::{quotient, shrunk, size, Fixed, Scalar, STEPS};

verus! {

/// A corrected estimate is half way between what was estimated and what came of
/// it, to a billionth.
pub proof fn corrections_go_half_way(previous: Fixed, actual: Fixed)
    requires
        size(previous.0 as int) < 1_000_000_000_000_000_000,
        size(actual.0 as int) < 1_000_000_000_000_000_000,
    ensures
        size(2 * damped(previous, actual).0 - previous.0 - actual.0) <= 1,
{
    reveal_with_fuel(shrunk, 10);
    assert(Fixed::of_decimal(5, 1).0 == 500_000_000);
    let gap = actual.0 - previous.0;
    let half = quotient(500_000_000 * gap, STEPS as int);
    if gap >= 0 {
        assert(half == (500_000_000 * gap) / 1_000_000_000);
    } else {
        assert(half == -((500_000_000 * -gap) / 1_000_000_000));
    }
    assert(size(2 * half - gap) <= 1);
}

/// Every blend that was replayed corrects its estimate, and every other estimate
/// stays.
pub proof fn replayed_blends_correct(
    values: Seq<(BlendKey, Fixed)>,
    fallback: Seq<Fixed>,
    blends: Seq<(BlendKey, Fixed)>,
    n: nat,
    i: int,
    other: BlendKey,
)
    requires
        rising(values),
        rising(blends),
        n <= blends.len(),
    ensures
        ({
            let now = folded(n, values, damp_step(values, fallback, blends));
            &&& rising(now)
            &&& 0 <= i < n ==> held_under(now, blends[i].0) == Some(
                damped(estimate(values, fallback, blends[i].0), blends[i].1),
            )
            &&& (forall|j: int| 0 <= j < n ==> (#[trigger] blends[j]).0 != other) ==> held_under(now, other)
                == held_under(values, other)
        }),
        n == blends.len() ==> updated(values, fallback, blends) == folded(n, values, damp_step(values, fallback, blends)),
    decreases n,
{
    if n > 0 {
        let m = (n - 1) as nat;
        replayed_blends_correct(values, fallback, blends, m, i, other);
        let before = folded(m, values, damp_step(values, fallback, blends));
        let (key, value) = (
            blends[m as int].0,
            damped(estimate(values, fallback, blends[m as int].0), blends[m as int].1),
        );
        put_reads_back(before, key, value, other);
        if 0 <= i < m {
            put_reads_back(before, key, value, blends[i].0);
            assert(blends[i].0.before(blends[m as int].0));
            BlendKey::key_laws(blends[i].0, blends[m as int].0, blends[i].0);
        }
    }
}

// Drift.

/// How far a value is from what others say under its key: nothing where they do
/// not speak of it.
pub open spec fn strays(values: Seq<(BlendKey, Fixed)>, others: Seq<(BlendKey, Fixed)>, i: int) -> int {
    match held_under(others, values[i].0) {
        Some(other) => values[i].1.minus(other).magnitude().0 as int,
        None => 0,
    }
}

/// Two sets of estimates have drifted apart by the most that any value is from
/// what the others say under its key: no less than each, and no more than any
/// bound on all of them.
pub proof fn drift_is_the_most(values: Seq<(BlendKey, Fixed)>, others: Seq<(BlendKey, Fixed)>, i: int, most: int)
    requires
        0 <= most,
        forall|k: int| 0 <= k < values.len() ==> #[trigger] strays(values, others, k) <= most,
    ensures
        0 <= drifted(values, others).0 <= most,
        0 <= i < values.len() ==> strays(values, others, i) <= drifted(values, others).0,
{
    let f = |k: int| strays(values, others, k);
    let first = drift_step(values, others);
    assert forall|worst: Fixed, k: int| 0 <= k < values.len() && 0 <= worst.0 implies (#[trigger] first(worst, k)).0 == (
    if worst.0 < f(k) {
        f(k)
    } else {
        worst.0 as int
    }) by {}
    folds_up(values.len(), Fixed(0), first, f, i, most);
    let start = folded(values.len(), Fixed::of_whole(0), first);
    let none = |k: int| 0int;
    let second = added_step(values, others);
    assert forall|worst: Fixed, k: int| 0 <= k < others.len() && 0 <= worst.0 implies (#[trigger] second(worst, k)).0 == (
    if worst.0 < none(k) {
        none(k)
    } else {
        worst.0 as int
    }) by {}
    folds_up(others.len(), start, second, none, -1, most);
}

proof fn folds_up(n: nat, start: Fixed, step: spec_fn(Fixed, int) -> Fixed, f: spec_fn(int) -> int, at: int, most: int)
    requires
        forall|worst: Fixed, k: int|
            0 <= k < n && 0 <= worst.0 ==> (#[trigger] step(worst, k)).0 == (if worst.0 < f(k) {
                f(k)
            } else {
                worst.0 as int
            }),
        0 <= start.0 <= most,
        forall|k: int| 0 <= k < n ==> #[trigger] f(k) <= most,
    ensures
        start.0 <= folded(n, start, step).0 <= most,
        0 <= at < n ==> f(at) <= folded(n, start, step).0,
    decreases n,
{
    if n > 0 {
        let m = (n - 1) as nat;
        folds_up(m, start, step, f, at, most);
        assert(f(m as int) <= most);
    }
}

// Fixed blends.

/// A mixing line with an estimate in its place holds exactly where what is taken
/// of the grade is the estimate of what is taken.
pub proof fn fixed_blends_hold(
    values: Seq<(BlendKey, Fixed)>,
    fallback: Seq<Fixed>,
    line: Line<Fixed>,
    point: spec_fn(Column) -> int,
)
    requires
        line is Mix,
        estimate(values, fallback, Pair(line->pile, Pair(line->key, line->grade))).0 > i64::MIN,
    ensures
        keeps(fixed_line(values, fallback, line), point) == (STEPS * point(line->recl_q) == estimate(
            values,
            fallback,
            Pair(line->pile, Pair(line->key, line->grade)),
        ).0 * point(line->recl_t)),
{
    let guess = estimate(
        values,
        fallback,
        Pair(line->pile, Pair(line->key, line->grade)),
    );
    let terms = seq![(line->recl_q, one::<Fixed>()), (line->recl_t, guess.opposite())];
    two_terms(terms, point);
    let (o, x, g, y) = (one::<Fixed>().0 as int, point(line->recl_q), guess.0 as int, point(line->recl_t));
    assert(o * x == 1_000_000_000 * x) by (nonlinear_arith)
        requires
            o == 1_000_000_000,
    ;
    assert((-g) * y == -(g * y)) by (nonlinear_arith);
    assert(fixed_line(values, fallback, line) == equal_row(terms, nil::<Fixed>()));
}

// First guesses.

/// The lowest guess is no more, and the highest no less, than the fraction of any
/// material that some candidate brings to a pile.
pub proof fn guesses_bracket_supply(input: BlendInput<Fixed>, g: int, c: int)
    requires
        0 <= c < input.movements@.len(),
        brings(input.destinations@, input.movements@[c].destination),
        0 <= supply_fraction(input, c, g).0 < i64::MAX,
        forall|k: int| 0 <= k < input.movements@.len() ==> 0 <= #[trigger] supply_fraction(input, k, g).0,
    ensures
        supply_floor(input, g).0 <= supply_fraction(input, c, g).0 <= supply_ceiling(input, g).0,
{
    let n = input.movements@.len();
    let most = |k: int|
        if brings(input.destinations@, input.movements@[k].destination) {
            supply_fraction(input, k, g).0 as int
        } else {
            0
        };
    folds_up(n, Fixed(0), peak_step(input, g), most, c, i64::MAX as int);
    folds_down(input, g, n, c);
}

proof fn folds_down(input: BlendInput<Fixed>, g: int, n: nat, c: int)
    requires
        n <= input.movements@.len(),
        forall|k: int| 0 <= k < n ==> 0 <= #[trigger] supply_fraction(input, k, g).0,
    ensures
        ({
            let least = folded(n, Fixed::of_infinity(), floor_step(input, g));
            &&& 0 <= least.0
            &&& 0 <= c < n && brings(input.destinations@, input.movements@[c].destination) ==> least.0
                <= supply_fraction(input, c, g).0
        }),
    decreases n,
{
    if n > 0 {
        folds_down(input, g, (n - 1) as nat, c);
        assert(0 <= supply_fraction(input, n - 1, g).0);
    }
}

} // verus!
