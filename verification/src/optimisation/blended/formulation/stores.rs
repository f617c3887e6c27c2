//! What holds of piles, of the blends that are taken from them and of what is
//! paid for them at every point that a model admits, told of the movements
//! alone.
use vstd::prelude::*;

use crate::listing::{key_is, last_where};
use crate::optimisation::blended::formulation::base::Selector;
use crate::optimisation::blended::formulation::fleet::{moved, runs_is};
use crate::optimisation::blended::formulation::laws::whole_of;
use crate::optimisation::blended::formulation::loads::segment_count;
use crate::optimisation::blended::formulation::model::Column;
use crate::optimisation::blended::formulation::quality::{grade_margin, side_row};
use crate::optimisation::blended::input::{delivers, BlendInput, GradeHalfSpace};
use crate::optimisation::ids::{DestinationKind, SourceId, StockpileId};
use crate::optimisation::points::{
    difference, feasible, flat_weighs, joined_terms, keeps, kept, one_term, summed, summed_scaled, two_terms, weighed,
    weighs_one,
};
use crate::optimisation::sheet::{less_one, one};
use crate::scalar::{shrunk, Fixed, Scalar, STEPS};

verus! {

/// The last destination that candidate `c` names is a pile.
pub open spec fn ends_on(input: &BlendInput<Fixed>, c: int, pile: StockpileId) -> bool {
    exists|d: int|
        {
            &&& 0 <= d < input.destinations@.len()
            &&& (#[trigger] input.destinations@[d]).id == input.movements@[c].destination
            &&& input.destinations@[d].kind == DestinationKind::Stockpile(pile)
            &&& forall|e: int|
                d < e < input.destinations@.len() ==> (#[trigger] input.destinations@[e]).id
                    != input.movements@[c].destination
        }
}

/// Candidate `c` reclaims from a pile.
pub open spec fn lifts(input: &BlendInput<Fixed>, c: int, pile: StockpileId) -> bool {
    input.movements@[c].activity is Reclaim && input.movements@[c].source == SourceId::Stockpile(pile)
}

proof fn last_found(n: nat, p: spec_fn(int) -> bool)
    ensures
        last_where(n, p) matches Some(k) ==> 0 <= k < n && p(k) && forall|j: int| k < j < n ==> !#[trigger] p(j),
        last_where(n, p) is None ==> forall|j: int| 0 <= j < n ==> !#[trigger] p(j),
    decreases n,
{
    if n > 0 && !p(n - 1) {
        last_found((n - 1) as nat, p);
    }
}

proof fn ends_is(input: &BlendInput<Fixed>, c: int, pile: StockpileId)
    ensures
        delivers(input.movements@[c], pile, input.destinations@) == ends_on(input, c, pile),
{
    let destinations = input.destinations@;
    let name = input.movements@[c].destination;
    let same = key_is(destinations, name.0);
    last_found(destinations.len(), same);
    if let Some(d) = last_where(destinations.len(), same) {
        assert(same(d));
        assert forall|e: int| d < e < destinations.len() implies (#[trigger] destinations[e]).id != name by {
            assert(!same(e));
        }
    }
    if ends_on(input, c, pile) {
        let d = choose|d: int|
            {
                &&& 0 <= d < destinations.len()
                &&& (#[trigger] destinations[d]).id == name
                &&& destinations[d].kind == DestinationKind::Stockpile(pile)
                &&& forall|e: int| d < e < destinations.len() ==> (#[trigger] destinations[e]).id != name
            };
        assert(same(d));
        let x = last_where(destinations.len(), same)->0;
        assert(same(x));
        assert(destinations[x].id == name);
        assert(x == d);
    }
}

/// What candidate `c` moves in each segment of interval `k`.
pub open spec fn in_segments(input: &BlendInput<Fixed>, c: int, k: int, point: spec_fn(Column) -> int) -> spec_fn(
    int,
) -> int {
    |s: int| moved(input, c, k, s, point)
}

/// What candidate `c` moves in the first `n` segments of interval `k`.
pub open spec fn in_first(input: &BlendInput<Fixed>, c: int, k: int, n: nat, point: spec_fn(Column) -> int) -> int {
    summed(n, in_segments(input, c, k, point))
}

/// A run of a candidate weighs what it moves.
pub proof fn run_sums(input: &BlendInput<Fixed>, c: int, k: int, n: nat, weight: Fixed, point: spec_fn(Column) -> int)
    requires
        0 <= c < input.movements@.len(),
        0 <= k <= usize::MAX,
    ensures
        whole_of(input).moves(c, k) ==> weighed(
            Seq::new(n, |s: int| (whole_of(input).movement(c, k, s), weight)),
            point,
        ) == weight.0 * in_first(input, c, k, n, point),
        !whole_of(input).moves(c, k) ==> in_first(input, c, k, n, point) == 0,
    decreases n,
{
    reveal(weighed);
    runs_is(input, c, k);
    let whole = whole_of(input);
    let terms = Seq::new(n, |s: int| (whole.movement(c, k, s), weight));
    if n > 0 {
        let m = (n - 1) as nat;
        run_sums(input, c, k, m, weight, point);
        let fewer = Seq::new(m, |s: int| (whole.movement(c, k, s), weight));
        assert(terms.drop_last() =~= fewer);
        let (a, b) = (in_first(input, c, k, m, point), moved(input, c, k, m as int, point));
        assert(weight.0 * (a + b) == weight.0 * a + weight.0 * b) by (nonlinear_arith);
    } else {
        assert(weight.0 * 0 == 0) by (nonlinear_arith);
    }
}

/// A sum over the first segments of an interval is the sum over its movements.
proof fn runs_sum(
    input: &BlendInput<Fixed>,
    sel: Selector,
    k: int,
    n: nat,
    f: spec_fn(int) -> int,
    point: spec_fn(Column) -> int,
)
    requires
        0 <= k <= usize::MAX,
        forall|c: int|
            0 <= c < input.movements@.len() ==> #[trigger] f(c) == (match whole_of(input).weight(sel, c) {
                Some(weight) => weight.0 * in_first(input, c, k, n, point),
                None => 0,
            }),
    ensures
        weighed(whole_of(input).run_terms(sel, k, n), point) == summed(input.movements@.len(), f),
{
    let whole = whole_of(input);
    let terms = whole.run_term(sel, k, n);
    assert forall|c: int| 0 <= c < input.movements@.len() implies weighed(#[trigger] terms(c), point) == f(c) by {
        assert(f(c) == f(c));
        weighs_one(whole.movement(c, k, 0), one::<Fixed>(), point);
        if let Some(weight) = whole.weight(sel, c) {
            run_sums(input, c, k, n, weight, point);
            assert(weight.0 * 0 == 0) by (nonlinear_arith);
        }
    }
    flat_weighs(input.movements@.len(), terms, f, point);
}

/// What each candidate brings to a pile in an interval.
pub open spec fn brought(input: &BlendInput<Fixed>, p: int, k: int, point: spec_fn(Column) -> int) -> spec_fn(int) -> int {
    |c: int|
        if ends_on(input, c, input.piles@[p].id) {
            in_first(input, c, k, segment_count(input), point)
        } else {
            0
        }
}

/// What each candidate brings to a pile of a grade in an interval.
pub open spec fn grade_brought(input: &BlendInput<Fixed>, p: int, k: int, g: int, point: spec_fn(Column) -> int) -> spec_fn(
    int,
) -> int {
    |c: int|
        if ends_on(input, c, input.piles@[p].id) {
            match input.grades.fraction_at(input.movements@[c].material, g) {
                Some(fraction) => fraction.0 * in_first(input, c, k, segment_count(input), point),
                None => 0,
            }
        } else {
            0
        }
}

/// What each candidate takes from a pile in an interval.
pub open spec fn lifted(input: &BlendInput<Fixed>, p: int, k: int, point: spec_fn(Column) -> int) -> spec_fn(int) -> int {
    |c: int|
        if lifts(input, c, input.piles@[p].id) {
            in_first(input, c, k, segment_count(input), point)
        } else {
            0
        }
}

/// What a pile holds at the start of an interval.
pub open spec fn opens(input: &BlendInput<Fixed>, p: int, k: int, point: spec_fn(Column) -> int) -> int {
    point(Column::OpenT { pile: input.piles@[p].id, interval: k as usize })
}

/// What is taken from a pile in an interval.
pub open spec fn gives(input: &BlendInput<Fixed>, p: int, k: int, point: spec_fn(Column) -> int) -> int {
    point(Column::ReclT { pile: input.piles@[p].id, interval: k as usize })
}

/// The row of what a pile without chunks takes in holds exactly where it starts
/// with its opening, and each later interval with what it held at the start of
/// the one before, with what came and without what went; and the row of what it
/// gives exactly where that is what is moved out of it.
pub proof fn pile_rows(input: &BlendInput<Fixed>, p: int, k: int, point: spec_fn(Column) -> int)
    requires
        0 <= p < input.piles@.len(),
        0 <= k < input.intervals@.len() <= usize::MAX,
    ensures
        keeps(whole_of(input).tonnes_balance(p, k), point) == (opens(input, p, k, point) == (if k == 0 {
            input.piles@[p].opening_t.0 as int
        } else {
            opens(input, p, k - 1, point) + summed(input.movements@.len(), brought(input, p, k - 1, point)) - gives(
                input,
                p,
                k - 1,
                point,
            )
        })),
        keeps(whole_of(input).taken_row(p, k), point) == (gives(input, p, k, point) == summed(
            input.movements@.len(),
            lifted(input, p, k, point),
        )),
{
    let whole = whole_of(input);
    let n = input.movements@.len();
    let pile = input.piles@[p].id;
    assert(one::<Fixed>().0 == 1_000_000_000 && less_one::<Fixed>().0 == -1_000_000_000);
    let (open, given) = (whole.open_t(p, k), whole.recl_t(p, k));
    one_term(open, point);
    one_term(given, point);
    let take = Selector::Take { pile };
    let out = lifted(input, p, k, point);
    let less_out = |c: int| -1_000_000_000 * out(c);
    runs_sum(input, take, k, whole.segments as nat, less_out, point);
    summed_scaled(n, less_out, out, -1_000_000_000);
    joined_terms(seq![(given, one::<Fixed>())], whole.run_terms(take, k, whole.segments as nat), point);
    if k > 0 {
        let (prior, gone) = (whole.open_t(p, k - 1), whole.recl_t(p, k - 1));
        let bring = Selector::Bring { pile };
        let into = brought(input, p, k - 1, point);
        let less_in = |c: int| -1_000_000_000 * into(c);
        assert forall|c: int| 0 <= c < n implies #[trigger] less_in(c) == (match whole.weight(bring, c) {
            Some(weight) => weight.0 * in_first(input, c, k - 1, whole.segments as nat, point),
            None => 0,
        }) by {
            ends_is(input, c, pile);
        }
        runs_sum(input, bring, k - 1, whole.segments as nat, less_in, point);
        summed_scaled(n, less_in, into, -1_000_000_000);
        let first = seq![(open, one::<Fixed>()), (prior, less_one::<Fixed>())];
        let middle = whole.run_terms(bring, k - 1, whole.segments as nat);
        let last = seq![(gone, one::<Fixed>())];
        assert((first + middle).push((gone, one::<Fixed>())) =~= (first + middle) + last);
        joined_terms(first + middle, last, point);
        joined_terms(first, middle, point);
        difference(open, prior, point);
        one_term(gone, point);
    }
}

/// What a pile holds of a grade at the start of an interval.
pub open spec fn opens_of(input: &BlendInput<Fixed>, p: int, k: int, g: int, point: spec_fn(Column) -> int) -> int {
    point(Column::OpenQ { pile: input.piles@[p].id, interval: k as usize, grade: g as usize })
}

/// What is taken from a pile of a grade in an interval.
pub open spec fn gives_of(input: &BlendInput<Fixed>, p: int, k: int, g: int, point: spec_fn(Column) -> int) -> int {
    point(Column::ReclQ { pile: input.piles@[p].id, interval: k as usize, grade: g as usize })
}

/// The row of a grade of a pile without chunks holds exactly where the pile holds
/// of it, at the start of an interval, what it held at the start of the one
/// before, with the fractions of what came and without what went of it.
pub proof fn grade_rows(input: &BlendInput<Fixed>, p: int, k: int, g: int, point: spec_fn(Column) -> int)
    requires
        0 <= p < input.piles@.len(),
        0 < k < input.intervals@.len() <= usize::MAX,
        0 <= g < input.grades.fields@.len() <= usize::MAX,
        forall|c: int|
            0 <= c < input.movements@.len() ==> (input.grades.fraction_at(
                (#[trigger] input.movements@[c]).material,
                g,
            ) matches Some(fraction) ==> fraction.0 > i64::MIN),
    ensures
        keeps(whole_of(input).grade_balance(p, k)(g)[0], point) == (STEPS * opens_of(input, p, k, g, point) == STEPS
            * opens_of(input, p, k - 1, g, point) + summed(
            input.movements@.len(),
            grade_brought(input, p, k - 1, g, point),
        ) - STEPS * gives_of(input, p, k - 1, g, point)),
{
    let whole = whole_of(input);
    let n = input.movements@.len();
    let pile = input.piles@[p].id;
    let (open, prior, gone) = (whole.open_q(p, k, g), whole.open_q(p, k - 1, g), whole.recl_q(p, k - 1, g));
    let bring = Selector::BringGrade { pile, grade: g as usize };
    let into = grade_brought(input, p, k - 1, g, point);
    let less_in = |c: int| -1 * into(c);
    assert forall|c: int| 0 <= c < n implies #[trigger] less_in(c) == (match whole.weight(bring, c) {
        Some(weight) => weight.0 * in_first(input, c, k - 1, whole.segments as nat, point),
        None => 0,
    }) by {
        ends_is(input, c, pile);
        if let Some(fraction) = input.grades.fraction_at(input.movements@[c].material, g) {
            let (f, x) = (fraction.0 as int, in_first(input, c, k - 1, whole.segments as nat, point));
            assert((-f) * x == -1 * (f * x)) by (nonlinear_arith);
        }
    }
    runs_sum(input, bring, k - 1, whole.segments as nat, less_in, point);
    summed_scaled(n, less_in, into, -1);
    let first = seq![(open, one::<Fixed>()), (prior, less_one::<Fixed>())];
    let middle = whole.run_terms(bring, k - 1, whole.segments as nat);
    let last = seq![(gone, one::<Fixed>())];
    assert((first + middle).push((gone, one::<Fixed>())) =~= (first + middle) + last);
    joined_terms(first + middle, last, point);
    joined_terms(first, middle, point);
    difference(open, prior, point);
    one_term(gone, point);
}

// Blends.

proof fn three_terms(a: (Column, Fixed), b: (Column, Fixed), c: (Column, Fixed), point: spec_fn(Column) -> int)
    ensures
        weighed(seq![a, b, c], point) == a.1.0 * point(a.0) + b.1.0 * point(b.0) + c.1.0 * point(c.0),
{
    let first = seq![a, b];
    let last = seq![c];
    assert(seq![a, b, c] =~= first + last);
    joined_terms(first, last, point);
    two_terms(first, point);
    weighs_one(c.0, c.1, point);
}

/// How far past an endpoint a blend has to be: a millionth, and two where the
/// endpoint itself does not count.
pub open spec fn margin_of(inclusive: bool) -> int {
    if inclusive {
        1_000
    } else {
        2_000
    }
}

/// A side that is flagged holds of what is taken: what is taken of the grade is
/// past the endpoint times what is taken, by a margin.
pub proof fn flagged_sides_hold(
    flag: Column,
    recl_q: Column,
    recl_t: Column,
    side: GradeHalfSpace<Fixed>,
    ceiling: Fixed,
    most: Fixed,
    point: spec_fn(Column) -> int,
)
    requires
        keeps(side_row(flag, recl_q, recl_t, side, ceiling, most), point),
        point(flag) == STEPS,
        -1_000_000_000_000_000 < side.endpoint.value.0 < 1_000_000_000_000_000,
        0 <= most.0,
        0 <= ceiling.0,
        0 <= point(recl_t),
    ensures
        side.above ==> STEPS * point(recl_q) >= (side.endpoint.value.0 + margin_of(side.endpoint.inclusive)) * point(
            recl_t,
        ),
        !side.above ==> STEPS * point(recl_q) <= (side.endpoint.value.0 - margin_of(side.endpoint.inclusive)) * point(
            recl_t,
        ),
{
    reveal_with_fuel(shrunk, 10);
    let margin = grade_margin::<Fixed>(side.endpoint.inclusive);
    let (q, t, v) = (point(recl_q), point(recl_t), side.endpoint.value.0 as int);
    assert(one::<Fixed>().0 == 1_000_000_000);
    assert(Fixed::of_decimal(1, 6).0 == 1_000);
    assert(Fixed::of_whole(2).0 == 2_000_000_000);
    assert(Fixed::of_whole(2).times(Fixed::of_decimal(1, 6)).0 == 2_000);
    assert(margin.0 == margin_of(side.endpoint.inclusive));
    let row = side_row(flag, recl_q, recl_t, side, ceiling, most);
    let terms = row->terms;
    assert(terms.len() == 3);
    three_terms(terms[0], terms[1], terms[2], point);
    assert(terms =~= seq![terms[0], terms[1], terms[2]]);
    let big = terms[2].1.0 as int;
    assert(big * 1_000_000_000 == 1_000_000_000 * big);
    if side.above {
        let threshold = side.endpoint.value.plus(margin);
        assert(threshold.0 == v + margin.0);
        let w = threshold.0 as int;
        assert((-w) * t == -(w * t)) by (nonlinear_arith);
    } else {
        let threshold = side.endpoint.value.minus(margin);
        assert(threshold.0 == v - margin.0);
        let w = threshold.0 as int;
        assert((-w) * t == -(w * t)) by (nonlinear_arith);
    }
}

// Payments.

/// What is paid for is what is moved where the payment's ranges hold, and
/// nothing where they do not.
pub proof fn payments_are_due(
    input: &BlendInput<Fixed>,
    j: int,
    c: int,
    k: int,
    s: int,
    big: Fixed,
    point: spec_fn(Column) -> int,
)
    requires
        feasible(whole_of(input).paid_line(j, c, k, big)(s), point),
        big.0 > i64::MIN,
    ensures
        ({
            let paid = point(Column::Paid { payment: j as usize, interval: k as usize, segment: s as usize });
            let truth = point(Column::Truth { payment: j as usize, interval: k as usize });
            let tonnes = point(Column::Movement { candidate: c as usize, interval: k as usize, segment: s as usize });
            &&& truth == STEPS ==> paid == tonnes
            &&& truth == 0 ==> paid == 0
        }),
{
    let whole = whole_of(input);
    let paid = Column::Paid { payment: j as usize, interval: k as usize, segment: s as usize };
    let (moves, truth) = (whole.movement(c, k, s), whole.truth(j, k));
    let lines = whole.paid_line(j, c, k, big)(s);
    kept(lines, 0, point);
    kept(lines, 1, point);
    kept(lines, 2, point);
    kept(lines, 3, point);
    difference(paid, moves, point);
    let b = big.0 as int;
    let pair = seq![(paid, one::<Fixed>()), (truth, big.opposite())];
    two_terms(pair, point);
    three_terms((paid, one::<Fixed>()), (moves, less_one::<Fixed>()), (truth, big.opposite()), point);
    let (x, y, z) = (point(paid), point(moves), point(truth));
    let (o, l) = (one::<Fixed>().0 as int, less_one::<Fixed>().0 as int);
    assert(o * x == 1_000_000_000 * x && l * y == -1_000_000_000 * y) by (nonlinear_arith)
        requires
            o == 1_000_000_000,
            l == -1_000_000_000,
    ;
    assert((-b) * z == -(b * z)) by (nonlinear_arith);
    if z == 0 {
        assert(b * z == 0) by (nonlinear_arith)
            requires
                z == 0,
        ;
    }
    if z == 1_000_000_000 {
        assert(b * z == 1_000_000_000 * b) by (nonlinear_arith)
            requires
                z == 1_000_000_000,
        ;
    }
}

} // verus!
