//! Points that a model admits.
//!
//! A point gives every column a value, in billionths, and rows are summed up
//! exactly, as whole numbers.
use vstd::prelude::*;

use crate::listing::flat;
use crate::optimisation::sheet::{at_most_row, less_one, nil, one, Line};
use crate::scalar::{Fixed, Scalar, STEPS};

verus! {

/// The weighted sum of a row, in billionths of billionths.
#[verifier::opaque]
pub open spec fn weighed<C>(terms: Seq<(C, Fixed)>, point: spec_fn(C) -> int) -> int
    decreases terms.len(),
{
    if terms.len() == 0 {
        0
    } else {
        weighed(terms.drop_last(), point) + terms.last().1.0 * point(terms.last().0)
    }
}

/// A point keeps to a line of a model.
pub open spec fn keeps<C>(line: Line<C, Fixed>, point: spec_fn(C) -> int) -> bool {
    match line {
        Line::Continuous { column, upper, value: _ } => 0 <= point(column) <= upper.0,
        Line::Binary { column } => point(column) == 0 || point(column) == STEPS,
        Line::Row { terms, lower, upper } => {
            &&& lower matches Some(bound) ==> bound.0 * STEPS <= weighed(terms, point)
            &&& upper matches Some(bound) ==> weighed(terms, point) <= bound.0 * STEPS
        },
        Line::Mix { pile: _, key: _, grade: _, recl_q, open_t, recl_t, open_q } => point(recl_q) * point(open_t) == point(
            recl_t,
        ) * point(open_q),
    }
}

/// A point keeps to every line.
#[verifier::opaque]
pub open spec fn feasible<C>(lines: Seq<Line<C, Fixed>>, point: spec_fn(C) -> int) -> bool {
    forall|i: int| 0 <= i < lines.len() ==> keeps(#[trigger] lines[i], point)
}

/// A point that keeps to lines keeps to their parts.
pub proof fn feasible_parts<C>(a: Seq<Line<C, Fixed>>, b: Seq<Line<C, Fixed>>, point: spec_fn(C) -> int)
    requires
        feasible(a + b, point),
    ensures
        feasible(a, point),
        feasible(b, point),
{
    reveal(feasible);
    assert forall|i: int| 0 <= i < a.len() implies keeps(#[trigger] a[i], point) by {
        assert((a + b)[i] == a[i]);
    }
    assert forall|i: int| 0 <= i < b.len() implies keeps(#[trigger] b[i], point) by {
        assert((a + b)[a.len() + i] == b[i]);
    }
}

/// A point that keeps to lines keeps to each.
pub proof fn kept<C>(lines: Seq<Line<C, Fixed>>, i: int, point: spec_fn(C) -> int)
    requires
        feasible(lines, point),
        0 <= i < lines.len(),
    ensures
        keeps(lines[i], point),
{
    reveal(feasible);
}

/// A point that keeps to a list of lists of lines keeps to each list.
pub proof fn feasible_one<C>(n: nat, f: spec_fn(int) -> Seq<Line<C, Fixed>>, i: int, point: spec_fn(C) -> int)
    requires
        feasible(flat(n, f), point),
        0 <= i < n,
    ensures
        feasible(f(i), point),
    decreases n,
{
    feasible_parts(flat((n - 1) as nat, f), f(n - 1), point);
    if i < n - 1 {
        feasible_one((n - 1) as nat, f, i, point);
    }
}

/// The sum of two terms.
pub proof fn two_terms<C>(terms: Seq<(C, Fixed)>, point: spec_fn(C) -> int)
    requires
        terms.len() == 2,
    ensures
        weighed(terms, point) == terms[0].1.0 * point(terms[0].0) + terms[1].1.0 * point(terms[1].0),
{
    reveal_with_fuel(weighed, 3);
    assert(terms.drop_last().drop_last().len() == 0);
}

/// What a row says of its first column, beside one other.
pub proof fn first_of_two<C>(a: C, b: C, weight: Fixed, bound: Fixed, point: spec_fn(C) -> int)
    requires
        keeps(at_most_row(seq![(a, one::<Fixed>()), (b, weight)], bound), point),
    ensures
        point(b) == 0 ==> point(a) <= bound.0,
        weight == less_one::<Fixed>() && bound == nil::<Fixed>() ==> point(a) <= point(b),
        point(b) == STEPS ==> point(a) <= bound.0 - weight.0,
{
    let terms = seq![(a, one::<Fixed>()), (b, weight)];
    two_terms(terms, point);
    let (x, y) = (point(a), point(b));
    let (w, limit) = (weight.0 as int, bound.0 as int);
    assert(1_000_000_000 * x + w * y <= limit * 1_000_000_000);
    if y == 0 {
        assert(w * y == 0) by (nonlinear_arith)
            requires
                y == 0,
        ;
    }
    if w == -1_000_000_000 {
        assert(w * y == -1_000_000_000 * y) by (nonlinear_arith)
            requires
                w == -1_000_000_000,
        ;
    }
    if y == 1_000_000_000 {
        assert(w * y == w * 1_000_000_000) by (nonlinear_arith)
            requires
                y == 1_000_000_000,
        ;
    }
}

/// What a row says of its first column, beside one that is nothing and one
/// that is whole.
pub proof fn first_of_three<C>(a: C, b: C, weight: Fixed, c: C, bound: Fixed, point: spec_fn(C) -> int)
    requires
        keeps(at_most_row(seq![(a, one::<Fixed>()), (b, weight), (c, bound)], bound), point),
        point(b) == 0,
        point(c) == STEPS,
    ensures
        point(a) <= 0,
{
    reveal(weighed);
    let terms = seq![(a, one::<Fixed>()), (b, weight), (c, bound)];
    assert(terms.drop_last() =~= seq![(a, one::<Fixed>()), (b, weight)]);
    two_terms(terms.drop_last(), point);
    assert(weight.0 * point(b) == 0) by (nonlinear_arith)
        requires
            point(b) == 0,
    ;
    assert(1_000_000_000 * point(a) + bound.0 * 1_000_000_000 <= bound.0 * 1_000_000_000);
}

/// Sums add up.
pub proof fn joined_terms<C>(a: Seq<(C, Fixed)>, b: Seq<(C, Fixed)>, point: spec_fn(C) -> int)
    ensures
        weighed(a + b, point) == weighed(a, point) + weighed(b, point),
    decreases b.len(),
{
    reveal(weighed);
    if b.len() == 0 {
        assert(a + b =~= a);
    } else {
        assert((a + b).drop_last() =~= a + b.drop_last());
        joined_terms(a, b.drop_last(), point);
    }
}

/// The sum of one column.
pub proof fn one_term<C>(a: C, point: spec_fn(C) -> int)
    ensures
        weighed(seq![(a, one::<Fixed>())], point) == STEPS * point(a),
{
    reveal_with_fuel(weighed, 2);
    let terms = seq![(a, one::<Fixed>())];
    assert(terms.drop_last() =~= Seq::empty());
    assert(one::<Fixed>().0 == STEPS);
}

/// The sum of one column less another.
pub proof fn difference<C>(a: C, b: C, point: spec_fn(C) -> int)
    ensures
        weighed(seq![(a, one::<Fixed>()), (b, less_one::<Fixed>())], point) == STEPS * point(a) - STEPS * point(b),
{
    let first = seq![(a, one::<Fixed>())];
    one_term(a, point);
    assert(first.push((b, less_one::<Fixed>())) =~= seq![(a, one::<Fixed>()), (b, less_one::<Fixed>())]);
    one_less(first, b, point);
}

/// A sum with a column taken off.
pub proof fn one_less<C>(terms: Seq<(C, Fixed)>, a: C, point: spec_fn(C) -> int)
    ensures
        weighed(terms.push((a, less_one::<Fixed>())), point) == weighed(terms, point) - STEPS * point(a),
{
    reveal(weighed);
    let longer = terms.push((a, less_one::<Fixed>()));
    assert(longer.drop_last() =~= terms);
    let (w, x) = (less_one::<Fixed>().0 as int, point(a));
    assert(w == -1_000_000_000);
    assert(w * x == -1_000_000_000 * x) by (nonlinear_arith)
        requires
            w == -1_000_000_000,
    ;
}

/// Where every column of a row is nothing, its sum is.
pub proof fn nothing_weighs_nothing<C>(terms: Seq<(C, Fixed)>, point: spec_fn(C) -> int)
    requires
        forall|i: int| 0 <= i < terms.len() ==> point((#[trigger] terms[i]).0) == 0,
    ensures
        weighed(terms, point) == 0,
    decreases terms.len(),
{
    reveal(weighed);
    if terms.len() > 0 {
        assert forall|i: int| 0 <= i < terms.drop_last().len() implies point((#[trigger] terms.drop_last()[i]).0) == 0 by {
            assert(terms.drop_last()[i] == terms[i]);
        }
        nothing_weighs_nothing(terms.drop_last(), point);
        let last = terms[terms.len() - 1];
        assert(last.1.0 * point(last.0) == 0) by (nonlinear_arith)
            requires
                point(last.0) == 0,
        ;
    }
}

/// The sum of the first `n` values.
pub open spec fn summed(n: nat, f: spec_fn(int) -> int) -> int
    decreases n,
{
    if n == 0 {
        0
    } else {
        summed((n - 1) as nat, f) + f(n - 1)
    }
}

/// Terms of weight one sum up their columns.
pub proof fn ones_weigh<C>(terms: Seq<(C, Fixed)>, n: nat, f: spec_fn(int) -> int, point: spec_fn(C) -> int)
    requires
        terms.len() == n,
        forall|i: int| 0 <= i < n ==> (#[trigger] terms[i]).1 == one::<Fixed>() && point(terms[i].0) == f(i),
    ensures
        weighed(terms, point) == STEPS * summed(n, f),
    decreases n,
{
    reveal(weighed);
    if n > 0 {
        let m = (n - 1) as nat;
        let fewer = terms.drop_last();
        assert forall|i: int| 0 <= i < m implies (#[trigger] fewer[i]).1 == one::<Fixed>() && point(fewer[i].0) == f(i) by {
            assert(fewer[i] == terms[i]);
        }
        ones_weigh(fewer, m, f, point);
        assert(terms[m as int].1 == one::<Fixed>());
        assert(weighed(terms, point) == weighed(fewer, point) + STEPS * f(m as int));
        assert(STEPS * (summed(m, f) + f(m as int)) == STEPS * summed(m, f) + STEPS * f(m as int));
    }
}

/// A point keeps to lines exactly where it keeps to their parts.
pub proof fn feasible_joined<C>(a: Seq<Line<C, Fixed>>, b: Seq<Line<C, Fixed>>, point: spec_fn(C) -> int)
    ensures
        feasible(a + b, point) == (feasible(a, point) && feasible(b, point)),
{
    if feasible(a + b, point) {
        feasible_parts(a, b, point);
    }
    reveal(feasible);
    if feasible(a, point) && feasible(b, point) {
        assert forall|i: int| 0 <= i < (a + b).len() implies keeps(#[trigger] (a + b)[i], point) by {
            if i < a.len() {
                assert(keeps(a[i], point));
            } else {
                assert(keeps(b[i - a.len()], point));
            }
        }
    }
}

/// A point keeps to one line exactly where it keeps to the list of it.
pub proof fn feasible_single<C>(line: Line<C, Fixed>, point: spec_fn(C) -> int)
    ensures
        feasible(seq![line], point) == keeps(line, point),
        feasible(Seq::<Line<C, Fixed>>::empty(), point),
{
    reveal(feasible);
    assert(seq![line][0] == line);
}

/// A point keeps to a list of lists of lines exactly where it keeps to each.
pub proof fn feasible_each<C>(n: nat, f: spec_fn(int) -> Seq<Line<C, Fixed>>, point: spec_fn(C) -> int)
    ensures
        feasible(flat(n, f), point) == (forall|i: int| 0 <= i < n ==> feasible(#[trigger] f(i), point)),
    decreases n,
{
    if n == 0 {
        reveal(feasible);
    } else {
        let m = (n - 1) as nat;
        feasible_each(m, f, point);
        feasible_joined(flat(m, f), f(m as int), point);
    }
}

/// The sum of terms that are listed in parts is the sum of the parts.
pub proof fn flat_weighs<C>(n: nat, terms: spec_fn(int) -> Seq<(C, Fixed)>, f: spec_fn(int) -> int, point: spec_fn(C) -> int)
    requires
        forall|i: int| 0 <= i < n ==> weighed(#[trigger] terms(i), point) == f(i),
    ensures
        weighed(flat(n, terms), point) == summed(n, f),
    decreases n,
{
    if n == 0 {
        reveal(weighed);
    } else {
        let m = (n - 1) as nat;
        flat_weighs(m, terms, f, point);
        joined_terms(flat(m, terms), terms(m as int), point);
        assert(weighed(terms(m as int), point) == f(m as int));
    }
}

/// The sum of one weighted column, and of none.
pub proof fn weighs_one<C>(a: C, weight: Fixed, point: spec_fn(C) -> int)
    ensures
        weighed(seq![(a, weight)], point) == weight.0 * point(a),
        weighed(Seq::<(C, Fixed)>::empty(), point) == 0,
{
    reveal_with_fuel(weighed, 2);
    let terms = seq![(a, weight)];
    assert(terms.drop_last() =~= Seq::empty());
}

/// Sums of equal values are equal.
pub proof fn summed_same(n: nat, f: spec_fn(int) -> int, g: spec_fn(int) -> int)
    requires
        forall|i: int| 0 <= i < n ==> #[trigger] f(i) == g(i),
    ensures
        summed(n, f) == summed(n, g),
    decreases n,
{
    if n > 0 {
        summed_same((n - 1) as nat, f, g);
    }
}

/// Multiples sum up to the multiple.
pub proof fn summed_scaled(n: nat, f: spec_fn(int) -> int, g: spec_fn(int) -> int, k: int)
    requires
        forall|i: int| 0 <= i < n ==> #[trigger] f(i) == k * g(i),
    ensures
        summed(n, f) == k * summed(n, g),
    decreases n,
{
    if n > 0 {
        let m = (n - 1) as nat;
        summed_scaled(m, f, g, k);
        assert(f(m as int) == k * g(m as int));
        assert(k * (summed(m, g) + g(m as int)) == k * summed(m, g) + k * g(m as int)) by (nonlinear_arith);
    } else {
        assert(k * 0 == 0) by (nonlinear_arith);
    }
}

/// Sums of lesser values are no greater.
pub proof fn summed_within(n: nat, f: spec_fn(int) -> int, g: spec_fn(int) -> int)
    requires
        forall|i: int| 0 <= i < n ==> #[trigger] f(i) <= g(i),
    ensures
        summed(n, f) <= summed(n, g),
    decreases n,
{
    if n > 0 {
        summed_within((n - 1) as nat, f, g);
    }
}

} // verus!
