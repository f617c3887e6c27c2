//! That a loader reclaims from one pile at a time, told of the movements alone.
use vstd::prelude::*;

use crate::listing::flat;
use crate::optimisation::blended::formulation::base::{Formulation, Selector};
use crate::optimisation::blended::formulation::fleet::{cell_weighs, has_rate, moved, rate_is};
use crate::optimisation::blended::formulation::laws::{admits, whole_of};
use crate::optimisation::blended::formulation::loads::{model_in_parts, segment_count};
use crate::optimisation::blended::formulation::model::Column;
use crate::optimisation::blended::input::BlendInput;
use crate::optimisation::ids::{SourceId, StockpileId};
use crate::optimisation::input::IntervalRate;
use crate::optimisation::points::{
    feasible, feasible_each, feasible_joined, feasible_one, feasible_parts, feasible_single, joined_terms, kept, summed,
    weighed, weighs_one,
};
use crate::optimisation::sheet::{at_most_row, binary, nil, one};
use crate::scalar::{Fixed, Scalar, STEPS};

verus! {

/// What each candidate of a loader reclaims from a pile in a segment.
pub open spec fn lifted_from(
    input: &BlendInput<Fixed>,
    l: int,
    pile: StockpileId,
    i: int,
    s: int,
    point: spec_fn(Column) -> int,
) -> spec_fn(int) -> int {
    |c: int|
        if input.movements@[c].loader == input.loaders@[l].id && input.movements@[c].activity is Reclaim
            && input.movements@[c].source == SourceId::Stockpile(pile) {
            STEPS * moved(input, c, i, s, point)
        } else {
            0
        }
}

proof fn listed(input: &BlendInput<Fixed>, l: int, c: int, n: nat)
    requires
        0 <= c < n <= input.movements@.len(),
        input.movements@[c].loader == input.loaders@[l].id,
        input.movements@[c].activity is Reclaim,
        input.movements@[c].source is Stockpile,
    ensures
        whole_of(input).sources_to(l, n).contains(input.movements@[c].source->Stockpile_0),
    decreases n,
{
    let m = (n - 1) as nat;
    let pile = input.movements@[c].source->Stockpile_0;
    let before = whole_of(input).sources_to(l, m);
    let now = whole_of(input).sources_to(l, n);
    if c < m {
        listed(input, l, c, m);
        let k = choose|k: int| 0 <= k < before.len() && before[k] == pile;
        assert(now[k] == pile);
    } else if before.contains(pile) {
        assert(now == before);
    } else {
        assert(now[before.len() as int] == pile);
    }
}

/// Where nothing is chosen, nothing sums up.
proof fn chosen_or_nothing(n: nat, f: spec_fn(int) -> int) -> (c: int)
    requires
        summed(n, f) != 0,
    ensures
        0 <= c < n,
        f(c) != 0,
    decreases n,
{
    if f(n - 1) != 0 {
        n - 1
    } else {
        chosen_or_nothing((n - 1) as nat, f)
    }
}

/// The flags of two different places sum to no more than all of them.
proof fn two_of_all(
    whole: Formulation<Fixed>,
    l: int,
    piles: Seq<StockpileId>,
    i: int,
    s: int,
    n: nat,
    a: int,
    b: int,
    point: spec_fn(Column) -> int,
)
    requires
        n <= piles.len(),
        0 <= a < b < n,
        forall|x: int| 0 <= x < piles.len() ==> 0 <= point(#[trigger] whole.picked(l, piles[x], i, s)),
        whole.cell_terms(Selector::Reclaim { loader: l as usize, pile: piles[a] }, i, s).len() > 0,
        whole.cell_terms(Selector::Reclaim { loader: l as usize, pile: piles[b] }, i, s).len() > 0,
    ensures
        weighed(flat(n, whole.source_pick(l, piles, i, s)), point) >= STEPS * point(whole.picked(l, piles[a], i, s))
            + STEPS * point(whole.picked(l, piles[b], i, s)),
        flat(n, whole.source_pick(l, piles, i, s)).len() > 1,
    decreases n,
{
    let m = (n - 1) as nat;
    let f = whole.source_pick(l, piles, i, s);
    let before = flat(m, f);
    joined_terms(before, f(m as int), point);
    weighs_one(whole.picked(l, piles[m as int], i, s), one::<Fixed>(), point);
    assert(one::<Fixed>().0 == STEPS);
    assert(0 <= point(whole.picked(l, piles[m as int], i, s)));
    if b < m {
        two_of_all(whole, l, piles, i, s, m, a, b, point);
    } else {
        one_of_all(whole, l, piles, i, s, m, a, point);
    }
}

proof fn one_of_all(
    whole: Formulation<Fixed>,
    l: int,
    piles: Seq<StockpileId>,
    i: int,
    s: int,
    n: nat,
    a: int,
    point: spec_fn(Column) -> int,
)
    requires
        n <= piles.len(),
        0 <= a < n,
        forall|x: int| 0 <= x < piles.len() ==> 0 <= point(#[trigger] whole.picked(l, piles[x], i, s)),
        whole.cell_terms(Selector::Reclaim { loader: l as usize, pile: piles[a] }, i, s).len() > 0,
    ensures
        weighed(flat(n, whole.source_pick(l, piles, i, s)), point) >= STEPS * point(whole.picked(l, piles[a], i, s)),
        flat(n, whole.source_pick(l, piles, i, s)).len() > 0,
    decreases n,
{
    let m = (n - 1) as nat;
    let f = whole.source_pick(l, piles, i, s);
    let before = flat(m, f);
    joined_terms(before, f(m as int), point);
    weighs_one(whole.picked(l, piles[m as int], i, s), one::<Fixed>(), point);
    assert(one::<Fixed>().0 == STEPS);
    assert(0 <= point(whole.picked(l, piles[m as int], i, s)));
    if a < m {
        one_of_all(whole, l, piles, i, s, m, a, point);
    } else {
        not_below(whole, l, piles, i, s, m, point);
    }
}

proof fn not_below(
    whole: Formulation<Fixed>,
    l: int,
    piles: Seq<StockpileId>,
    i: int,
    s: int,
    n: nat,
    point: spec_fn(Column) -> int,
)
    requires
        n <= piles.len(),
        forall|x: int| 0 <= x < piles.len() ==> 0 <= point(#[trigger] whole.picked(l, piles[x], i, s)),
    ensures
        weighed(flat(n, whole.source_pick(l, piles, i, s)), point) >= 0,
    decreases n,
{
    let f = whole.source_pick(l, piles, i, s);
    if n == 0 {
        weighs_one(whole.picked(l, StockpileId(0), i, s), one::<Fixed>(), point);
    } else {
        let m = (n - 1) as nat;
        not_below(whole, l, piles, i, s, m, point);
        joined_terms(flat(m, f), f(m as int), point);
        weighs_one(whole.picked(l, piles[m as int], i, s), one::<Fixed>(), point);
        assert(one::<Fixed>().0 == STEPS);
        assert(0 <= point(whole.picked(l, piles[m as int], i, s)));
    }
}

/// A loader that has a rate does not reclaim from two piles in one segment.
pub proof fn one_pile_at_a_time(
    input: &BlendInput<Fixed>,
    l: int,
    i: int,
    s: int,
    rate: IntervalRate<Fixed>,
    a: StockpileId,
    b: StockpileId,
    point: spec_fn(Column) -> int,
)
    requires
        admits(input, point),
        0 <= l < input.loaders@.len() <= usize::MAX,
        0 <= i < input.intervals@.len() <= usize::MAX,
        0 <= s < segment_count(input),
        has_rate(input, l, i, rate),
        0 < rate.reclaim_tph.0,
        rate.reclaim_tph.times(whole_of(input).length(i)).0 > i64::MIN,
        a != b,
    ensures
        summed(input.movements@.len(), lifted_from(input, l, a, i, s, point)) <= 0 || summed(
            input.movements@.len(),
            lifted_from(input, l, b, i, s, point),
        ) <= 0,
{
    let whole = whole_of(input);
    let n = input.movements@.len();
    let (f, g) = (lifted_from(input, l, a, i, s, point), lifted_from(input, l, b, i, s, point));
    if summed(n, f) > 0 && summed(n, g) > 0 {
        let (c, d) = (chosen_or_nothing(n, f), chosen_or_nothing(n, g));
        listed(input, l, c, n);
        listed(input, l, d, n);
        let piles = whole.sources_to(l, n);
        let x = choose|x: int| 0 <= x < piles.len() && piles[x] == a;
        let y = choose|y: int| 0 <= y < piles.len() && piles[y] == b;
        rate_is(input, l, i, rate);
        model_in_parts(input, point);
        feasible_one(input.loaders@.len(), whole.source_lines(), l, point);
        feasible_one(whole.horizon(), whole.source_interval(l), i, point);
        let big = rate.reclaim_tph.times(whole.length(i));
        feasible_one(whole.segments as nat, whole.source_segment(l, i, big), s, point);
        let lines = flat(piles.len(), whole.source_line(l, piles, i, s, big));
        let picks = flat(piles.len(), whole.source_pick(l, piles, i, s));
        let last = if picks.len() > 1 {
            seq![at_most_row(picks, one::<Fixed>())]
        } else {
            Seq::empty()
        };
        assert(whole.source_segment(l, i, big)(s) == lines + last);
        feasible_parts(lines, last, point);
        let line = whole.source_line(l, piles, i, s, big);
        feasible_each(piles.len(), line, point);
        assert forall|z: int| 0 <= z < piles.len() implies 0 <= point(#[trigger] whole.picked(l, piles[z], i, s)) by {
            assert(feasible(line(z), point));
            flag_and_sum(input, l, piles, i, s, big, z, point);
        }
        assert(feasible(line(x), point));
        assert(feasible(line(y), point));
        flag_and_sum(input, l, piles, i, s, big, x, point);
        flag_and_sum(input, l, piles, i, s, big, y, point);
        if x < y {
            two_of_all(whole, l, piles, i, s, piles.len(), x, y, point);
        } else {
            two_of_all(whole, l, piles, i, s, piles.len(), y, x, point);
        }
        kept(last, 0, point);
        assert(one::<Fixed>().0 == STEPS);
    }
}

/// A flag is zero or one, and where anything is reclaimed from its pile it is one.
proof fn flag_and_sum(
    input: &BlendInput<Fixed>,
    l: int,
    piles: Seq<StockpileId>,
    i: int,
    s: int,
    big: Fixed,
    x: int,
    point: spec_fn(Column) -> int,
)
    requires
        0 <= l < input.loaders@.len() <= usize::MAX,
        0 <= i <= usize::MAX,
        0 <= x < piles.len(),
        big.0 > i64::MIN,
        feasible(whole_of(input).source_line(l, piles, i, s, big)(x), point),
    ensures
        ({
            let whole = whole_of(input);
            let flag = point(whole.picked(l, piles[x], i, s));
            let sum = summed(input.movements@.len(), lifted_from(input, l, piles[x], i, s, point));
            &&& flag == 0 || flag == STEPS
            &&& sum > 0 ==> flag == STEPS && whole.cell_terms(
                Selector::Reclaim { loader: l as usize, pile: piles[x] },
                i,
                s,
            ).len() > 0
        }),
{
    let whole = whole_of(input);
    let sel = Selector::Reclaim { loader: l as usize, pile: piles[x] };
    let flag = whole.picked(l, piles[x], i, s);
    let f = lifted_from(input, l, piles[x], i, s, point);
    assert(one::<Fixed>().0 == STEPS);
    cell_weighs(input, sel, i, s, f, point);
    let terms = whole.cell_terms(sel, i, s);
    let first = seq![(flag, big.opposite())];
    let row = at_most_row(first + terms, nil::<Fixed>());
    let rest = if terms.len() > 0 {
        seq![row]
    } else {
        Seq::empty()
    };
    feasible_joined(seq![binary(flag)], rest, point);
    feasible_single(binary(flag), point);
    feasible_single(row, point);
    joined_terms(first, terms, point);
    weighs_one(flag, big.opposite(), point);
    if point(flag) == 0 {
        let w = big.opposite().0 as int;
        assert(w * point(flag) == 0) by (nonlinear_arith)
            requires
                point(flag) == 0,
        ;
    }
}

} // verus!
