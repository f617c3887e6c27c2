//! When a task has work, at every point that keeps to the rows of its readiness,
//! told of blocks and piles alone.
use vstd::prelude::*;

use crate::listing::{flat, keyed};
use crate::optimisation::blended::formulation::base::Selector;
use crate::optimisation::blended::formulation::laws::whole_of;
use crate::optimisation::blended::formulation::loads::segment_count;
use crate::optimisation::blended::formulation::model::Column;
use crate::optimisation::blended::formulation::stores::{in_first, run_sums};
use crate::optimisation::blended::input::BlendInput;
use crate::optimisation::ids::{GroundId, SourceId, StockpileId};
use crate::optimisation::input::TaskKind;
use crate::optimisation::points::{
    difference, feasible, feasible_each, feasible_joined, feasible_single, flat_weighs, joined_terms, kept, one_term,
    summed, summed_same, summed_scaled, two_terms, weighed, weighs_one,
};
use crate::optimisation::sheet::{at_least_row, at_most_row, binary, equal_row, less_one, nil, one};
use crate::scalar::{Fixed, Scalar, STEPS};

verus! {

/// Each of a list of columns.
spec fn values(flags: Seq<Column>, point: spec_fn(Column) -> int) -> spec_fn(int) -> int {
    |r: int| point(flags[r])
}

proof fn flags_weigh(input: &BlendInput<Fixed>, flags: Seq<Column>, weight: Fixed, point: spec_fn(Column) -> int)
    ensures
        weighed(whole_of(input).flag_terms(flags, weight), point) == weight.0 * summed(flags.len(), values(flags, point)),
    decreases flags.len(),
{
    reveal(weighed);
    let terms = whole_of(input).flag_terms(flags, weight);
    if flags.len() == 0 {
        assert(weight.0 * 0 == 0) by (nonlinear_arith);
    } else {
        let fewer = flags.drop_last();
        let m = fewer.len();
        flags_weigh(input, fewer, weight, point);
        assert(terms.drop_last() =~= whole_of(input).flag_terms(fewer, weight));
        summed_same(m, values(fewer, point), values(flags, point));
        let (a, b) = (summed(m, values(flags, point)), point(flags[m as int]));
        assert(weight.0 * (a + b) == weight.0 * a + weight.0 * b) by (nonlinear_arith);
    }
}

proof fn sum_of_flags(flags: Seq<Column>, n: nat, point: spec_fn(Column) -> int)
    requires
        n <= flags.len(),
        forall|r: int| 0 <= r < flags.len() ==> point(#[trigger] flags[r]) == 0 || point(flags[r]) == STEPS,
    ensures
        0 <= summed(n, values(flags, point)) <= n * STEPS,
        summed(n, values(flags, point)) == n * STEPS <==> forall|r: int| 0 <= r < n ==> point(#[trigger] flags[r]) == STEPS,
        summed(n, values(flags, point)) == 0 <==> forall|r: int| 0 <= r < n ==> point(#[trigger] flags[r]) == 0,
        summed(n, values(flags, point)) < n * STEPS ==> summed(n, values(flags, point)) <= (n - 1) * STEPS,
        summed(n, values(flags, point)) > 0 ==> summed(n, values(flags, point)) >= STEPS,
    decreases n,
{
    if n > 0 {
        let m = (n - 1) as nat;
        sum_of_flags(flags, m, point);
        assert(point(flags[m as int]) == 0 || point(flags[m as int]) == STEPS);
        assert(n * STEPS == m * STEPS + STEPS) by (nonlinear_arith)
            requires
                n == m + 1,
        ;
    }
}

/// What is listed in parts is what is listed in some part.
proof fn listed_somewhere<A>(n: nat, f: spec_fn(int) -> Seq<A>, p: spec_fn(A) -> bool)
    ensures
        (exists|k: int| 0 <= k < flat(n, f).len() && p(#[trigger] flat(n, f)[k])) <==> exists|i: int, k: int|
            0 <= i < n && 0 <= k < f(i).len() && p(#[trigger] f(i)[k]),
    decreases n,
{
    if n > 0 {
        let m = (n - 1) as nat;
        listed_somewhere(m, f, p);
        let (before, all) = (flat(m, f), flat(n, f));
        assert(all == before + f(m as int));
        if exists|k: int| 0 <= k < all.len() && p(#[trigger] all[k]) {
            let k = choose|k: int| 0 <= k < all.len() && p(#[trigger] all[k]);
            if k < before.len() {
                assert(before[k] == all[k]);
                let (i, j) = choose|i: int, j: int| 0 <= i < m && 0 <= j < f(i).len() && p(#[trigger] f(i)[j]);
                assert(0 <= i < n && p(f(i)[j]));
            } else {
                assert(f(m as int)[k - before.len()] == all[k]);
            }
        }
        if exists|i: int, k: int| 0 <= i < n && 0 <= k < f(i).len() && p(#[trigger] f(i)[k]) {
            let (i, k) = choose|i: int, k: int| 0 <= i < n && 0 <= k < f(i).len() && p(#[trigger] f(i)[k]);
            if i < m {
                assert(0 <= i < m && p(f(i)[k]));
                let j = choose|j: int| 0 <= j < before.len() && p(#[trigger] before[j]);
                assert(all[j] == before[j]);
            } else {
                assert(all[before.len() + k] == f(i)[k]);
            }
        }
    }
}

/// Whether a block is used up after a cell.
pub open spec fn gone_after(source: usize, position: int, point: spec_fn(Column) -> int) -> int {
    point(Column::Exhausted { source, position: position as usize })
}

/// A block of a sequence is not used up after a cell.
pub open spec fn block_is_left(
    input: &BlendInput<Fixed>,
    sequence: Seq<GroundId>,
    position: int,
    x: int,
    point: spec_fn(Column) -> int,
) -> bool {
    &&& 0 <= x < sequence.len()
    &&& keyed(input.ground@, sequence[x].0) matches Some(g) && gone_after(g as usize, position, point) == 0
}

/// Where flags are zero or one, a dig task has work at the start exactly where a
/// block of its sequence holds something, and later exactly where a block of it
/// is not used up after the cell before.
pub proof fn dig_tasks_have_work(
    input: &BlendInput<Fixed>,
    ready: Column,
    sequence: Seq<GroundId>,
    position: int,
    point: spec_fn(Column) -> int,
)
    requires
        feasible(whole_of(input).dig_ready(ready, sequence, position), point),
        0 <= position,
        sequence.len() < 1_000_000_000,
        point(ready) == 0 || point(ready) == STEPS,
        forall|source: usize|
            #[trigger] gone_after(source, position - 1, point) == 0 || gone_after(source, position - 1, point) == STEPS,
    ensures
        position == 0 ==> (point(ready) == STEPS <==> exists|x: int|
            0 <= x < sequence.len() && (keyed(input.ground@, (#[trigger] sequence[x]).0) matches Some(g)
                && input.ground@[g].tonnes_t.0 > 0)),
        position > 0 ==> (point(ready) == STEPS <==> exists|x: int| #[trigger]
            block_is_left(input, sequence, position - 1, x, point)),
{
    let whole = whole_of(input);
    one_term(ready, point);
    assert(one::<Fixed>().0 == STEPS);
    if position == 0 {
        let bound = if whole.any_holds(sequence) {
            one::<Fixed>()
        } else {
            nil::<Fixed>()
        };
        feasible_single(equal_row(seq![(ready, one::<Fixed>())], bound), point);
        if whole.any_holds(sequence) {
            let x = choose|x: int| 0 <= x < sequence.len() && whole.block_holds(#[trigger] sequence[x]);
            assert(keyed(input.ground@, sequence[x].0) matches Some(g) && input.ground@[g].tonnes_t.0 > 0);
        }
        if exists|x: int|
            0 <= x < sequence.len() && (keyed(input.ground@, (#[trigger] sequence[x]).0) matches Some(g)
                && input.ground@[g].tonnes_t.0 > 0) {
            let x = choose|x: int|
                0 <= x < sequence.len() && (keyed(input.ground@, (#[trigger] sequence[x]).0) matches Some(g)
                    && input.ground@[g].tonnes_t.0 > 0);
            assert(whole.block_holds(sequence[x]));
        }
    } else {
        let f = whole.dig_flag(sequence, position - 1);
        let flags = flat(sequence.len(), f);
        let zero = |column: Column| point(column) == 0;
        let cell = |column: Column| column matches Column::Exhausted { position: p, .. } && p == (position - 1) as usize;
        listed_somewhere(sequence.len(), f, zero);
        let other = |column: Column| !cell(column);
        listed_somewhere(sequence.len(), f, other);
        assert forall|r: int| 0 <= r < flags.len() implies point(#[trigger] flags[r]) == 0 || point(flags[r]) == STEPS by {
            if other(flags[r]) {
                let (i, k) = choose|i: int, k: int|
                    0 <= i < sequence.len() && 0 <= k < f(i).len() && other(#[trigger] f(i)[k]);
                assert(f(i)[k] == f(i)[0]);
            }
            assert(cell(flags[r]));
            if let Column::Exhausted { source, .. } = flags[r] {
                assert(gone_after(source, position - 1, point) == point(flags[r]));
            }
        }
        assert((exists|k: int| 0 <= k < flags.len() && zero(#[trigger] flags[k])) <==> exists|x: int| #[trigger]
            block_is_left(input, sequence, position - 1, x, point)) by {
            if exists|k: int| 0 <= k < flags.len() && zero(#[trigger] flags[k]) {
                let (i, k) = choose|i: int, k: int|
                    0 <= i < sequence.len() && 0 <= k < f(i).len() && zero(#[trigger] f(i)[k]);
                assert(block_is_left(input, sequence, position - 1, i, point));
            }
            if exists|x: int| #[trigger] block_is_left(input, sequence, position - 1, x, point) {
                let x = choose|x: int| #[trigger] block_is_left(input, sequence, position - 1, x, point);
                assert(zero(f(x)[0]));
            }
        }
        if flags.len() == 0 {
            feasible_single(equal_row(seq![(ready, one::<Fixed>())], nil::<Fixed>()), point);
        } else {
            let n = flags.len();
            flags_fit(sequence.len(), f);
            let each = flat(n, whole.flag_line(ready, flags, one::<Fixed>(), one::<Fixed>()));
            let terms = seq![(ready, one::<Fixed>())] + whole.flag_terms(flags, one::<Fixed>());
            let last = at_most_row(terms, Fixed::of_whole(n as u64));
            feasible_joined(each, seq![last], point);
            feasible_single(last, point);
            feasible_each(n, whole.flag_line(ready, flags, one::<Fixed>(), one::<Fixed>()), point);
            joined_terms(seq![(ready, one::<Fixed>())], whole.flag_terms(flags, one::<Fixed>()), point);
            flags_weigh(input, flags, one::<Fixed>(), point);
            sum_of_flags(flags, n, point);
            let sum = summed(n, values(flags, point));
            assert(Fixed::of_whole(n as u64).0 == n * 1_000_000_000);
            assert(1_000_000_000 * point(ready) + 1_000_000_000 * sum <= n * 1_000_000_000 * 1_000_000_000);
            if exists|k: int| 0 <= k < n && zero(#[trigger] flags[k]) {
                let k = choose|k: int| 0 <= k < n && zero(#[trigger] flags[k]);
                let line = whole.flag_line(ready, flags, one::<Fixed>(), one::<Fixed>());
                assert(feasible(line(k), point));
                let pair = seq![(ready, one::<Fixed>()), (flags[k], one::<Fixed>())];
                feasible_single(at_least_row(pair, one::<Fixed>()), point);
                two_terms(pair, point);
                assert(weighed(pair, point) == 1_000_000_000 * point(ready) + 1_000_000_000 * point(flags[k]));
                assert(point(ready) == STEPS);
            } else {
                assert forall|r: int| 0 <= r < n implies point(#[trigger] flags[r]) == STEPS by {
                    assert(!zero(flags[r]));
                }
                assert(sum == n * STEPS);
                assert(point(ready) == 0);
            }
        }
    }
}

proof fn flags_fit(n: nat, f: spec_fn(int) -> Seq<Column>)
    requires
        forall|i: int| 0 <= i < n ==> (#[trigger] f(i)).len() <= 1,
    ensures
        flat(n, f).len() <= n,
    decreases n,
{
    if n > 0 {
        flags_fit((n - 1) as nat, f);
        assert(f(n - 1).len() <= 1);
    }
}

/// Whether a pile holds anything at the start of an interval.
pub open spec fn stock_of(pile: StockpileId, i: int, point: spec_fn(Column) -> int) -> int {
    point(Column::Stock { pile, interval: i as usize })
}

/// A pile of those that a task approves of holds something.
pub open spec fn pile_has_stock(
    input: &BlendInput<Fixed>,
    sources: Seq<StockpileId>,
    i: int,
    x: int,
    point: spec_fn(Column) -> int,
) -> bool {
    &&& 0 <= x < sources.len()
    &&& keyed(input.piles@, sources[x].0) is Some
    &&& stock_of(sources[x], i, point) == STEPS
}

proof fn stock_flags(input: &BlendInput<Fixed>, sources: Seq<StockpileId>, i: int, point: spec_fn(Column) -> int)
    requires
        forall|pile: StockpileId| #[trigger] stock_of(pile, i, point) == 0 || stock_of(pile, i, point) == STEPS,
    ensures
        ({
            let flags = flat(sources.len(), whole_of(input).pile_flag(sources, i));
            &&& forall|r: int| 0 <= r < flags.len() ==> point(#[trigger] flags[r]) == 0 || point(flags[r]) == STEPS
            &&& (exists|k: int| 0 <= k < flags.len() && point(#[trigger] flags[k]) == STEPS) <==> exists|x: int| #[trigger]
                pile_has_stock(input, sources, i, x, point)
        }),
{
    let whole = whole_of(input);
    let f = whole.pile_flag(sources, i);
    let flags = flat(sources.len(), f);
    let full = |column: Column| point(column) == STEPS;
    let other = |column: Column| !(column matches Column::Stock { interval, .. } && interval == i as usize);
    listed_somewhere(sources.len(), f, full);
    listed_somewhere(sources.len(), f, other);
    assert forall|r: int| 0 <= r < flags.len() implies point(#[trigger] flags[r]) == 0 || point(flags[r]) == STEPS by {
        if other(flags[r]) {
            let (x, k) = choose|x: int, k: int|
                0 <= x < sources.len() && 0 <= k < f(x).len() && other(#[trigger] f(x)[k]);
            assert(f(x)[k] == f(x)[0]);
        }
        if let Column::Stock { pile, .. } = flags[r] {
            assert(stock_of(pile, i, point) == point(flags[r]));
        }
    }
    if exists|k: int| 0 <= k < flags.len() && point(#[trigger] flags[k]) == STEPS {
        let k = choose|k: int| 0 <= k < flags.len() && point(#[trigger] flags[k]) == STEPS;
        assert(full(flags[k]));
        let (x, y) = choose|x: int, y: int| 0 <= x < sources.len() && 0 <= y < f(x).len() && full(#[trigger] f(x)[y]);
        assert(pile_has_stock(input, sources, i, x, point));
    }
    if exists|x: int| #[trigger] pile_has_stock(input, sources, i, x, point) {
        let x = choose|x: int| #[trigger] pile_has_stock(input, sources, i, x, point);
        assert(full(f(x)[0]));
        let k = choose|k: int| 0 <= k < flags.len() && full(#[trigger] flags[k]);
        assert(point(flags[k]) == STEPS);
    }
}

/// Where flags are zero or one, a reclaim task has work exactly where a pile that
/// it approves of holds something at the start of the interval and, if it has a
/// maximum, it is not spent.
pub proof fn reclaim_tasks_have_work(
    input: &BlendInput<Fixed>,
    l: int,
    t: int,
    i: int,
    s: int,
    ready: Column,
    sources: Seq<StockpileId>,
    maximum: Option<Fixed>,
    point: spec_fn(Column) -> int,
)
    requires
        feasible(whole_of(input).reclaim_ready(l, t, i, s, ready, sources, maximum), point),
        point(ready) == 0 || point(ready) == STEPS,
        forall|pile: StockpileId| #[trigger] stock_of(pile, i, point) == 0 || stock_of(pile, i, point) == STEPS,
    ensures
        ({
            let spent = point(whole_of(input).spent_column(l, t, i, s));
            let stocked = exists|x: int| #[trigger] pile_has_stock(input, sources, i, x, point);
            &&& maximum is None ==> (point(ready) == STEPS <==> stocked)
            &&& maximum is Some && stocked ==> (spent == 0 || spent == STEPS) && (point(ready) == STEPS <==> spent == 0)
            &&& !stocked ==> point(ready) == 0
        }),
{
    let whole = whole_of(input);
    let flags = flat(sources.len(), whole.pile_flag(sources, i));
    let n = flags.len();
    stock_flags(input, sources, i, point);
    one_term(ready, point);
    let (o, z) = (one::<Fixed>().0 as int, less_one::<Fixed>().0 as int);
    assert(o == 1_000_000_000 && z == -1_000_000_000);
    if n == 0 {
        feasible_single(equal_row(seq![(ready, one::<Fixed>())], nil::<Fixed>()), point);
    } else {
        let terms = seq![(ready, one::<Fixed>())] + whole.flag_terms(flags, less_one::<Fixed>());
        let most = at_most_row(terms, nil::<Fixed>());
        joined_terms(seq![(ready, one::<Fixed>())], whole.flag_terms(flags, less_one::<Fixed>()), point);
        flags_weigh(input, flags, less_one::<Fixed>(), point);
        sum_of_flags(flags, n, point);
        let sum = summed(n, values(flags, point));
        feasible_single(most, point);
        match maximum {
            None => {
                let line = whole.flag_line(ready, flags, less_one::<Fixed>(), nil::<Fixed>());
                feasible_joined(flat(n, line), seq![most], point);
                feasible_each(n, line, point);
                if exists|k: int| 0 <= k < n && point(#[trigger] flags[k]) == STEPS {
                    let k = choose|k: int| 0 <= k < n && point(#[trigger] flags[k]) == STEPS;
                    assert(feasible(line(k), point));
                    let pair = seq![(ready, one::<Fixed>()), (flags[k], less_one::<Fixed>())];
                    feasible_single(at_least_row(pair, nil::<Fixed>()), point);
                    difference(ready, flags[k], point);
                }
            },
            Some(most_t) => {
                let spent = whole.spent_column(l, t, i, s);
                let line = whole.stock_line(ready, spent, flags);
                let a = seq![binary(spent)];
                let b = flat(n, line);
                let c = seq![most];
                let d = whole.cap_lines(l, t, i, s, ready, most_t);
                assert(whole.reclaim_ready(l, t, i, s, ready, sources, maximum) == a + b + c + d);
                feasible_joined(a + b + c, d, point);
                feasible_joined(a + b, c, point);
                feasible_joined(a, b, point);
                kept(a, 0, point);
                kept(d, 1, point);
                feasible_each(n, line, point);
                let pair = seq![(ready, one::<Fixed>()), (spent, one::<Fixed>())];
                two_terms(pair, point);
                assert(weighed(pair, point) == 1_000_000_000 * point(ready) + 1_000_000_000 * point(spent));
                if exists|k: int| 0 <= k < n && point(#[trigger] flags[k]) == STEPS {
                    let k = choose|k: int| 0 <= k < n && point(#[trigger] flags[k]) == STEPS;
                    assert(feasible(line(k), point));
                    let first = seq![(ready, one::<Fixed>()), (flags[k], less_one::<Fixed>())];
                    let last = seq![(spent, one::<Fixed>())];
                    let three = seq![
                        (ready, one::<Fixed>()),
                        (flags[k], less_one::<Fixed>()),
                        (spent, one::<Fixed>()),
                    ];
                    assert(three =~= first + last);
                    feasible_single(at_least_row(three, nil::<Fixed>()), point);
                    joined_terms(first, last, point);
                    difference(ready, flags[k], point);
                    one_term(spent, point);
                }
            },
        }
    }
}

// What a task has reclaimed.

/// What a candidate moves before a cell, by interval.
pub open spec fn before_cell(input: &BlendInput<Fixed>, c: int, i: int, s: int, point: spec_fn(Column) -> int) -> spec_fn(
    int,
) -> int {
    |e: int|
        in_first(
            input,
            c,
            e,
            if e < i {
                segment_count(input)
            } else {
                s as nat
            },
            point,
        )
}

/// What each candidate reclaims for a task before a cell.
pub open spec fn reclaimed_before(
    input: &BlendInput<Fixed>,
    t: int,
    approved: Seq<StockpileId>,
    i: int,
    s: int,
    point: spec_fn(Column) -> int,
) -> spec_fn(int) -> int {
    |c: int|
        if input.movements@[c].loader == input.tasks@[t].loader && input.movements@[c].activity is Reclaim && exists|
            k: int,
        |
            0 <= k < approved.len() && input.movements@[c].source == SourceId::Stockpile(#[trigger] approved[k]) {
            summed((i + 1) as nat, before_cell(input, c, i, s, point))
        } else {
            0
        }
}

/// A reclaim task is called spent only where it has reclaimed all it may before
/// the cell.
pub proof fn spent_tasks_have_reclaimed_all(
    input: &BlendInput<Fixed>,
    l: int,
    t: int,
    i: int,
    s: int,
    ready: Column,
    approved: Vec<StockpileId>,
    maximum: Fixed,
    point: spec_fn(Column) -> int,
)
    requires
        feasible(whole_of(input).cap_lines(l, t, i, s, ready, maximum), point),
        0 <= t < input.tasks@.len() <= usize::MAX,
        0 <= i < input.intervals@.len() <= usize::MAX,
        0 <= s,
        input.tasks@[t].kind == (TaskKind::Reclaim { approved_sources: approved, maximum_t: Some(maximum) }),
        point(whole_of(input).spent_column(l, t, i, s)) == STEPS,
    ensures
        summed(input.movements@.len(), reclaimed_before(input, t, approved@, i, s, point)) >= maximum.0,
{
    let whole = whole_of(input);
    let n = input.movements@.len();
    let sel = Selector::Spent { task: t as usize };
    let spent = whole.spent_column(l, t, i, s);
    let f = reclaimed_before(input, t, approved@, i, s, point);
    let less = |c: int| -1_000_000_000 * f(c);
    let each = whole.spent_candidate(t, i, s);
    assert(less_one::<Fixed>().0 == -1_000_000_000);
    assert forall|c: int| 0 <= c < n implies weighed(#[trigger] each(c), point) == less(c) by {
        let runs = whole.spent_interval(t, c, i, s);
        let g = before_cell(input, c, i, s, point);
        if let SourceId::Stockpile(pile) = input.movements@[c].source {
            assert(approved@.contains(pile) <==> exists|k: int|
                0 <= k < approved@.len() && input.movements@[c].source == SourceId::Stockpile(#[trigger] approved@[k]));
        }
        let chosen = whole.weight(sel, c) is Some;
        let down = |e: int|
            if chosen {
                -1_000_000_000 * g(e)
            } else {
                0 * g(e)
            };
        assert forall|e: int| 0 <= e < i + 1 implies weighed(#[trigger] runs(e), point) == down(e) by {
            let m = if e < i {
                whole.segments as nat
            } else {
                s as nat
            };
            run_sums(input, c, e, m, less_one::<Fixed>(), point);
            weighs_one(spent, nil::<Fixed>(), point);
            let v = g(e);
            assert(0 * v == 0) by (nonlinear_arith);
        }
        flat_weighs((i + 1) as nat, runs, down, point);
        if chosen {
            summed_scaled((i + 1) as nat, down, g, -1_000_000_000);
        } else {
            summed_scaled((i + 1) as nat, down, g, 0);
            let v = summed((i + 1) as nat, g);
            assert(0 * v == 0) by (nonlinear_arith);
        }
    }
    flat_weighs(n, each, less, point);
    summed_scaled(n, less, f, -1_000_000_000);
    let lines = whole.cap_lines(l, t, i, s, ready, maximum);
    kept(lines, 0, point);
    let terms = whole.spent_terms(t, i, s);
    let last = seq![(spent, maximum)];
    assert(terms.push((spent, maximum)) =~= terms + last);
    joined_terms(terms, last, point);
    weighs_one(spent, maximum, point);
}

} // verus!
