//! What holds of the time, the ground and the tasks at every point that a model
//! admits.
use vstd::prelude::*;

use crate::listing::flat;
use crate::optimisation::blended::formulation::base::{Formulation, Selector};
use crate::optimisation::blended::formulation::formulate::model_of;
use crate::optimisation::blended::formulation::laws::{admits, whole_of};
use crate::optimisation::blended::formulation::model::{Column, Line};
use crate::optimisation::blended::input::{authorises, BlendInput};
use crate::optimisation::ids::Activity;
use crate::optimisation::points::{
    difference, feasible, feasible_one, feasible_parts, first_of_two, joined_terms, kept, nothing_weighs_nothing,
    one_less, one_term, ones_weigh, summed, weighed,
};
use crate::optimisation::sheet::{at_least_row, at_most_row, continuous, equal_row, less_one, nil, one};
use crate::scalar::{Fixed, Scalar, STEPS};

verus! {

proof fn cells_feasible(input: &BlendInput<Fixed>, point: spec_fn(Column) -> int)
    requires
        admits(input, point),
    ensures
        ({
            let whole = whole_of(input);
            &&& feasible(flat(whole.horizon(), whole.clock_lines()), point)
            &&& feasible(flat(input.loaders@.len(), whole.loader_tasks()), point)
            &&& feasible(flat(input.loaders@.len(), whole.loader_rates()), point)
            &&& feasible(flat(input.ground@.len(), whole.ground_lines()), point)
        }),
{
    reveal(admits);
    let whole = whole_of(input);
    let piles = flat(input.piles@.len(), whole.pile_lines());
    let routes = flat(whole.route_rules().len(), whole.route_lines());
    let payments = flat(input.conditional_values@.len(), whole.payment_lines());
    let sources = flat(input.loaders@.len(), whole.source_lines());
    let a = whole.cell_lines() + piles;
    let b = a + whole.rule_lines();
    let c = b + routes;
    let d = c + payments;
    assert(model_of(*input) == d + sources);
    feasible_parts(d, sources, point);
    feasible_parts(c, payments, point);
    feasible_parts(b, routes, point);
    feasible_parts(a, whole.rule_lines(), point);
    feasible_parts(whole.cell_lines(), piles, point);
    let clock = flat(whole.horizon(), whole.clock_lines());
    let movements = flat(whole.candidates(), whole.movement_lines());
    let tasks = flat(input.loaders@.len(), whole.loader_tasks());
    let rates = flat(input.loaders@.len(), whole.loader_rates());
    let ground = flat(input.ground@.len(), whole.ground_lines());
    let portions = flat(input.ground@.len(), whole.portion_lines());
    let exhausted = flat(input.ground@.len(), whole.exhausted_lines());
    let follow = flat(input.tasks@.len(), whole.follow_lines());
    let p = clock + movements;
    let q = p + tasks;
    let r = q + rates;
    let s = r + ground;
    let t = s + portions;
    let u = t + exhausted;
    assert(whole.cell_lines() == u + follow);
    feasible_parts(u, follow, point);
    feasible_parts(t, exhausted, point);
    feasible_parts(s, portions, point);
    feasible_parts(r, ground, point);
    feasible_parts(q, rates, point);
    feasible_parts(p, tasks, point);
    feasible_parts(clock, movements, point);
}

/// How long each segment of an interval is.
pub open spec fn segment_time(input: &BlendInput<Fixed>, i: int, point: spec_fn(Column) -> int) -> spec_fn(int) -> int {
    |s: int| point(whole_of(input).duration(i, s))
}

/// The segments of an interval fill it.
pub proof fn segments_fill_interval(input: &BlendInput<Fixed>, i: int, point: spec_fn(Column) -> int)
    requires
        admits(input, point),
        0 <= i < input.intervals@.len(),
    ensures
        summed(whole_of(input).segments as nat, segment_time(input, i, point)) == whole_of(input).length(i).0,
        forall|s: int|
            0 <= s < whole_of(input).segments ==> 0 <= #[trigger] segment_time(input, i, point)(s) <= whole_of(
                input,
            ).length(i).0,
{
    let whole = whole_of(input);
    let n = whole.segments as nat;
    cells_feasible(input, point);
    feasible_one(whole.horizon(), whole.clock_lines(), i, point);
    let columns = flat(n, whole.duration_line(i));
    let row = seq![equal_row(whole.clock_terms(i), whole.length(i))];
    assert(whole.clock_lines()(i) == columns + row);
    feasible_parts(columns, row, point);
    kept(row, 0, point);
    let time = segment_time(input, i, point);
    assert forall|s: int| 0 <= s < n implies 0 <= #[trigger] time(s) <= whole.length(i).0 by {
        feasible_one(n, whole.duration_line(i), s, point);
        kept(whole.duration_line(i)(s), 0, point);
        assert(whole.duration_line(i)(s)[0] == continuous(whole.duration(i, s), whole.length(i)));
    }
    ones_weigh(whole.clock_terms(i), n, time, point);
}

// Ground.

/// What is dug of a block in a cell, as the row of the block sums it up.
pub open spec fn dug_in_cell(input: &BlendInput<Fixed>, g: int, i: int, s: int, point: spec_fn(Column) -> int) -> int {
    weighed(whole_of(input).cell_terms(Selector::Dig { source: g as usize }, i, s), point)
}

/// What is dug of a block up to the end of a cell.
pub open spec fn dug_through(input: &BlendInput<Fixed>, g: int, i: int, s: int, point: spec_fn(Column) -> int) -> int
    decreases i, s,
{
    let here = dug_in_cell(input, g, i, s, point);
    if s > 0 {
        dug_through(input, g, i, s - 1, point) + here
    } else if i > 0 {
        dug_through(input, g, i - 1, whole_of(input).segments - 1, point) + here
    } else {
        here
    }
}

proof fn block_row(input: &BlendInput<Fixed>, g: int, i: int, s: int, point: spec_fn(Column) -> int)
    requires
        admits(input, point),
        0 <= g < input.ground@.len(),
        0 <= i < input.intervals@.len(),
        0 <= s < whole_of(input).segments,
    ensures
        ({
            let whole = whole_of(input);
            let left = point(whole.remaining(g, i, s));
            let here = dug_in_cell(input, g, i, s, point);
            &&& 0 <= left
            &&& i == 0 && s == 0 ==> STEPS * left + here == input.ground@[g].tonnes_t.0 * STEPS
            &&& s > 0 ==> STEPS * left + here == STEPS * point(whole.remaining(g, i, s - 1))
            &&& s == 0 && i > 0 ==> STEPS * left + here == STEPS * point(
                whole.remaining(g, i - 1, whole.segments - 1),
            )
        }),
{
    let whole = whole_of(input);
    cells_feasible(input, point);
    feasible_one(input.ground@.len(), whole.ground_lines(), g, point);
    feasible_one(whole.horizon(), whole.ground_interval(g), i, point);
    feasible_one(whole.segments as nat, whole.ground_line(g, i), s, point);
    let lines = whole.ground_line(g, i)(s);
    kept(lines, 0, point);
    kept(lines, 1, point);
    let first = seq![(whole.remaining(g, i, s), one::<Fixed>())];
    let dug = whole.cell_terms(Selector::Dig { source: g as usize }, i, s);
    let left = point(whole.remaining(g, i, s));
    joined_terms(first, dug, point);
    one_term(whole.remaining(g, i, s), point);
    assert(weighed(first, point) == STEPS * left);
    if i > 0 || s > 0 {
        let prior = if s == 0 {
            whole.remaining(g, i - 1, whole.segments - 1)
        } else {
            whole.remaining(g, i, s - 1)
        };
        one_less(first + dug, prior, point);
    }
}

/// A block is not dug beyond its tonnes: what was dug of it up to any cell and
/// what is left then make up the block.
pub proof fn blocks_keep_to_their_tonnes(input: &BlendInput<Fixed>, g: int, i: int, s: int, point: spec_fn(Column) -> int)
    requires
        admits(input, point),
        0 <= g < input.ground@.len(),
        0 <= i < input.intervals@.len(),
        0 <= s < whole_of(input).segments,
    ensures
        dug_through(input, g, i, s, point) + STEPS * point(whole_of(input).remaining(g, i, s))
            == input.ground@[g].tonnes_t.0 * STEPS,
        dug_through(input, g, i, s, point) <= input.ground@[g].tonnes_t.0 * STEPS,
    decreases i, s,
{
    block_row(input, g, i, s, point);
    if s > 0 {
        blocks_keep_to_their_tonnes(input, g, i, s - 1, point);
    } else if i > 0 {
        blocks_keep_to_their_tonnes(input, g, i - 1, whole_of(input).segments - 1, point);
    }
}

// Tasks.

proof fn task_feasible(input: &BlendInput<Fixed>, l: int, i: int, s: int, q: int, point: spec_fn(Column) -> int)
    requires
        admits(input, point),
        0 <= l < input.loaders@.len(),
        0 <= i < input.intervals@.len(),
        0 <= s < whole_of(input).segments,
        0 <= q < whole_of(input).order(l).len(),
        whole_of(input).eligible(l, whole_of(input).order(l)[q] as int, i),
    ensures
        feasible(
            whole_of(input).task_lines(
                l,
                whole_of(input).order(l)[q],
                i,
                s,
                whole_of(input).eligible_to(l, i, q as nat),
            ),
            point,
        ),
{
    let whole = whole_of(input);
    cells_feasible(input, point);
    feasible_one(input.loaders@.len(), whole.loader_tasks(), l, point);
    feasible_one(whole.horizon(), whole.task_interval(l), i, point);
    feasible_one(whole.segments as nat, whole.task_segment(l, i), s, point);
    let tasks = whole.eligible_to(l, i, whole.order(l).len());
    let each = flat(whole.order(l).len(), whole.task_at(l, i, s));
    let rest = if tasks.len() == 0 {
        Seq::<Line<Fixed>>::empty()
    } else {
        seq![at_most_row(whole.active_terms(l, i, s, tasks), one::<Fixed>())]
    };
    assert(whole.task_segment(l, i)(s) == each + rest);
    feasible_parts(each, rest, point);
    feasible_one(whole.order(l).len(), whole.task_at(l, i, s), q, point);
}

proof fn eligible_listed(whole: Formulation<Fixed>, l: int, i: int, e: int, n: nat) -> (r: int)
    requires
        0 <= e < n <= whole.order(l).len(),
        whole.eligible(l, whole.order(l)[e] as int, i),
    ensures
        0 <= r < whole.eligible_to(l, i, n).len(),
        whole.eligible_to(l, i, n)[r] == whole.order(l)[e],
    decreases n,
{
    let m = (n - 1) as nat;
    let before = whole.eligible_to(l, i, m);
    assert(whole.eligible_to(l, i, n) == before + whole.eligible_task(l, i)(m as int));
    if e == m {
        before.len() as int
    } else {
        eligible_listed(whole, l, i, e, m)
    }
}

proof fn task_rows(input: &BlendInput<Fixed>, l: int, i: int, s: int, q: int, point: spec_fn(Column) -> int)
    requires
        admits(input, point),
        0 <= l < input.loaders@.len(),
        0 <= i < input.intervals@.len(),
        0 <= s < whole_of(input).segments,
        0 <= q < whole_of(input).order(l).len(),
        whole_of(input).eligible(l, whole_of(input).order(l)[q] as int, i),
    ensures
        ({
            let whole = whole_of(input);
            let t = whole.order(l)[q];
            let earlier = whole.eligible_to(l, i, q as nat);
            let (active, ready) = (point(whole.active(l, t, i, s)), point(whole.ready(l, t, i, s)));
            &&& active == 0 || active == STEPS
            &&& ready == 0 || ready == STEPS
            &&& active <= ready
            &&& forall|r: int|
                0 <= r < earlier.len() && point(whole.ready(l, #[trigger] earlier[r], i, s)) == STEPS ==> active == 0
            &&& (forall|r: int| 0 <= r < earlier.len() ==> point(whole.ready(l, #[trigger] earlier[r], i, s)) == 0)
                ==> active == ready
        }),
{
    let whole = whole_of(input);
    let t = whole.order(l)[q];
    let earlier = whole.eligible_to(l, i, q as nat);
    task_feasible(input, l, i, s, q, point);
    let (a, b) = (whole.active(l, t, i, s), whole.ready(l, t, i, s));
    let pair = seq![(a, one::<Fixed>()), (b, less_one::<Fixed>())];
    let head = seq![
        crate::optimisation::sheet::binary(a),
        crate::optimisation::sheet::binary(b),
        at_most_row(pair, nil::<Fixed>()),
    ];
    let yields = flat(earlier.len(), whole.yields_to(l, t, i, s, earlier));
    let others = whole.ready_terms(l, i, s, earlier);
    let last = seq![at_least_row(pair + others, nil::<Fixed>())];
    assert(whole.task_lines(l, t, i, s, earlier) == head + yields + last);
    feasible_parts(head + yields, last, point);
    feasible_parts(head, yields, point);
    kept(head, 0, point);
    kept(head, 1, point);
    kept(head, 2, point);
    kept(last, 0, point);
    first_of_two(a, b, less_one::<Fixed>(), nil::<Fixed>(), point);
    assert forall|r: int| 0 <= r < earlier.len() && point(whole.ready(l, #[trigger] earlier[r], i, s)) == STEPS implies point(
        a,
    ) == 0 by {
        feasible_one(earlier.len(), whole.yields_to(l, t, i, s, earlier), r, point);
        kept(whole.yields_to(l, t, i, s, earlier)(r), 0, point);
        first_of_two(a, whole.ready(l, earlier[r], i, s), one::<Fixed>(), one::<Fixed>(), point);
    }
    if forall|r: int| 0 <= r < earlier.len() ==> point(whole.ready(l, #[trigger] earlier[r], i, s)) == 0 {
        assert forall|r: int| 0 <= r < others.len() implies point((#[trigger] others[r]).0) == 0 by {
            assert(others[r].0 == whole.ready(l, earlier[r], i, s));
        }
        nothing_weighs_nothing(others, point);
        joined_terms(pair, others, point);
        difference(a, b, point);
    }
}

/// A loader works on a task only where that is the first, in authored order,
/// that has work; and it is assigned to that one. So it works on one task at a
/// time.
pub proof fn first_ready_task_is_worked(
    input: &BlendInput<Fixed>,
    l: int,
    i: int,
    s: int,
    q: int,
    other: int,
    point: spec_fn(Column) -> int,
)
    requires
        admits(input, point),
        0 <= l < input.loaders@.len(),
        0 <= i < input.intervals@.len(),
        0 <= s < whole_of(input).segments,
        0 <= other < q < whole_of(input).order(l).len(),
        whole_of(input).eligible(l, whole_of(input).order(l)[q] as int, i),
        whole_of(input).eligible(l, whole_of(input).order(l)[other] as int, i),
    ensures
        ({
            let whole = whole_of(input);
            let (t, u) = (whole.order(l)[q], whole.order(l)[other]);
            &&& point(whole.active(l, t, i, s)) == STEPS ==> point(whole.ready(l, t, i, s)) == STEPS && point(
                whole.ready(l, u, i, s),
            ) == 0
            &&& point(whole.active(l, t, i, s)) == 0 || point(whole.active(l, u, i, s)) == 0
        }),
{
    let whole = whole_of(input);
    task_rows(input, l, i, s, q, point);
    task_rows(input, l, i, s, other, point);
    let r = eligible_listed(whole, l, i, other, q as nat);
    assert(whole.eligible_to(l, i, q as nat)[r] == whole.order(l)[other]);
}

/// Where no task before it has work, a task with work is the one worked on.
pub proof fn ready_task_is_not_passed_over(
    input: &BlendInput<Fixed>,
    l: int,
    i: int,
    s: int,
    q: int,
    point: spec_fn(Column) -> int,
)
    requires
        admits(input, point),
        0 <= l < input.loaders@.len(),
        0 <= i < input.intervals@.len(),
        0 <= s < whole_of(input).segments,
        0 <= q < whole_of(input).order(l).len(),
        whole_of(input).eligible(l, whole_of(input).order(l)[q] as int, i),
        forall|r: int|
            0 <= r < whole_of(input).eligible_to(l, i, q as nat).len() ==> point(
                whole_of(input).ready(l, #[trigger] whole_of(input).eligible_to(l, i, q as nat)[r], i, s),
            ) == 0,
        point(whole_of(input).ready(l, whole_of(input).order(l)[q], i, s)) == STEPS,
    ensures
        point(whole_of(input).active(l, whole_of(input).order(l)[q], i, s)) == STEPS,
{
    task_rows(input, l, i, s, q, point);
}

/// Tasks that are not worked on let nothing be moved.
proof fn idle_weighs_nothing(
    whole: Formulation<Fixed>,
    l: int,
    c: int,
    i: int,
    s: int,
    big: Fixed,
    n: nat,
    point: spec_fn(Column) -> int,
)
    requires
        n <= whole.order(l).len(),
        forall|q: int|
            0 <= q < n && authorises(whole.input.tasks@[#[trigger] whole.order(l)[q] as int], whole.candidate(c))
                && whole.eligible(l, whole.order(l)[q] as int, i) ==> point(whole.active(l, whole.order(l)[q], i, s))
                == 0,
    ensures
        weighed(flat(n, whole.authorising(l, c, i, s, big)), point) == 0,
    decreases n,
{
    let f = whole.authorising(l, c, i, s, big);
    if n == 0 {
        nothing_weighs_nothing(flat(n, f), point);
    } else {
        let m = (n - 1) as nat;
        idle_weighs_nothing(whole, l, c, i, s, big, m, point);
        let t = whole.order(l)[m as int];
        assert forall|r: int| 0 <= r < f(m as int).len() implies point((#[trigger] f(m as int)[r]).0) == 0 by {
            assert(f(m as int)[r].0 == whole.active(l, t, i, s));
        }
        nothing_weighs_nothing(f(m as int), point);
        joined_terms(flat(m, f), f(m as int), point);
    }
}

/// What a loader moves in a cell it moves under a task that it works on then.
pub proof fn movement_is_under_a_task(input: &BlendInput<Fixed>, l: int, c: int, i: int, s: int, point: spec_fn(Column) -> int)
    requires
        admits(input, point),
        0 <= l < input.loaders@.len(),
        0 <= c < input.movements@.len(),
        0 <= i < input.intervals@.len(),
        0 <= s < whole_of(input).segments,
        input.movements@[c].loader == input.loaders@[l].id,
        whole_of(input).moves(c, i),
        point(whole_of(input).movement(c, i, s)) > 0,
    ensures
        ({
            let whole = whole_of(input);
            exists|q: int|
                0 <= q < whole.order(l).len() && authorises(
                    input.tasks@[#[trigger] whole.order(l)[q] as int],
                    input.movements@[c],
                ) && whole.eligible(l, whole.order(l)[q] as int, i) && point(
                    whole.active(l, whole.order(l)[q], i, s),
                ) == STEPS
        }),
{
    let whole = whole_of(input);
    cells_feasible(input, point);
    feasible_one(input.loaders@.len(), whole.loader_rates(), l, point);
    feasible_one(whole.horizon(), whole.rate_interval(l), i, point);
    feasible_one(whole.segments as nat, whole.rate_segment(l, i), s, point);
    let dig = whole.rate_line(l, i, s, Activity::Dig);
    let reclaim = whole.rate_line(l, i, s, Activity::Reclaim);
    let selected = flat(whole.candidates(), whole.selected_line(l, i, s));
    assert(whole.rate_segment(l, i)(s) == dig + reclaim + selected);
    feasible_parts(dig + reclaim, selected, point);
    feasible_one(whole.candidates(), whole.selected_line(l, i, s), c, point);
    let big = whole.rate_or_zero(c, i).times(whole.length(i));
    let moved = seq![(whole.movement(c, i, s), one::<Fixed>())];
    let tasks = flat(whole.order(l).len(), whole.authorising(l, c, i, s, big));
    assert(whole.selected_line(l, i, s)(c) == seq![at_most_row(moved + tasks, nil::<Fixed>())]);
    kept(whole.selected_line(l, i, s)(c), 0, point);
    joined_terms(moved, tasks, point);
    one_term(whole.movement(c, i, s), point);
    if forall|q: int|
        0 <= q < whole.order(l).len() && authorises(
            whole.input.tasks@[#[trigger] whole.order(l)[q] as int],
            whole.candidate(c),
        ) && whole.eligible(l, whole.order(l)[q] as int, i) ==> point(whole.active(l, whole.order(l)[q], i, s)) == 0 {
        idle_weighs_nothing(whole, l, c, i, s, big, whole.order(l).len(), point);
    } else {
        let q = choose|q: int|
            0 <= q < whole.order(l).len() && authorises(
                whole.input.tasks@[#[trigger] whole.order(l)[q] as int],
                whole.candidate(c),
            ) && whole.eligible(l, whole.order(l)[q] as int, i) && point(whole.active(l, whole.order(l)[q], i, s)) != 0;
        task_rows(input, l, i, s, q, point);
    }
}

} // verus!
