//! What holds of the tonnes that are moved at every point that a model admits,
//! told of the movements alone.
use vstd::prelude::*;

use crate::listing::{flat, keyed};
use crate::optimisation::blended::formulation::base::Selector;
use crate::optimisation::blended::formulation::fleet::{
    cell_weighs, has_rate, has_speed, lasts, moved, rate_is, runs_is, speed_is,
};
use crate::optimisation::blended::formulation::formulate::model_of;
use crate::optimisation::blended::formulation::laws::{admits, whole_of};
use crate::optimisation::blended::formulation::model::Column;
use crate::optimisation::blended::formulation::working::{segment_time, segments_fill_interval};
use crate::optimisation::blended::input::{candidate_rate, BlendInput};
use crate::optimisation::ids::{Activity, GroundId, SourceId, StockpileId};
use crate::optimisation::input::{IntervalRate, TaskKind};
use crate::optimisation::points::{
    feasible, feasible_each, feasible_joined, feasible_one, feasible_parts, feasible_single, first_of_two,
    flat_weighs, joined_terms, kept, one_less, one_term, summed, summed_scaled, weighed, weighs_one,
};
use crate::optimisation::sheet::{at_most_row, continuous, equal_row, nil, one};
use crate::periods::{first_period, DAY};
use crate::production::falls_in;
use crate::scalar::{quotient, Fixed, Scalar, STEPS};

verus! {

/// A point is admitted exactly where it keeps to each part of the model.
pub proof fn model_in_parts(input: &BlendInput<Fixed>, point: spec_fn(Column) -> int)
    ensures
        admits(input, point) == ({
            let whole = whole_of(input);
            &&& feasible(flat(input.intervals@.len(), whole.clock_lines()), point)
            &&& feasible(flat(input.movements@.len(), whole.movement_lines()), point)
            &&& feasible(flat(input.loaders@.len(), whole.loader_tasks()), point)
            &&& feasible(flat(input.loaders@.len(), whole.loader_rates()), point)
            &&& feasible(flat(input.ground@.len(), whole.ground_lines()), point)
            &&& feasible(flat(input.ground@.len(), whole.portion_lines()), point)
            &&& feasible(flat(input.ground@.len(), whole.exhausted_lines()), point)
            &&& feasible(flat(input.tasks@.len(), whole.follow_lines()), point)
            &&& feasible(flat(input.piles@.len(), whole.pile_lines()), point)
            &&& feasible(flat(input.piles@.len(), whole.stock_lines()), point)
            &&& feasible(flat(input.loaders@.len(), whole.ready_lines()), point)
            &&& feasible(flat(input.trucks@.len(), whole.truck_lines()), point)
            &&& feasible(flat(input.destinations@.len(), whole.destination_lines()), point)
            &&& feasible(flat(input.tasks@.len(), whole.maximum_lines()), point)
            &&& feasible(flat(whole.route_rules().len(), whole.route_lines()), point)
            &&& feasible(flat(input.conditional_values@.len(), whole.payment_lines()), point)
            &&& feasible(flat(input.loaders@.len(), whole.source_lines()), point)
        }),
{
    reveal(admits);
    let whole = whole_of(input);
    let piles = flat(input.piles@.len(), whole.pile_lines());
    let routes = flat(whole.route_rules().len(), whole.route_lines());
    let payments = flat(input.conditional_values@.len(), whole.payment_lines());
    let sources = flat(input.loaders@.len(), whole.source_lines());
    let a = whole.cell_lines() + piles;
    let b = a + whole.rule_lines();
    let c = b + routes;
    let d = c + payments;
    assert(model_of(*input) == d + sources);
    feasible_joined(d, sources, point);
    feasible_joined(c, payments, point);
    feasible_joined(b, routes, point);
    feasible_joined(a, whole.rule_lines(), point);
    feasible_joined(whole.cell_lines(), piles, point);
    let stock = flat(input.piles@.len(), whole.stock_lines());
    let ready = flat(input.loaders@.len(), whole.ready_lines());
    let trucks = flat(input.trucks@.len(), whole.truck_lines());
    let destinations = flat(input.destinations@.len(), whole.destination_lines());
    let maxima = flat(input.tasks@.len(), whole.maximum_lines());
    let e = stock + ready;
    let f = e + trucks;
    let g = f + destinations;
    assert(whole.rule_lines() == g + maxima);
    feasible_joined(g, maxima, point);
    feasible_joined(f, destinations, point);
    feasible_joined(e, trucks, point);
    feasible_joined(stock, ready, point);
    let clock = flat(whole.horizon(), whole.clock_lines());
    let movements = flat(whole.candidates(), whole.movement_lines());
    let tasks = flat(input.loaders@.len(), whole.loader_tasks());
    let rates = flat(input.loaders@.len(), whole.loader_rates());
    let ground = flat(input.ground@.len(), whole.ground_lines());
    let portions = flat(input.ground@.len(), whole.portion_lines());
    let exhausted = flat(input.ground@.len(), whole.exhausted_lines());
    let follow = flat(input.tasks@.len(), whole.follow_lines());
    let p = clock + movements;
    let q = p + tasks;
    let r = q + rates;
    let s = r + ground;
    let t = s + portions;
    let u = t + exhausted;
    assert(whole.cell_lines() == u + follow);
    feasible_joined(u, follow, point);
    feasible_joined(t, exhausted, point);
    feasible_joined(s, portions, point);
    feasible_joined(r, ground, point);
    feasible_joined(q, rates, point);
    feasible_joined(p, tasks, point);
    feasible_joined(clock, movements, point);
}

/// How many segments an interval has.
pub open spec fn segment_count(input: &BlendInput<Fixed>) -> nat {
    if input.segments_per_interval < 1 {
        1
    } else {
        input.segments_per_interval as nat
    }
}

proof fn sizes(input: &BlendInput<Fixed>)
    ensures
        input.intervals@.len() <= usize::MAX,
        input.loaders@.len() <= usize::MAX,
        input.ground@.len() <= usize::MAX,
        input.tasks@.len() <= usize::MAX,
        input.destinations@.len() <= usize::MAX,
        input.movements@.len() <= usize::MAX,
        segment_count(input) == whole_of(input).segments,
{
    assert(input.intervals.len() == input.intervals@.len());
    assert(input.loaders.len() == input.loaders@.len());
    assert(input.ground.len() == input.ground@.len());
    assert(input.tasks.len() == input.tasks@.len());
    assert(input.destinations.len() == input.destinations@.len());
    assert(input.movements.len() == input.movements@.len());
}

// Movements.

proof fn most_is(speed: Fixed, length: int)
    requires
        0 < speed.0,
        0 <= length <= i64::MAX,
    ensures
        ({
            let most = speed.times(Fixed(length as i64)).0 as int;
            &&& 0 <= most
            &&& most * STEPS <= speed.0 * length
            &&& speed.0 * length < i64::MAX * STEPS ==> speed.0 * length < (most + 1) * STEPS
        }),
{
    let product = speed.0 * length;
    assert(0 <= product) by (nonlinear_arith)
        requires
            product == speed.0 * length,
            0 < speed.0,
            0 <= length,
    ;
    assert(quotient(product, STEPS as int) == product / 1_000_000_000);
}

/// What a candidate moves in a segment is at most what it can move in the whole
/// interval, and the model lets it move that much.
pub proof fn movements_keep_to_their_speed(
    input: &BlendInput<Fixed>,
    c: int,
    i: int,
    s: int,
    speed: Fixed,
    point: spec_fn(Column) -> int,
)
    requires
        0 <= c < input.movements@.len(),
        0 <= i < input.intervals@.len(),
        0 <= s < segment_count(input),
        has_speed(input, c, i, speed),
        0 < speed.0,
        0 <= input.intervals@[i].end_h.0 - input.intervals@[i].start_h.0 <= i64::MAX,
    ensures
        ({
            let length = input.intervals@[i].end_h.0 - input.intervals@[i].start_h.0;
            let tonnes = point(Column::Movement { candidate: c as usize, interval: i as usize, segment: s as usize });
            &&& admits(input, point) ==> 0 <= tonnes && tonnes * STEPS <= speed.0 * length
            &&& 0 <= tonnes && tonnes * STEPS <= speed.0 * length - STEPS && speed.0 * length < i64::MAX * STEPS
                ==> feasible(whole_of(input).movement_line(c, i)(s), point)
        }),
{
    sizes(input);
    let whole = whole_of(input);
    let length = input.intervals@[i].end_h.0 - input.intervals@[i].start_h.0;
    speed_is(input, c, i, speed);
    assert(whole.length(i) == Fixed(length as i64));
    most_is(speed, length);
    let line = whole.movement_line(c, i)(s)[0];
    assert(whole.movement_line(c, i)(s) =~= seq![line]);
    feasible_single(line, point);
    if admits(input, point) {
        model_in_parts(input, point);
        feasible_one(input.movements@.len(), whole.movement_lines(), c, point);
        feasible_one(whole.horizon(), whole.movement_interval(c), i, point);
        feasible_one(whole.segments as nat, whole.movement_line(c, i), s, point);
    }
}

// Loaders.

/// What each candidate of a loader moves in a segment by digging, or by
/// reclaiming.
pub open spec fn loader_moved(
    input: &BlendInput<Fixed>,
    l: int,
    activity: Activity,
    i: int,
    s: int,
    point: spec_fn(Column) -> int,
) -> spec_fn(int) -> int {
    |c: int|
        if input.movements@[c].loader == input.loaders@[l].id && input.movements@[c].activity == activity {
            STEPS * moved(input, c, i, s, point)
        } else {
            0
        }
}

/// A loader moves no more in a segment, of what it digs and of what it reclaims,
/// than its rate times the length of the segment; and the model lets it move
/// that much.
pub proof fn loaders_keep_to_their_rates(
    input: &BlendInput<Fixed>,
    l: int,
    activity: Activity,
    i: int,
    s: int,
    rate: IntervalRate<Fixed>,
    point: spec_fn(Column) -> int,
)
    requires
        0 <= l < input.loaders@.len(),
        0 <= i < input.intervals@.len(),
        0 <= s < segment_count(input),
        has_rate(input, l, i, rate),
    ensures
        ({
            let speed = match activity {
                Activity::Dig => rate.dig_tph.0 as int,
                Activity::Reclaim => rate.reclaim_tph.0 as int,
            };
            let sum = summed(input.movements@.len(), loader_moved(input, l, activity, i, s, point));
            &&& admits(input, point) && 0 < speed ==> sum <= speed * lasts(i, s, point)
            &&& 0 <= lasts(i, s, point) && 0 < speed && sum <= speed * lasts(i, s, point) ==> feasible(
                whole_of(input).rate_line(l, i, s, activity),
                point,
            )
        }),
{
    sizes(input);
    let whole = whole_of(input);
    rate_is(input, l, i, rate);
    let speed = match activity {
        Activity::Dig => rate.dig_tph,
        Activity::Reclaim => rate.reclaim_tph,
    };
    let sel = Selector::Work { loader: l as usize, activity };
    let f = loader_moved(input, l, activity, i, s, point);
    assert(one::<Fixed>().0 == STEPS);
    cell_weighs(input, sel, i, s, f, point);
    let terms = whole.cell_terms(sel, i, s);
    let first = seq![(whole.duration(i, s), speed.opposite())];
    let row = at_most_row(first + terms, nil::<Fixed>());
    feasible_single(row, point);
    joined_terms(first, terms, point);
    weighs_one(whole.duration(i, s), speed.opposite(), point);
    let (k, d) = (speed.0 as int, lasts(i, s, point));
    assert((-k) * d == -(k * d)) by (nonlinear_arith);
    if admits(input, point) && 0 < k {
        segments_fill_interval(input, i, point);
        assert(segment_time(input, i, point)(s) == lasts(i, s, point));
        assert(0 <= k * d) by (nonlinear_arith)
            requires
                0 < k,
                0 <= d,
        ;
        model_in_parts(input, point);
        feasible_one(input.loaders@.len(), whole.loader_rates(), l, point);
        feasible_one(whole.horizon(), whole.rate_interval(l), i, point);
        feasible_one(whole.segments as nat, whole.rate_segment(l, i), s, point);
        let dig = whole.rate_line(l, i, s, Activity::Dig);
        let reclaim = whole.rate_line(l, i, s, Activity::Reclaim);
        let chosen = flat(whole.candidates(), whole.selected_line(l, i, s));
        assert(whole.rate_segment(l, i)(s) == dig + reclaim + chosen);
        feasible_parts(dig + reclaim, chosen, point);
        feasible_parts(dig, reclaim, point);
    }
}

// Sums over segments and intervals.

/// What a candidate moves in each segment of an interval.
pub open spec fn moved_by_segment(input: &BlendInput<Fixed>, c: int, i: int, point: spec_fn(Column) -> int) -> spec_fn(
    int,
) -> int {
    |s: int| STEPS * moved(input, c, i, s, point)
}

/// What a candidate moves in an interval.
pub open spec fn moved_in(input: &BlendInput<Fixed>, c: int, i: int, point: spec_fn(Column) -> int) -> int {
    summed(segment_count(input), moved_by_segment(input, c, i, point))
}

proof fn run_weighs(input: &BlendInput<Fixed>, sel: Selector, c: int, i: int, n: nat, point: spec_fn(Column) -> int)
    requires
        0 <= c < input.movements@.len(),
        0 <= i <= usize::MAX,
    ensures
        weighed(whole_of(input).run_of(sel, c, i, n), point) == (match whole_of(input).weight(sel, c) {
            Some(weight) => if weight == one::<Fixed>() {
                summed(n, moved_by_segment(input, c, i, point))
            } else {
                weighed(whole_of(input).run_of(sel, c, i, n), point)
            },
            None => 0,
        }),
    decreases n,
{
    reveal(weighed);
    let whole = whole_of(input);
    runs_is(input, c, i);
    if let Some(weight) = whole.weight(sel, c) {
        if weight == one::<Fixed>() {
            if n > 0 {
                let m = (n - 1) as nat;
                run_weighs(input, sel, c, i, m, point);
                let terms = whole.run_of(sel, c, i, n);
                if whole.moves(c, i) {
                    assert(terms.drop_last() =~= whole.run_of(sel, c, i, m));
                    assert(weight.0 == STEPS);
                } else {
                    assert(whole.run_of(sel, c, i, m) =~= terms);
                    assert(STEPS * 0 == 0);
                }
            } else {
                assert(whole.run_of(sel, c, i, n).len() == 0);
            }
        }
    }
}

// Destinations.

/// What each candidate brings to a destination in an interval.
pub open spec fn brought_in(input: &BlendInput<Fixed>, d: int, i: int, point: spec_fn(Column) -> int) -> spec_fn(
    int,
) -> int {
    |c: int|
        if input.movements@[c].destination == input.destinations@[d].id {
            moved_in(input, c, i, point)
        } else {
            0
        }
}

/// What is brought to a destination in each interval.
pub open spec fn brought(input: &BlendInput<Fixed>, d: int, point: spec_fn(Column) -> int) -> spec_fn(int) -> int {
    |i: int| summed(input.movements@.len(), brought_in(input, d, i, point))
}

/// What is brought to a destination in each interval that starts on a day.
pub open spec fn brought_on(input: &BlendInput<Fixed>, d: int, day: int, point: spec_fn(Column) -> int) -> spec_fn(
    int,
) -> int {
    |i: int|
        if input.intervals@[i].start_h.0 as int / DAY as int == day {
            summed(input.movements@.len(), brought_in(input, d, i, point))
        } else {
            0
        }
}

proof fn interval_weighs(input: &BlendInput<Fixed>, d: int, i: int, point: spec_fn(Column) -> int)
    requires
        0 <= d < input.destinations@.len(),
        0 <= i < input.intervals@.len(),
    ensures
        weighed(
            whole_of(input).run_terms(Selector::Deliver { destination: d as usize }, i, whole_of(input).segments as nat),
            point,
        ) == summed(input.movements@.len(), brought_in(input, d, i, point)),
{
    sizes(input);
    let whole = whole_of(input);
    let sel = Selector::Deliver { destination: d as usize };
    let n = whole.segments as nat;
    let terms = whole.run_term(sel, i, n);
    let f = brought_in(input, d, i, point);
    assert forall|c: int| 0 <= c < input.movements@.len() implies weighed(#[trigger] terms(c), point) == f(c) by {
        run_weighs(input, sel, c, i, n, point);
    }
    flat_weighs(input.movements@.len(), terms, f, point);
}

/// The rows of a destination hold exactly where a crusher is brought no more,
/// in the intervals that start on a day, than its limit for the day, and any
/// other destination no more in all than it has room for.
pub proof fn destination_rows(input: &BlendInput<Fixed>, d: int, point: spec_fn(Column) -> int)
    requires
        0 <= d < input.destinations@.len(),
        forall|i: int| 0 <= i < input.intervals@.len() ==> (#[trigger] input.intervals@[i]).start_h.0 >= 0,
    ensures
        feasible(whole_of(input).destination_lines()(d), point) == ({
            let destination = input.destinations@[d];
            &&& destination.kind is Crusher ==> forall|day: int|
                #![trigger destination.crusher_daily_t@[day]]
                0 <= day < destination.crusher_daily_t@.len() ==> (destination.crusher_daily_t@[day] matches Some(limit)
                    ==> summed(input.intervals@.len(), brought_on(input, d, day, point)) <= limit.0 * STEPS)
            &&& !(destination.kind is Crusher) ==> (destination.capacity_t matches Some(capacity) ==> summed(
                input.intervals@.len(),
                brought(input, d, point),
            ) <= capacity.0 * STEPS)
        }),
{
    let whole = whole_of(input);
    let destination = input.destinations@[d];
    let n = input.intervals@.len();
    if destination.kind is Crusher {
        let days = destination.crusher_daily_t@.len();
        feasible_each(days, whole.crusher_line(d), point);
        assert forall|day: int| 0 <= day < days implies feasible(#[trigger] whole.crusher_line(d)(day), point) == (
        destination.crusher_daily_t@[day] matches Some(limit) ==> summed(n, brought_on(input, d, day, point)) <= limit.0
            * STEPS) by {
            let terms = whole.day_terms(d, day);
            let f = brought_on(input, d, day, point);
            assert forall|i: int| 0 <= i < n implies weighed(#[trigger] terms(i), point) == f(i) by {
                interval_weighs(input, d, i, point);
                first_period(input.intervals@[i].start_h);
                assert(whole.interval(i).calendar_day() == falls_in(input.intervals@[i].start_h));
                weighs_one(whole.movement(0, i, 0), nil::<Fixed>(), point);
            }
            flat_weighs(n, terms, f, point);
            match destination.crusher_daily_t@[day] {
                Some(limit) => {
                    feasible_single(at_most_row(flat(n, terms), limit), point);
                },
                None => {
                    feasible_single(at_most_row(flat(n, terms), nil::<Fixed>()), point);
                },
            }
        }
        if feasible(whole.destination_lines()(d), point) {
            assert forall|day: int|
                #![trigger destination.crusher_daily_t@[day]]
                0 <= day < days implies (destination.crusher_daily_t@[day] matches Some(limit) ==> summed(
                n,
                brought_on(input, d, day, point),
            ) <= limit.0 * STEPS) by {
                assert(feasible(whole.crusher_line(d)(day), point));
            }
        }
    } else {
        let terms = whole.all_day_terms(d);
        let f = brought(input, d, point);
        assert forall|i: int| 0 <= i < n implies weighed(#[trigger] terms(i), point) == f(i) by {
            interval_weighs(input, d, i, point);
        }
        flat_weighs(n, terms, f, point);
        match destination.capacity_t {
            Some(capacity) => {
                feasible_single(at_most_row(flat(n, terms), capacity), point);
            },
            None => {
                feasible_single(at_most_row(flat(n, terms), nil::<Fixed>()), point);
            },
        }
    }
}

/// A crusher is brought no more on a day than its limit for the day, and any
/// other destination no more in all than it has room for.
pub proof fn destinations_keep_to_their_limits(input: &BlendInput<Fixed>, d: int, point: spec_fn(Column) -> int)
    requires
        admits(input, point),
        0 <= d < input.destinations@.len(),
        forall|i: int| 0 <= i < input.intervals@.len() ==> (#[trigger] input.intervals@[i]).start_h.0 >= 0,
    ensures
        ({
            let destination = input.destinations@[d];
            &&& destination.kind is Crusher ==> forall|day: int|
                #![trigger destination.crusher_daily_t@[day]]
                0 <= day < destination.crusher_daily_t@.len() ==> (destination.crusher_daily_t@[day] matches Some(limit)
                    ==> summed(input.intervals@.len(), brought_on(input, d, day, point)) <= limit.0 * STEPS)
            &&& !(destination.kind is Crusher) ==> (destination.capacity_t matches Some(capacity) ==> summed(
                input.intervals@.len(),
                brought(input, d, point),
            ) <= capacity.0 * STEPS)
        }),
{
    model_in_parts(input, point);
    feasible_one(input.destinations@.len(), whole_of(input).destination_lines(), d, point);
    destination_rows(input, d, point);
}

// Reclaim tasks.

/// What a candidate moves in each interval.
pub open spec fn moved_by_interval(input: &BlendInput<Fixed>, c: int, point: spec_fn(Column) -> int) -> spec_fn(
    int,
) -> int {
    |i: int| moved_in(input, c, i, point)
}

/// What each candidate reclaims for a task: those of the task's loader that
/// reclaim from a pile that the task approves of.
pub open spec fn reclaimed_for(
    input: &BlendInput<Fixed>,
    t: int,
    approved: Seq<StockpileId>,
    point: spec_fn(Column) -> int,
) -> spec_fn(int) -> int {
    |c: int|
        if input.movements@[c].loader == input.tasks@[t].loader && input.movements@[c].activity is Reclaim && exists|
            k: int,
        |
            0 <= k < approved.len() && input.movements@[c].source == SourceId::Stockpile(#[trigger] approved[k]) {
            summed(input.intervals@.len(), moved_by_interval(input, c, point))
        } else {
            0
        }
}

/// The row of a reclaim task with a maximum holds exactly where what is
/// reclaimed for it, over all intervals and segments, is no more than that.
pub proof fn maximum_rows(
    input: &BlendInput<Fixed>,
    t: int,
    approved: Vec<StockpileId>,
    maximum: Fixed,
    point: spec_fn(Column) -> int,
)
    requires
        0 <= t < input.tasks@.len(),
        input.tasks@[t].kind == (TaskKind::Reclaim { approved_sources: approved, maximum_t: Some(maximum) }),
    ensures
        feasible(whole_of(input).maximum_lines()(t), point) == (summed(
            input.movements@.len(),
            reclaimed_for(input, t, approved@, point),
        ) <= maximum.0 * STEPS),
{
    sizes(input);
    let whole = whole_of(input);
    let n = input.movements@.len();
    let terms = whole.cap_candidate(t);
    let f = reclaimed_for(input, t, approved@, point);
    let sel = Selector::Authorised { task: t as usize };
    assert forall|c: int| 0 <= c < n implies weighed(#[trigger] terms(c), point) == f(c) by {
        let each = whole.cap_interval(t, c);
        let g = moved_by_interval(input, c, point);
        let chosen = whole.weight(sel, c) is Some;
        let none = |i: int| 0int;
        assert forall|i: int| 0 <= i < input.intervals@.len() implies weighed(#[trigger] each(i), point) == (if chosen {
            g(i)
        } else {
            none(i)
        }) by {
            run_weighs(input, sel, c, i, whole.segments as nat, point);
        }
        if let SourceId::Stockpile(pile) = input.movements@[c].source {
            assert(approved@.contains(pile) <==> exists|k: int|
                0 <= k < approved@.len() && input.movements@[c].source == SourceId::Stockpile(#[trigger] approved@[k]));
        }
        if chosen {
            flat_weighs(input.intervals@.len(), each, g, point);
        } else {
            flat_weighs(input.intervals@.len(), each, none, point);
            summed_scaled(input.intervals@.len(), none, none, 0);
            assert(0 * summed(input.intervals@.len(), none) == 0) by (nonlinear_arith);
        }
    }
    flat_weighs(n, terms, f, point);
    feasible_single(at_most_row(flat(n, terms), maximum), point);
}

/// A reclaim task with a maximum reclaims no more than that.
pub proof fn reclaim_tasks_keep_to_their_maximum(
    input: &BlendInput<Fixed>,
    t: int,
    approved: Vec<StockpileId>,
    maximum: Fixed,
    point: spec_fn(Column) -> int,
)
    requires
        admits(input, point),
        0 <= t < input.tasks@.len(),
        input.tasks@[t].kind == (TaskKind::Reclaim { approved_sources: approved, maximum_t: Some(maximum) }),
    ensures
        summed(input.movements@.len(), reclaimed_for(input, t, approved@, point)) <= maximum.0 * STEPS,
{
    model_in_parts(input, point);
    feasible_one(input.tasks@.len(), whole_of(input).maximum_lines(), t, point);
    maximum_rows(input, t, approved, maximum, point);
}

// Ground.

/// What each candidate digs of a block in a segment.
pub open spec fn dug_by(input: &BlendInput<Fixed>, g: int, i: int, s: int, point: spec_fn(Column) -> int) -> spec_fn(
    int,
) -> int {
    |c: int|
        if input.movements@[c].activity is Dig && input.movements@[c].source == SourceId::Ground(input.ground@[g].id) {
            STEPS * moved(input, c, i, s, point)
        } else {
            0
        }
}

/// What is left of a block after a segment.
pub open spec fn left_of(g: int, i: int, s: int, point: spec_fn(Column) -> int) -> int {
    point(Column::GroundRemaining { source: g as usize, interval: i as usize, segment: s as usize })
}

/// The lines of a block in a segment hold exactly where what is left of it is
/// what was left before, or the whole block at the start, without what is dug
/// of it in the segment.
pub proof fn block_rows(input: &BlendInput<Fixed>, g: int, i: int, s: int, point: spec_fn(Column) -> int)
    requires
        0 <= g < input.ground@.len(),
        0 <= i < input.intervals@.len(),
        0 <= s < segment_count(input),
    ensures
        feasible(whole_of(input).ground_line(g, i)(s), point) == ({
            let before = if i == 0 && s == 0 {
                input.ground@[g].tonnes_t.0 as int
            } else if s == 0 {
                left_of(g, i - 1, segment_count(input) - 1, point)
            } else {
                left_of(g, i, s - 1, point)
            };
            let left = left_of(g, i, s, point);
            &&& 0 <= left <= input.ground@[g].tonnes_t.0
            &&& STEPS * before == STEPS * left + summed(input.movements@.len(), dug_by(input, g, i, s, point))
        }),
{
    sizes(input);
    let whole = whole_of(input);
    let sel = Selector::Dig { source: g as usize };
    assert(one::<Fixed>().0 == STEPS);
    cell_weighs(input, sel, i, s, dug_by(input, g, i, s, point), point);
    let left = whole.remaining(g, i, s);
    let first = seq![(left, one::<Fixed>())];
    let dug = whole.cell_terms(sel, i, s);
    let terms = first + dug;
    joined_terms(first, dug, point);
    one_term(left, point);
    let lines = whole.ground_line(g, i)(s);
    assert(lines =~= seq![lines[0]] + seq![lines[1]]);
    feasible_joined(seq![lines[0]], seq![lines[1]], point);
    feasible_single(lines[0], point);
    feasible_single(lines[1], point);
    if i > 0 || s > 0 {
        let prior = if s == 0 {
            whole.remaining(g, i - 1, whole.segments - 1)
        } else {
            whole.remaining(g, i, s - 1)
        };
        one_less(terms, prior, point);
    }
}

/// What each candidate digs of one material of a block in a segment.
pub open spec fn dug_of(
    input: &BlendInput<Fixed>,
    g: int,
    k: int,
    i: int,
    s: int,
    point: spec_fn(Column) -> int,
) -> spec_fn(int) -> int {
    |c: int|
        if input.movements@[c].activity is Dig && input.movements@[c].source == SourceId::Ground(input.ground@[g].id)
            && input.movements@[c].material == input.ground@[g].material@[k].material {
            STEPS * moved(input, c, i, s, point)
        } else {
            0
        }
}

/// The row of a material of a block in a segment holds exactly where what is
/// dug of it is its fraction of what is extracted.
pub proof fn portion_rows(input: &BlendInput<Fixed>, g: int, k: int, i: int, s: int, point: spec_fn(Column) -> int)
    requires
        0 <= g < input.ground@.len(),
        0 <= k < input.ground@[g].material@.len(),
        0 <= i < input.intervals@.len(),
        0 <= s < segment_count(input),
        input.ground@[g].material@[k].fraction.0 > i64::MIN,
    ensures
        feasible(whole_of(input).portion_line(g, i, s)(k), point) == (summed(
            input.movements@.len(),
            dug_of(input, g, k, i, s, point),
        ) == input.ground@[g].material@[k].fraction.0 * point(
            Column::Extract { source: g as usize, interval: i as usize, segment: s as usize },
        )),
{
    sizes(input);
    let whole = whole_of(input);
    let share = input.ground@[g].material@[k];
    let sel = Selector::DigMaterial { source: g as usize, material: share.material };
    assert(one::<Fixed>().0 == STEPS);
    cell_weighs(input, sel, i, s, dug_of(input, g, k, i, s, point), point);
    let first = seq![(whole.extract(g, i, s), share.fraction.opposite())];
    let terms = whole.cell_terms(sel, i, s);
    joined_terms(first, terms, point);
    weighs_one(whole.extract(g, i, s), share.fraction.opposite(), point);
    feasible_single(equal_row(first + terms, nil::<Fixed>()), point);
    let (f, x) = (share.fraction.0 as int, point(whole.extract(g, i, s)));
    assert((-f) * x == -(f * x)) by (nonlinear_arith);
}

/// A block with several materials gives them up in their fractions: in every
/// segment what is dug of each is its fraction of one amount.
pub proof fn blocks_give_their_blend(input: &BlendInput<Fixed>, g: int, k: int, i: int, s: int, point: spec_fn(Column) -> int)
    requires
        admits(input, point),
        0 <= g < input.ground@.len(),
        2 <= input.ground@[g].material@.len(),
        0 <= k < input.ground@[g].material@.len(),
        0 <= i < input.intervals@.len(),
        0 <= s < segment_count(input),
        input.ground@[g].material@[k].fraction.0 > i64::MIN,
    ensures
        summed(input.movements@.len(), dug_of(input, g, k, i, s, point)) == input.ground@[g].material@[k].fraction.0
            * point(Column::Extract { source: g as usize, interval: i as usize, segment: s as usize }),
{
    model_in_parts(input, point);
    sizes(input);
    let whole = whole_of(input);
    feasible_one(input.ground@.len(), whole.portion_lines(), g, point);
    feasible_one(whole.horizon(), whole.portion_interval(g), i, point);
    feasible_one(whole.segments as nat, whole.portion_segment(g, i), s, point);
    let column = seq![continuous(whole.extract(g, i, s), input.ground@[g].tonnes_t)];
    let rows = flat(input.ground@[g].material@.len(), whole.portion_line(g, i, s));
    assert(whole.portion_segment(g, i)(s) == column + rows);
    feasible_parts(column, rows, point);
    feasible_one(input.ground@[g].material@.len(), whole.portion_line(g, i, s), k, point);
    portion_rows(input, g, k, i, s, point);
}

/// Whether a block is used up after a segment.
pub open spec fn gone(input: &BlendInput<Fixed>, g: int, i: int, s: int, point: spec_fn(Column) -> int) -> int {
    point(Column::Exhausted { source: g as usize, position: (i * segment_count(input) + s) as usize })
}

/// A block is called used up only where nothing is left of it, and whatever is
/// left otherwise is within its tonnes.
pub proof fn used_up_is_empty(input: &BlendInput<Fixed>, g: int, i: int, s: int, point: spec_fn(Column) -> int)
    requires
        admits(input, point),
        0 <= g < input.ground@.len(),
        0 <= i < input.intervals@.len(),
        0 <= s < segment_count(input),
    ensures
        gone(input, g, i, s, point) == 0 || gone(input, g, i, s, point) == STEPS,
        gone(input, g, i, s, point) == STEPS ==> left_of(g, i, s, point) == 0,
{
    model_in_parts(input, point);
    sizes(input);
    let whole = whole_of(input);
    feasible_one(input.ground@.len(), whole.exhausted_lines(), g, point);
    feasible_one(whole.horizon(), whole.exhausted_interval(g), i, point);
    feasible_one(whole.segments as nat, whole.exhausted_line(g, i), s, point);
    let lines = whole.exhausted_line(g, i)(s);
    kept(lines, 0, point);
    kept(lines, 1, point);
    let flag = whole.exhausted(g, whole.cell(i, s));
    let tonnes = input.ground@[g].tonnes_t;
    assert(point(flag) == gone(input, g, i, s, point));
    first_of_two(whole.remaining(g, i, s), flag, tonnes, tonnes, point);
    feasible_one(input.ground@.len(), whole.ground_lines(), g, point);
    feasible_one(whole.horizon(), whole.ground_interval(g), i, point);
    feasible_one(whole.segments as nat, whole.ground_line(g, i), s, point);
    block_rows(input, g, i, s, point);
}

/// A task's loader digs a block of the task's sequence only once the block
/// before it is used up.
pub proof fn blocks_are_dug_in_order(
    input: &BlendInput<Fixed>,
    t: int,
    sequence: Vec<GroundId>,
    w: int,
    g: int,
    c: int,
    i: int,
    s: int,
    point: spec_fn(Column) -> int,
)
    requires
        admits(input, point),
        0 <= t < input.tasks@.len(),
        input.tasks@[t].kind == (TaskKind::<Fixed>::Dig { sequence }),
        0 <= w < sequence@.len() - 1,
        keyed(input.ground@, sequence@[w].0) == Some(g),
        0 <= g < input.ground@.len(),
        0 <= c < input.movements@.len(),
        input.movements@[c].activity is Dig,
        input.movements@[c].source == SourceId::Ground(sequence@[w + 1]),
        input.movements@[c].loader == input.tasks@[t].loader,
        0 <= i < input.intervals@.len(),
        0 <= s < segment_count(input),
        (input.intervals@.len() + 1) * (input.segments_per_interval + 1) <= usize::MAX,
        0 < moved(input, c, i, s, point),
        candidate_rate(*input, input.movements@[c], i as usize) matches Some(rate) ==> rate.times(
            whole_of(input).length(i),
        ).0 > i64::MIN,
    ensures
        i > 0 || s > 0,
        gone(
            input,
            g,
            if s > 0 {
                i
            } else {
                i - 1
            },
            if s > 0 {
                s - 1
            } else {
                segment_count(input) - 1
            },
            point,
        ) == STEPS,
{
    model_in_parts(input, point);
    sizes(input);
    runs_is(input, c, i);
    let whole = whole_of(input);
    feasible_one(input.tasks@.len(), whole.follow_lines(), t, point);
    feasible_one(whole.pairs(sequence@), whole.follow_pair(t, sequence@), w, point);
    feasible_one(whole.horizon(), whole.follow_interval(t, g, sequence@[w + 1]), i, point);
    feasible_one(whole.segments as nat, whole.follow_segment(t, g, sequence@[w + 1], i), s, point);
    feasible_one(input.movements@.len(), whole.follow_line(t, g, sequence@[w + 1], i, s), c, point);
    let lines = whole.follow_line(t, g, sequence@[w + 1], i, s)(c);
    kept(lines, 0, point);
    let column = whole.movement(c, i, s);
    if i == 0 && s == 0 {
        one_term(column, point);
    } else {
        let n = segment_count(input) as int;
        let (pi, ps) = if s > 0 {
            (i, s - 1)
        } else {
            (i - 1, n - 1)
        };
        assert(i * n + s - 1 == pi * n + ps) by (nonlinear_arith)
            requires
                (s > 0 && pi == i && ps == s - 1) || (s == 0 && pi == i - 1 && ps == n - 1),
        ;
        used_up_is_empty(input, g, pi, ps, point);
        let flag = whole.exhausted(g, whole.cell(i, s) - 1);
        let big = whole.rate_or_zero(c, i).times(whole.length(i));
        first_of_two(column, flag, big.opposite(), nil::<Fixed>(), point);
        assert(point(flag) == gone(input, g, pi, ps, point));
    }
}

} // verus!
