//! What holds of the loaders' and trucks' time at every point that a model
//! admits, told of the movements alone.
use vstd::prelude::*;

use crate::listing::{flat, keyed, keyed_from};
use crate::optimisation::blended::formulation::base::Selector;
use crate::optimisation::blended::formulation::formulate::model_of;
use crate::optimisation::blended::formulation::laws::{admits, whole_of};
use crate::optimisation::blended::formulation::model::Column;
use crate::optimisation::blended::formulation::working::{segment_time, segments_fill_interval};
use crate::optimisation::blended::input::{candidate_rate, rate_from, rate_of, BlendInput};
use crate::optimisation::ids::Activity;
use crate::optimisation::input::IntervalRate;
use crate::optimisation::points::{
    feasible, feasible_each, feasible_one, feasible_parts, feasible_single, flat_weighs, joined_terms, summed,
    summed_scaled, summed_within, weighed, weighs_one,
};
use crate::optimisation::sheet::{at_most_row, nil, one};
use crate::scalar::{held, quotient, Fixed, Scalar, STEPS};

verus! {

/// The rate of loader `l` in interval `i`: the first that is given for it.
pub open spec fn has_rate(input: &BlendInput<Fixed>, l: int, i: int, rate: IntervalRate<Fixed>) -> bool {
    exists|r: int|
        {
            &&& 0 <= r < input.loaders@[l].rates@.len()
            &&& (#[trigger] input.loaders@[l].rates@[r]).interval == i
            &&& input.loaders@[l].rates@[r] == rate
            &&& forall|k: int| 0 <= k < r ==> (#[trigger] input.loaders@[l].rates@[k]).interval != i
        }
}

/// Loader `l` is the one that candidate `c` names: the first of that name.
pub open spec fn has_loader(input: &BlendInput<Fixed>, c: int, l: int) -> bool {
    &&& 0 <= l < input.loaders@.len()
    &&& input.loaders@[l].id == input.movements@[c].loader
    &&& forall|k: int| 0 <= k < l ==> (#[trigger] input.loaders@[k]).id != input.movements@[c].loader
}

/// Candidate `c` moves `speed` an hour in interval `i`.
pub open spec fn has_speed(input: &BlendInput<Fixed>, c: int, i: int, speed: Fixed) -> bool {
    exists|l: int, rate: IntervalRate<Fixed>|
        #[trigger] has_loader(input, c, l) && #[trigger] has_rate(input, l, i, rate) && speed == (
        match input.movements@[c].activity {
            Activity::Dig => rate.dig_tph,
            Activity::Reclaim => rate.reclaim_tph,
        })
}

/// Candidate `c` can move anything in interval `i`.
pub open spec fn runs(input: &BlendInput<Fixed>, c: int, i: int) -> bool {
    exists|speed: Fixed| #[trigger] has_speed(input, c, i, speed) && 0 < speed.0
}

/// What candidate `c` moves in segment `s` of interval `i`.
pub open spec fn moved(input: &BlendInput<Fixed>, c: int, i: int, s: int, point: spec_fn(Column) -> int) -> int {
    if runs(input, c, i) {
        point(Column::Movement { candidate: c as usize, interval: i as usize, segment: s as usize })
    } else {
        0
    }
}

proof fn rate_found(input: &BlendInput<Fixed>, l: int, i: int, k: int)
    requires
        0 <= l < input.loaders@.len(),
        0 <= k,
        0 <= i <= usize::MAX,
        forall|x: int|
            0 <= x < k && x < input.loaders@[l].rates@.len() ==> (#[trigger] input.loaders@[l].rates@[x]).interval != i,
    ensures
        match rate_from(input.loaders@[l].rates@, i as usize, k) {
            Some(r) => {
                &&& 0 <= r < input.loaders@[l].rates@.len()
                &&& input.loaders@[l].rates@[r].interval == i
                &&& forall|x: int| 0 <= x < r ==> (#[trigger] input.loaders@[l].rates@[x]).interval != i
            },
            None => forall|x: int|
                0 <= x < input.loaders@[l].rates@.len() ==> (#[trigger] input.loaders@[l].rates@[x]).interval != i,
        },
    decreases input.loaders@[l].rates@.len() - k,
{
    if k < input.loaders@[l].rates@.len() && input.loaders@[l].rates@[k].interval != i {
        rate_found(input, l, i, k + 1);
    }
}

/// Rates are found.
pub proof fn rate_is(input: &BlendInput<Fixed>, l: int, i: int, rate: IntervalRate<Fixed>)
    requires
        0 <= l < input.loaders@.len(),
        0 <= i <= usize::MAX,
    ensures
        has_rate(input, l, i, rate) == (rate_of(input.loaders@[l], i as usize) == Some(rate)),
{
    rate_found(input, l, i, 0);
    if has_rate(input, l, i, rate) {
        let r = choose|r: int|
            {
                &&& 0 <= r < input.loaders@[l].rates@.len()
                &&& (#[trigger] input.loaders@[l].rates@[r]).interval == i
                &&& input.loaders@[l].rates@[r] == rate
                &&& forall|k: int| 0 <= k < r ==> (#[trigger] input.loaders@[l].rates@[k]).interval != i
            };
        let x = rate_from(input.loaders@[l].rates@, i as usize, 0)->0;
        assert(input.loaders@[l].rates@[x].interval == i);
        assert(x == r);
    }
}

proof fn loader_found(input: &BlendInput<Fixed>, c: int, k: int)
    requires
        0 <= c < input.movements@.len(),
        0 <= k,
        forall|x: int|
            0 <= x < k && x < input.loaders@.len() ==> (#[trigger] input.loaders@[x]).id != input.movements@[c].loader,
    ensures
        match keyed_from(input.loaders@, input.movements@[c].loader.0, k) {
            Some(l) => has_loader(input, c, l),
            None => forall|x: int|
                0 <= x < input.loaders@.len() ==> (#[trigger] input.loaders@[x]).id != input.movements@[c].loader,
        },
    decreases input.loaders@.len() - k,
{
    if k < input.loaders@.len() && input.loaders@[k].id != input.movements@[c].loader {
        loader_found(input, c, k + 1);
    }
}

/// Speeds are found.
pub proof fn speed_is(input: &BlendInput<Fixed>, c: int, i: int, speed: Fixed)
    requires
        0 <= c < input.movements@.len(),
        0 <= i <= usize::MAX,
    ensures
        has_speed(input, c, i, speed) == (candidate_rate(*input, input.movements@[c], i as usize) == Some(speed)),
{
    loader_found(input, c, 0);
    match keyed(input.loaders@, input.movements@[c].loader.0) {
        Some(l) => {
            if let Some(rate) = rate_of(input.loaders@[l], i as usize) {
                rate_is(input, l, i, rate);
            }
            if has_speed(input, c, i, speed) {
                let (x, rate) = choose|x: int, rate: IntervalRate<Fixed>|
                    #[trigger] has_loader(input, c, x) && #[trigger] has_rate(input, x, i, rate) && speed == (
                    match input.movements@[c].activity {
                        Activity::Dig => rate.dig_tph,
                        Activity::Reclaim => rate.reclaim_tph,
                    });
                assert(input.loaders@[x].id == input.loaders@[l].id);
                assert(x == l);
                rate_is(input, l, i, rate);
            }
        },
        None => {},
    }
}

/// Whether a candidate can move anything is found.
pub proof fn runs_is(input: &BlendInput<Fixed>, c: int, i: int)
    requires
        0 <= c < input.movements@.len(),
        0 <= i <= usize::MAX,
    ensures
        runs(input, c, i) == whole_of(input).moves(c, i),
{
    if let Some(speed) = candidate_rate(*input, input.movements@[c], i as usize) {
        speed_is(input, c, i, speed);
    }
    if runs(input, c, i) {
        let speed = choose|speed: Fixed| #[trigger] has_speed(input, c, i, speed) && 0 < speed.0;
        speed_is(input, c, i, speed);
    }
}

/// A sum over a segment is the sum over its movements.
pub proof fn cell_weighs(
    input: &BlendInput<Fixed>,
    sel: Selector,
    i: int,
    s: int,
    f: spec_fn(int) -> int,
    point: spec_fn(Column) -> int,
)
    requires
        0 <= i <= usize::MAX,
        forall|c: int|
            0 <= c < input.movements@.len() ==> #[trigger] f(c) == (match whole_of(input).weight(sel, c) {
                Some(weight) => weight.0 * moved(input, c, i, s, point),
                None => 0,
            }),
    ensures
        weighed(whole_of(input).cell_terms(sel, i, s), point) == summed(input.movements@.len(), f),
        whole_of(input).cell_terms(sel, i, s).len() == 0 ==> summed(input.movements@.len(), f) == 0,
{
    let whole = whole_of(input);
    let terms = whole.cell_term(sel, i, s);
    assert forall|c: int| 0 <= c < input.movements@.len() implies weighed(#[trigger] terms(c), point) == f(c) by {
        runs_is(input, c, i);
        let none = Seq::<(Column, Fixed)>::empty();
        assert(f(c) == f(c));
        match whole.weight(sel, c) {
            Some(weight) => {
                weighs_one(whole.movement(c, i, s), weight, point);
                assert(weight.0 * 0 == 0) by (nonlinear_arith);
            },
            None => {
                weighs_one(whole.movement(c, i, s), one::<Fixed>(), point);
            },
        }
    }
    flat_weighs(input.movements@.len(), terms, f, point);
    reveal(weighed);
}

// Trucks.

/// The parts of the rules' rows.
pub proof fn rules_feasible(input: &BlendInput<Fixed>, point: spec_fn(Column) -> int)
    requires
        admits(input, point),
    ensures
        ({
            let whole = whole_of(input);
            &&& feasible(flat(input.piles@.len(), whole.stock_lines()), point)
            &&& feasible(flat(input.loaders@.len(), whole.ready_lines()), point)
            &&& feasible(flat(input.trucks@.len(), whole.truck_lines()), point)
            &&& feasible(flat(input.destinations@.len(), whole.destination_lines()), point)
            &&& feasible(flat(input.tasks@.len(), whole.maximum_lines()), point)
            &&& feasible(flat(input.loaders@.len(), whole.source_lines()), point)
        }),
{
    reveal(admits);
    let whole = whole_of(input);
    let piles = flat(input.piles@.len(), whole.pile_lines());
    let routes = flat(whole.route_rules().len(), whole.route_lines());
    let payments = flat(input.conditional_values@.len(), whole.payment_lines());
    let sources = flat(input.loaders@.len(), whole.source_lines());
    let a = whole.cell_lines() + piles;
    let b = a + whole.rule_lines();
    let c = b + routes;
    let d = c + payments;
    assert(model_of(*input) == d + sources);
    feasible_parts(d, sources, point);
    feasible_parts(c, payments, point);
    feasible_parts(b, routes, point);
    feasible_parts(a, whole.rule_lines(), point);
    let stock = flat(input.piles@.len(), whole.stock_lines());
    let ready = flat(input.loaders@.len(), whole.ready_lines());
    let trucks = flat(input.trucks@.len(), whole.truck_lines());
    let destinations = flat(input.destinations@.len(), whole.destination_lines());
    let maxima = flat(input.tasks@.len(), whole.maximum_lines());
    let e = stock + ready;
    let f = e + trucks;
    let g = f + destinations;
    assert(whole.rule_lines() == g + maxima);
    feasible_parts(g, maxima, point);
    feasible_parts(f, destinations, point);
    feasible_parts(e, trucks, point);
    feasible_parts(stock, ready, point);
}

/// The hours of truck class `t` that each candidate takes up in a segment.
pub open spec fn class_hours(input: &BlendInput<Fixed>, t: int, i: int, s: int, point: spec_fn(Column) -> int) -> spec_fn(
    int,
) -> int {
    |c: int|
        if input.movements@[c].truck == input.trucks@[t].id {
            input.movements@[c].truck_hours_per_tonne.0 * moved(input, c, i, s, point)
        } else {
            0
        }
}

/// The hours of a truck class that are taken up in each segment of an interval.
pub open spec fn class_segments(input: &BlendInput<Fixed>, t: int, i: int, point: spec_fn(Column) -> int) -> spec_fn(
    int,
) -> int {
    |s: int| summed(input.movements@.len(), class_hours(input, t, i, s, point))
}

/// How long segment `s` of interval `i` is.
pub open spec fn lasts(i: int, s: int, point: spec_fn(Column) -> int) -> int {
    point(Column::Duration { interval: i as usize, segment: s as usize })
}

/// An interval takes time, in hours that are in range.
pub open spec fn takes_time(input: &BlendInput<Fixed>, i: int) -> bool {
    0 < input.intervals@[i].end_h.0 - input.intervals@[i].start_h.0 <= i64::MAX
}

proof fn class_row(input: &BlendInput<Fixed>, t: int, i: int, s: int, point: spec_fn(Column) -> int)
    requires
        0 <= t < input.trucks@.len(),
        0 <= i < input.intervals@.len(),
        i < input.trucks@[t].hours@.len(),
        0 <= input.trucks@[t].hours@[i].over(whole_of(input).length(i)).0,
        0 <= lasts(i, s, point),
    ensures
        feasible(whole_of(input).truck_line(t, i)(s), point) == (summed(
            input.movements@.len(),
            class_hours(input, t, i, s, point),
        ) <= input.trucks@[t].hours@[i].over(whole_of(input).length(i)).0 * lasts(i, s, point)),
{
    let whole = whole_of(input);
    assert(input.trucks.len() == input.trucks@.len() && input.intervals.len() == input.intervals@.len());
    let sel = Selector::Truck { truck: t as usize };
    let terms = whole.cell_terms(sel, i, s);
    let f = class_hours(input, t, i, s, point);
    cell_weighs(input, sel, i, s, f, point);
    let fleet = input.trucks@[t].hours@[i].over(whole.length(i));
    let first = seq![(whole.duration(i, s), fleet.opposite())];
    let row = at_most_row(first + terms, nil::<Fixed>());
    feasible_single(row, point);
    weighs_one(whole.duration(i, s), fleet.opposite(), point);
    joined_terms(first, terms, point);
    let (k, d) = (fleet.0 as int, lasts(i, s, point));
    assert((-k) * d == -(k * d)) by (nonlinear_arith);
    assert(0 <= k * d) by (nonlinear_arith)
        requires
            0 <= k,
            0 <= d,
    ;
}

/// A fleet is the hours over the time, to within a billionth of a truck.
pub proof fn fleet_near(hours: Fixed, length: int)
    requires
        0 <= hours.0,
        0 < length <= i64::MAX,
    ensures
        ({
            let fleet = hours.over(Fixed(length as i64)).0 as int;
            &&& 0 <= fleet
            &&& fleet * length <= hours.0 * STEPS
            &&& hours.0 * STEPS < i64::MAX * length ==> hours.0 * STEPS < (fleet + 1) * length
        }),
{
    let product = hours.0 * STEPS;
    let q = product / length;
    assert(hours.over(Fixed(length as i64)).0 == held(quotient(product, length)));
    assert(quotient(product, length) == q);
    vstd::arithmetic::div_mod::lemma_fundamental_div_mod(product, length);
    vstd::arithmetic::div_mod::lemma_mod_bound(product, length);
    vstd::arithmetic::div_mod::lemma_div_pos_is_pos(product, length);
    let fleet = hours.over(Fixed(length as i64)).0 as int;
    assert(fleet * length <= length * q) by (nonlinear_arith)
        requires
            0 <= fleet <= q,
            0 < length,
    ;
    if product < i64::MAX * length {
        assert(q < i64::MAX) by (nonlinear_arith)
            requires
                length * q <= product,
                product < i64::MAX * length,
                0 < length,
        ;
        assert((q + 1) * length == length * q + length) by (nonlinear_arith);
    }
}

/// In a segment, the movements of a truck class take up no more hours than the
/// class has in the interval, times the length of the segment over the length
/// of the interval.
pub proof fn trucks_keep_to_their_hours(input: &BlendInput<Fixed>, t: int, i: int, s: int, point: spec_fn(Column) -> int)
    requires
        admits(input, point),
        0 <= t < input.trucks@.len(),
        0 <= i < input.intervals@.len(),
        i < input.trucks@[t].hours@.len(),
        0 <= input.trucks@[t].hours@[i].0,
        takes_time(input, i),
        0 <= s < (if input.segments_per_interval < 1 { 1 } else { input.segments_per_interval as int }),
    ensures
        summed(input.movements@.len(), class_hours(input, t, i, s, point)) * (input.intervals@[i].end_h.0
            - input.intervals@[i].start_h.0) <= input.trucks@[t].hours@[i].0 * STEPS * lasts(i, s, point),
{
    let whole = whole_of(input);
    rules_feasible(input, point);
    feasible_one(input.trucks@.len(), whole.truck_lines(), t, point);
    feasible_one(whole.horizon(), whole.truck_interval(t), i, point);
    feasible_one(whole.segments as nat, whole.truck_line(t, i), s, point);
    segments_fill_interval(input, i, point);
    assert(segment_time(input, i, point)(s) == lasts(i, s, point));
    let length = input.intervals@[i].end_h.0 - input.intervals@[i].start_h.0;
    let hours = input.trucks@[t].hours@[i];
    assert(whole.length(i) == Fixed(length as i64));
    fleet_near(hours, length);
    let fleet = hours.over(whole.length(i)).0 as int;
    let sum = summed(input.movements@.len(), class_hours(input, t, i, s, point));
    let d = lasts(i, s, point);
    class_row(input, t, i, s, point);
    assert(sum * length <= hours.0 * STEPS * d) by (nonlinear_arith)
        requires
            sum <= fleet * d,
            fleet * length <= hours.0 * STEPS,
            0 <= d,
            0 < length,
    ;
}

/// Over an interval, the movements of a truck class take up no more hours than
/// the class has in it.
pub proof fn trucks_keep_to_their_interval(input: &BlendInput<Fixed>, t: int, i: int, point: spec_fn(Column) -> int)
    requires
        admits(input, point),
        0 <= t < input.trucks@.len(),
        0 <= i < input.intervals@.len(),
        i < input.trucks@[t].hours@.len(),
        0 <= input.trucks@[t].hours@[i].0,
        takes_time(input, i),
    ensures
        summed(
            (if input.segments_per_interval < 1 { 1 } else { input.segments_per_interval as nat }),
            class_segments(input, t, i, point),
        ) <= input.trucks@[t].hours@[i].0 * STEPS,
{
    let n = whole_of(input).segments as nat;
    let length = input.intervals@[i].end_h.0 - input.intervals@[i].start_h.0;
    let budget = input.trucks@[t].hours@[i].0 * STEPS;
    let used = class_segments(input, t, i, point);
    let time = segment_time(input, i, point);
    segments_fill_interval(input, i, point);
    let scaled = |s: int| length * used(s);
    let allowed = |s: int| budget * time(s);
    assert forall|s: int| 0 <= s < n implies #[trigger] scaled(s) <= allowed(s) by {
        trucks_keep_to_their_hours(input, t, i, s, point);
        let sum = used(s);
        assert(time(s) == lasts(i, s, point));
        assert(length * sum == sum * length) by (nonlinear_arith);
    }
    summed_within(n, scaled, allowed);
    summed_scaled(n, scaled, used, length);
    summed_scaled(n, allowed, time, budget);
    let all = summed(n, used);
    assert(all <= budget) by (nonlinear_arith)
        requires
            length * all <= budget * length,
            0 < length,
    ;
}

/// Trucks may take up the hours that they have: a point whose movements stay
/// within them in each segment, by a billionth of a truck, keeps to every row
/// of the trucks.
pub proof fn trucks_may_use_their_hours(input: &BlendInput<Fixed>, point: spec_fn(Column) -> int)
    requires
        forall|i: int, s: int| #[trigger] lasts(i, s, point) >= 0,
        forall|t: int, i: int|
            0 <= t < input.trucks@.len() && 0 <= i < input.trucks@[t].hours@.len() ==> 0 <= (
            #[trigger] input.trucks@[t].hours@[i]).0,
        forall|t: int, i: int, s: int|
            #![trigger class_segments(input, t, i, point)(s)]
            {
                let length = input.intervals@[i].end_h.0 - input.intervals@[i].start_h.0;
                0 <= t < input.trucks@.len() && 0 <= i < input.intervals@.len() && i < input.trucks@[t].hours@.len()
                    && 0 < length && 0 <= s < whole_of(input).segments ==> {
                    &&& length <= i64::MAX
                    &&& input.trucks@[t].hours@[i].0 * STEPS < i64::MAX * length
                    &&& class_segments(input, t, i, point)(s) * length <= (input.trucks@[t].hours@[i].0 * STEPS - length)
                        * lasts(i, s, point)
                }
            },
    ensures
        feasible(flat(input.trucks@.len(), whole_of(input).truck_lines()), point),
{
    let whole = whole_of(input);
    assert forall|t: int| 0 <= t < input.trucks@.len() implies feasible(#[trigger] whole.truck_lines()(t), point) by {
        assert forall|i: int| 0 <= i < whole.horizon() implies feasible(#[trigger] whole.truck_interval(t)(i), point) by {
            let length = input.intervals@[i].end_h.0 - input.intervals@[i].start_h.0;
            let n = whole.segments as nat;
            let skipped = i >= input.trucks@[t].hours@.len() || whole.length(i).at_most(Fixed::of_whole(0));
            if skipped {
                feasible_single(at_most_row(Seq::empty(), nil::<Fixed>()), point);
            } else {
                assert(0 < length);
                assert forall|s: int| 0 <= s < n implies feasible(#[trigger] whole.truck_line(t, i)(s), point) by {
                    let sum = class_segments(input, t, i, point)(s);
                    let hours = input.trucks@[t].hours@[i];
                    fleet_near(hours, length);
                    assert(whole.length(i) == Fixed(length as i64));
                    class_row(input, t, i, s, point);
                    let fleet = hours.over(whole.length(i)).0 as int;
                    let d = lasts(i, s, point);
                    assert(sum <= fleet * d) by (nonlinear_arith)
                        requires
                            sum * length <= (hours.0 * STEPS - length) * d,
                            hours.0 * STEPS < (fleet + 1) * length,
                            0 <= d,
                            0 < length,
                    ;
                }
                feasible_each(n, whole.truck_line(t, i), point);
            }
        }
        feasible_each(whole.horizon(), whole.truck_interval(t), point);
    }
    feasible_each(input.trucks@.len(), whole.truck_lines(), point);
}

} // verus!
