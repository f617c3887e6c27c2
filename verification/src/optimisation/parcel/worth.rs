//! What a parcel model is solved for, and when it is solved again, told of the
//! numbers alone.
use vstd::prelude::*;

use crate::listing::folded;
use crate::optimisation::blended::tallies::{value_is_the_sum, worth_of, worth_size};
use crate::optimisation::parcel::base::Parcels;
use crate::optimisation::parcel::columns::{ParcelColumn, StreamKey};
use crate::optimisation::parcel::publish::receipts::worth;
use crate::optimisation::parcel::solve::{
    ended, granted, grown, largest_step, left_of, off_whole, worth_floor, BackendStatus,
};
use crate::optimisation::points::summed;
use crate::optimisation::result::SolveStatus;
use crate::scalar::{shrunk, size, Fixed, Scalar, STEPS};

verus! {

/// What each route that a column stands for is worth.
pub open spec fn worth_at(model: Parcels<Fixed>, column: ParcelColumn) -> spec_fn(int) -> int {
    |x: int|
        if model.moves()[x].column == column {
            let cashflow = model.input.movements@[model.moves()[x].candidate as int].cashflow@;
            summed(cashflow.len(), worth_of(cashflow))
        } else {
            0
        }
}

/// How much each route that a column stands for may be worth.
pub open spec fn worth_within(model: Parcels<Fixed>, column: ParcelColumn) -> spec_fn(int) -> int {
    |x: int|
        if model.moves()[x].column == column {
            let cashflow = model.input.movements@[model.moves()[x].candidate as int].cashflow@;
            summed(cashflow.len(), worth_size(cashflow))
        } else {
            0
        }
}

proof fn sum_in_size(n: nat, f: spec_fn(int) -> int, g: spec_fn(int) -> int)
    requires
        forall|k: int| 0 <= k < n ==> size(#[trigger] f(k)) <= g(k),
    ensures
        size(summed(n, f)) <= summed(n, g),
    decreases n,
{
    if n > 0 {
        sum_in_size((n - 1) as nat, f, g);
        assert(size(f(n - 1)) <= g(n - 1));
    }
}

proof fn worth_so_far(model: Parcels<Fixed>, column: ParcelColumn, n: nat)
    requires
        n <= model.moves().len(),
        summed(n, worth_within(model, column)) < i64::MAX,
    ensures
        folded(n, Fixed::of_whole(0), model.worth_step(column)).0 == summed(n, worth_at(model, column)),
        size(summed(n, worth_at(model, column))) <= summed(n, worth_within(model, column)),
    decreases n,
{
    if n > 0 {
        let m = (n - 1) as nat;
        let candidate = model.input.movements@[model.moves()[m as int].candidate as int];
        let cashflow = candidate.cashflow@;
        sum_in_size(cashflow.len(), worth_of(cashflow), worth_size(cashflow));
        not_below(m, model, column);
        worth_so_far(model, column, m);
        if model.moves()[m as int].column == column {
            value_is_the_sum(candidate);
            assert(worth(candidate).0 == summed(cashflow.len(), worth_of(cashflow)));
        }
    }
}

proof fn not_below(n: nat, model: Parcels<Fixed>, column: ParcelColumn)
    ensures
        0 <= summed(n, worth_within(model, column)),
    decreases n,
{
    if n > 0 {
        not_below((n - 1) as nat, model, column);
        let cashflow = model.input.movements@[model.moves()[n - 1].candidate as int].cashflow@;
        sum_in_size(cashflow.len(), worth_of(cashflow), worth_size(cashflow));
    }
}

/// A column is worth, for the first objective, what a tonne of each route that it
/// stands for is worth, added up.
pub proof fn columns_are_worth_their_routes(model: Parcels<Fixed>, column: ParcelColumn)
    requires
        summed(model.moves().len(), worth_within(model, column)) < i64::MAX,
    ensures
        model.primary_cost(column).0 == summed(model.moves().len(), worth_at(model, column)),
{
    worth_so_far(model, column, model.moves().len());
}

/// Candidate `c` brings a stream's material from its source to its pile.
pub open spec fn brings(model: Parcels<Fixed>, stream: StreamKey, c: int) -> bool {
    let candidate = model.input.movements@[c];
    &&& 0 <= c < model.input.movements@.len()
    &&& candidate.source == stream.source
    &&& candidate.material == stream.material
    &&& model.ends_on(candidate.destination, stream.pile)
}

proof fn shortest_so_far(model: Parcels<Fixed>, stream: StreamKey, n: nat)
    requires
        n <= model.input.movements@.len(),
    ensures
        match folded(n, None::<Fixed>, model.cycle_step(stream)) {
            Some(hours) => (exists|c: int|
                c < n && #[trigger] brings(model, stream, c) && model.input.movements@[c].truck_hours_per_tonne == hours)
                && forall|c: int|
                c < n && #[trigger] brings(model, stream, c) ==> hours.0
                    <= model.input.movements@[c].truck_hours_per_tonne.0,
            None => forall|c: int| c < n ==> !#[trigger] brings(model, stream, c),
        },
    decreases n,
{
    if n > 0 {
        let m = (n - 1) as nat;
        shortest_so_far(model, stream, m);
        let step = model.cycle_step(stream);
        let before = folded(m, None::<Fixed>, step);
        assert(folded(n, None::<Fixed>, step) == step(before, m as int));
        if brings(model, stream, m as int) {
            assert(brings(model, stream, m as int) && model.input.movements@[m as int].truck_hours_per_tonne
                == model.input.movements@[m as int].truck_hours_per_tonne);
        }
        if let Some(hours) = before {
            let c = choose|c: int|
                c < m && #[trigger] brings(model, stream, c) && model.input.movements@[c].truck_hours_per_tonne == hours;
            assert(c < n && brings(model, stream, c));
        }
    }
}

/// The shortest cycle of a stream is the least that a tonne takes on any route
/// that brings it, and nothing where there is none.
pub proof fn shortest_cycles_are_the_least(model: Parcels<Fixed>, stream: StreamKey)
    ensures
        forall|c: int| #[trigger]
            brings(model, stream, c) ==> model.shortest_cycle(stream).0
                <= model.input.movements@[c].truck_hours_per_tonne.0,
        (exists|c: int| #[trigger] brings(model, stream, c)) ==> exists|c: int| #[trigger]
            brings(model, stream, c) && model.input.movements@[c].truck_hours_per_tonne == model.shortest_cycle(stream),
        (forall|c: int| !#[trigger] brings(model, stream, c)) ==> model.shortest_cycle(stream).0 == 0,
{
    let n = model.input.movements@.len();
    shortest_so_far(model, stream, n);
    if let Some(hours) = folded(n, None::<Fixed>, model.cycle_step(stream)) {
        let c = choose|c: int|
            c < n && #[trigger] brings(model, stream, c) && model.input.movements@[c].truck_hours_per_tonne == hours;
        assert(brings(model, stream, c) && model.input.movements@[c].truck_hours_per_tonne == model.shortest_cycle(
            stream,
        ));
    }
}

// Solving.

/// The first objective may give way by the tolerance, or by a ten-millionth of
/// it where that is more, and by no more.
pub proof fn worth_gives_way_a_little(tolerance: Fixed, primary: Fixed)
    requires
        0 <= tolerance.0 < 1_000_000_000_000_000_000,
        size(primary.0 as int) < 1_000_000_000_000_000_000,
    ensures
        ({
            let given = primary.0 - worth_floor(tolerance, primary).0;
            let share = size(primary.0 as int) / 10_000_000;
            &&& given >= tolerance.0
            &&& given >= share
            &&& given == tolerance.0 || given == share
        }),
{
    reveal_with_fuel(shrunk, 10);
    assert(Fixed::of_decimal(1, 7).0 == 100);
    let p = size(primary.0 as int);
    assert((p * 100) / 1_000_000_000 == p / 10_000_000);
}

/// A value is off the whole numbers by what it is from the nearest: no more than
/// a half, and nothing where it is whole.
pub proof fn values_are_off_by_the_nearest(value: Fixed, whole: int)
    requires
        size(value.0 as int) < 1_000_000_000_000_000_000,
    ensures
        2 * off_whole(value).0 <= STEPS,
        off_whole(value).0 <= size(value.0 - whole * STEPS),
        off_whole(value).0 == 0 <==> value.0 as int % STEPS as int == 0,
{
    let v = value.0 as int;
    let up = (size(v) + 500_000_000) / 1_000_000_000;
    let near = value.nearest() as int;
    assert(near == (if v < 0 {
        -up
    } else {
        up
    }));
    assert(off_whole(value).0 == size(v - near * 1_000_000_000));
}

/// What a backend says is taken as it is where it is an answer, as a limit with
/// or without a solution where it stopped short, and as cancelled only where it
/// was interrupted and that was asked for.
pub proof fn backends_are_understood(status: BackendStatus, feasible: bool, cancelled: bool)
    ensures
        ended(status, feasible, cancelled) is Optimal <==> status is Optimal,
        ended(status, feasible, cancelled) is Infeasible <==> status is Infeasible,
        ended(status, feasible, cancelled) is Unbounded <==> status is Unbounded,
        ended(status, feasible, cancelled) is Cancelled <==> status is Interrupt && cancelled,
        ended(status, feasible, cancelled) is FeasibleLimit ==> feasible,
        ended(status, feasible, cancelled) is LimitNoIncumbent ==> !feasible,
        ended(status, feasible, cancelled) is BackendFailure <==> status is UnboundedOrInfeasible || status is Other,
        status is TimeLimit || status is IterationLimit || status is SolutionLimit || status is MemoryLimit
            || status is ObjectiveBound || status is ObjectiveTarget ==> ended(status, feasible, cancelled) == (if feasible {
            SolveStatus::FeasibleLimit
        } else {
            SolveStatus::LimitNoIncumbent
        }),
{
}

/// The time that is left and the time that went make up the limit, while there is
/// any left.
pub proof fn time_runs_out(limit: u64, elapsed: u64)
    ensures
        elapsed <= limit ==> left_of(limit, elapsed) + elapsed == limit,
        elapsed > limit ==> left_of(limit, elapsed) == 0,
{
}

proof fn most_so_far(counts: Seq<usize>, n: nat)
    requires
        n <= counts.len(),
    ensures
        match folded(n, None::<usize>, largest_step(counts)) {
            Some(most) => (exists|i: int| 0 <= i < n && #[trigger] counts[i] == most) && forall|i: int|
                0 <= i < n ==> #[trigger] counts[i] <= most,
            None => n == 0,
        },
    decreases n,
{
    if n > 0 {
        let m = (n - 1) as nat;
        most_so_far(counts, m);
        if let Some(most) = folded(m, None::<usize>, largest_step(counts)) {
            let i = choose|i: int| 0 <= i < m && #[trigger] counts[i] == most;
            assert(0 <= i < n && counts[i] == most);
        }
        assert(counts[m as int] == counts[m as int]);
    }
}

/// A retry asks for twice the most segments that any interval was given, up to
/// sixty-four.
pub proof fn retries_double(counts: Seq<usize>, i: int)
    requires
        0 <= i < counts.len(),
    ensures
        counts[i] <= granted(counts),
        exists|k: int| 0 <= k < counts.len() && #[trigger] counts[k] == granted(counts),
        granted(counts) <= 32 ==> grown(granted(counts)) == 2 * granted(counts),
        32 < granted(counts) <= 64 ==> grown(granted(counts)) == 64,
{
    most_so_far(counts, counts.len());
}

} // verus!
