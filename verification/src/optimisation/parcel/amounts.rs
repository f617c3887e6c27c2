//! What a parcel model lets be dug, moved and reclaimed, told of the amounts
//! alone.
use vstd::prelude::*;

use crate::listing::{flat, keyed};
use crate::optimisation::blended::formulation::fleet::fleet_near;
use crate::optimisation::ids::{Activity, DestinationId, SourceId, TruckClassId};
use crate::optimisation::input::TaskKind;
use crate::optimisation::parcel::base::{hours_at, Parcels};
use crate::optimisation::parcel::columns::{MoveVariable, ParcelColumn, ReclaimVariable};
use crate::optimisation::parcel::keeping::{bounds_feasible, lines_feasible};
use crate::optimisation::parcel::laws::admits;
use crate::optimisation::parcel::select::{
    reclaim_chosen, reclaim_term, MoveSelector, ReclaimSelector,
};
use crate::optimisation::points::{
    feasible, feasible_joined, feasible_one, feasible_parts, feasible_single, flat_weighs, joined_terms, kept,
    summed, summed_scaled, weighed, weighs_one,
};
use crate::optimisation::sheet::{at_most_row, nil, one};
use crate::periods::{first_period, DAY};
use crate::production::falls_in;
use crate::scalar::{Fixed, Scalar, STEPS};

verus! {

// Sums.

/// What each entry gives to the sum of the reclaims that are chosen. The
/// materials of a lot are reclaimed together, and counted once.
pub open spec fn reclaimed_at(
    model: Parcels<Fixed>,
    chosen: spec_fn(ReclaimVariable<Fixed>) -> bool,
    point: spec_fn(ParcelColumn) -> int,
) -> spec_fn(int) -> int {
    |x: int|
        if model.reclaims()[x].share == 0 && chosen(model.reclaims()[x]) {
            point(model.reclaims()[x].column)
        } else {
            0
        }
}

/// What is reclaimed in all.
pub open spec fn reclaimed(
    model: Parcels<Fixed>,
    chosen: spec_fn(ReclaimVariable<Fixed>) -> bool,
    point: spec_fn(ParcelColumn) -> int,
) -> int {
    summed(model.reclaims().len(), reclaimed_at(model, chosen, point))
}

/// What each route gives to the sum of the routes that are chosen.
pub open spec fn moved_at(
    model: Parcels<Fixed>,
    chosen: spec_fn(MoveVariable) -> bool,
    weight: spec_fn(MoveVariable) -> int,
    point: spec_fn(ParcelColumn) -> int,
) -> spec_fn(int) -> int {
    |x: int|
        if chosen(model.moves()[x]) {
            weight(model.moves()[x]) * point(model.moves()[x].column)
        } else {
            0
        }
}

/// What is moved in all, weighted.
pub open spec fn moved(
    model: Parcels<Fixed>,
    chosen: spec_fn(MoveVariable) -> bool,
    weight: spec_fn(MoveVariable) -> int,
    point: spec_fn(ParcelColumn) -> int,
) -> int {
    summed(model.moves().len(), moved_at(model, chosen, weight, point))
}

/// A tonne counts once.
pub open spec fn tonnes() -> spec_fn(MoveVariable) -> int {
    |m: MoveVariable| STEPS as int
}

/// A tonne counts as the hours that its trucks take.
pub open spec fn truck_hours(model: Parcels<Fixed>) -> spec_fn(MoveVariable) -> int {
    |m: MoveVariable| model.input.movements@[m.candidate as int].truck_hours_per_tonne.0 as int
}

/// A sum of reclaims, as a row writes it.
pub proof fn reclaims_weigh(
    model: Parcels<Fixed>,
    sel: ReclaimSelector,
    weight: Fixed,
    chosen: spec_fn(ReclaimVariable<Fixed>) -> bool,
    point: spec_fn(ParcelColumn) -> int,
)
    requires
        forall|r: ReclaimVariable<Fixed>| #[trigger] chosen(r) == reclaim_chosen(sel, r),
    ensures
        weighed(model.reclaim_terms(sel, weight), point) == weight.0 * reclaimed(model, chosen, point),
{
    let n = model.reclaims().len();
    let terms = reclaim_term(model.reclaims(), sel, weight);
    let each = reclaimed_at(model, chosen, point);
    let f = |x: int| weight.0 * each(x);
    assert forall|x: int| 0 <= x < n implies weighed(#[trigger] terms(x), point) == f(x) by {
        let reclaim = model.reclaims()[x];
        weighs_one(reclaim.column, weight, point);
        assert(chosen(reclaim) == reclaim_chosen(sel, reclaim));
        assert(weight.0 * 0 == 0) by (nonlinear_arith);
    }
    flat_weighs(n, terms, f, point);
    summed_scaled(n, f, each, weight.0 as int);
}

/// A sum of routes, as a row writes it.
pub proof fn moves_weigh(
    model: Parcels<Fixed>,
    sel: MoveSelector,
    unit: Fixed,
    chosen: spec_fn(MoveVariable) -> bool,
    weight: spec_fn(MoveVariable) -> int,
    point: spec_fn(ParcelColumn) -> int,
)
    requires
        forall|m: MoveVariable| #[trigger] chosen(m) == model.move_chosen(sel, m),
        forall|m: MoveVariable| #[trigger] weight(m) == model.move_weight(sel, m, unit).0,
    ensures
        weighed(model.move_terms(sel, unit), point) == moved(model, chosen, weight, point),
{
    let n = model.moves().len();
    let terms = model.move_term(sel, unit);
    let f = moved_at(model, chosen, weight, point);
    assert forall|x: int| 0 <= x < n implies weighed(#[trigger] terms(x), point) == f(x) by {
        let m = model.moves()[x];
        assert(chosen(m) == model.move_chosen(sel, m));
        assert(weight(m) == model.move_weight(sel, m, unit).0);
        weighs_one(m.column, model.move_weight(sel, m, unit), point);
    }
    flat_weighs(n, terms, f, point);
}

// Reclaim tasks.

/// The reclaims of a task.
pub open spec fn of_task(t: int) -> spec_fn(ReclaimVariable<Fixed>) -> bool {
    |r: ReclaimVariable<Fixed>| r.task == t
}

/// The reclaims of a task in a cell.
pub open spec fn of_task_at(t: int, i: int, s: int) -> spec_fn(ReclaimVariable<Fixed>) -> bool {
    |r: ReclaimVariable<Fixed>| r.task == t && r.interval == i && r.segment == s
}

proof fn sizes(model: Parcels<Fixed>)
    ensures
        model.input.tasks@.len() <= usize::MAX,
        model.input.intervals@.len() <= usize::MAX,
        model.input.destinations@.len() <= usize::MAX,
        forall|d: int|
            0 <= d < model.input.destinations@.len() ==> (
            #[trigger] model.input.destinations@[d]).crusher_daily_t@.len() <= usize::MAX,
{
    assert(model.input.tasks.len() == model.input.tasks@.len());
    assert(model.input.intervals.len() == model.input.intervals@.len());
    assert(model.input.destinations.len() == model.input.destinations@.len());
    assert forall|d: int| 0 <= d < model.input.destinations@.len() implies (
    #[trigger] model.input.destinations@[d]).crusher_daily_t@.len() <= usize::MAX by {
        assert(model.input.destinations@[d].crusher_daily_t.len() == model.input.destinations@[d].crusher_daily_t@.len());
    }
}

/// The rows of a reclaim task hold exactly where those of its cells do and the
/// task reclaims, over all intervals, segments and units, no more than its
/// maximum.
pub proof fn reclaim_task_rows(model: Parcels<Fixed>, t: int, maximum: Fixed, point: spec_fn(ParcelColumn) -> int)
    requires
        0 <= t < model.input.tasks@.len(),
        model.input.tasks@[t].kind matches TaskKind::Reclaim { maximum_t, .. } && maximum_t == Some(maximum),
    ensures
        feasible(model.reclaim_task_lines()(t), point) == (feasible(
            flat(model.horizon(), model.reclaim_task_interval(t)),
            point,
        ) && reclaimed(model, of_task(t), point) <= maximum.0),
{
    sizes(model);
    let sel = ReclaimSelector::OfTaskEver { task: t as usize };
    let all = model.reclaim_terms(sel, one::<Fixed>());
    let cells = flat(model.horizon(), model.reclaim_task_interval(t));
    let row = at_most_row(all, maximum);
    assert(model.reclaim_task_lines()(t) == cells + seq![row]);
    feasible_joined(cells, seq![row], point);
    feasible_single(row, point);
    reclaims_weigh(model, sel, one::<Fixed>(), of_task(t), point);
    assert(one::<Fixed>().0 == 1_000_000_000);
    let sum = reclaimed(model, of_task(t), point);
    assert(weighed(all, point) == 1_000_000_000 * sum);
}

/// A reclaim task with a maximum reclaims no more than that, over all
/// intervals, segments and units.
pub proof fn reclaim_tasks_keep_to_their_maximum(
    model: Parcels<Fixed>,
    t: int,
    maximum: Fixed,
    point: spec_fn(ParcelColumn) -> int,
)
    requires
        admits(model, point),
        0 <= t < model.input.tasks@.len(),
        model.input.tasks@[t].kind matches TaskKind::Reclaim { maximum_t, .. } && maximum_t == Some(maximum),
    ensures
        reclaimed(model, of_task(t), point) <= maximum.0,
{
    bounds_feasible(model, point);
    feasible_one(model.input.tasks@.len(), model.reclaim_task_lines(), t, point);
    reclaim_task_rows(model, t, maximum, point);
}

/// What is listed in a part is listed in all.
proof fn listed_in_all<A>(n: nat, f: spec_fn(int) -> Seq<A>, i: int, x: A)
    requires
        0 <= i < n,
        f(i).contains(x),
    ensures
        flat(n, f).contains(x),
    decreases n,
{
    let m = (n - 1) as nat;
    let (before, all) = (flat(m, f), flat(n, f));
    assert(all == before + f(m as int));
    if i < m {
        listed_in_all(m, f, i, x);
        let k = choose|k: int| 0 <= k < before.len() && before[k] == x;
        assert(all[k] == x);
    } else {
        let part = f(i);
        let k = choose|k: int| 0 <= k < part.len() && part[k] == x;
        assert(all[before.len() + k] == x);
    }
}

/// Every opening lot of a pile that a reclaim task approves of is among the
/// reclaims of the task, in every segment of every interval that the task's
/// window holds and its loader has a rate in, where each of its materials can be
/// taken away then.
pub proof fn every_lot_is_counted(model: Parcels<Fixed>, t: int, i: int, s: int, k: int, l: int, p: int, o: int)
    requires
        0 <= t < model.input.tasks@.len() <= usize::MAX,
        0 <= i < model.input.intervals@.len() <= usize::MAX,
        0 <= s < model.segments(i),
        model.input.tasks@[t].kind is Reclaim,
        0 <= k < model.input.tasks@[t].kind->approved_sources@.len(),
        keyed(model.input.loaders@, model.input.tasks@[t].loader.0) == Some(l),
        0 <= i < model.input.loaders@[l].rates@.len(),
        0 < model.input.loaders@[l].rates@[i].reclaim_tph.0,
        model.input.tasks@[t].window_start_h.at_most(
            model.input.intervals@[i].start_h.plus(Fixed::of_decimal(1, 9)),
        ),
        model.input.intervals@[i].end_h.minus(Fixed::of_decimal(1, 9)).at_most(model.input.tasks@[t].window_end_h),
        keyed(model.input.stockpiles@, model.input.tasks@[t].kind->approved_sources@[k].0) == Some(p),
        0 <= o < model.input.stockpiles@[p].opening@.len(),
        model.input.stockpiles@[p].opening@[o].material@.len() > 0,
        forall|j: int|
            0 <= j < model.input.stockpiles@[p].opening@[o].material@.len() ==> model.has_route(
                model.input.tasks@[t].loader,
                Activity::Reclaim,
                SourceId::Stockpile(model.input.tasks@[t].kind->approved_sources@[k]),
                (#[trigger] model.input.stockpiles@[p].opening@[o].material@[j]).material,
                i,
            ),
    ensures
        exists|x: int|
            {
                &&& 0 <= x < model.reclaims().len()
                &&& (#[trigger] model.reclaims()[x]).share == 0
                &&& of_task_at(t, i, s)(model.reclaims()[x])
                &&& model.reclaims()[x].column == ParcelColumn::ReclaimLot {
                    task: t as usize,
                    interval: i as usize,
                    segment: s as usize,
                    source: k as usize,
                    opening: o as usize,
                }
            },
{
    let lots = model.input.stockpiles@[p].opening@;
    let entry = model.lot_share(t, i, s, k, o, lots[o])(0)[0];
    assert(model.operable(
        model.input.tasks@[t].loader,
        SourceId::Stockpile(model.approved(t)[k]),
        lots[o].material@,
        i,
    ));
    assert(model.lot_share(t, i, s, k, o, lots[o])(0).contains(entry));
    listed_in_all(lots[o].material@.len(), model.lot_share(t, i, s, k, o, lots[o]), 0, entry);
    listed_in_all(lots.len(), model.lot_reclaims(t, i, s, k, lots), o, entry);
    let first = flat(lots.len(), model.lot_reclaims(t, i, s, k, lots));
    let rest = flat(model.groups().len(), model.receipt_reclaims(t, i, s, k));
    let at = choose|at: int| 0 <= at < first.len() && first[at] == entry;
    assert((first + rest)[at] == entry);
    assert(model.source_reclaims(t, i, s)(k) == first + rest);
    listed_in_all(model.approved(t).len(), model.source_reclaims(t, i, s), k, entry);
    listed_in_all(model.segments(i), model.segment_reclaims(t, i), s, entry);
    listed_in_all(model.horizon(), model.interval_reclaims(t), i, entry);
    listed_in_all(model.input.tasks@.len(), model.task_reclaims(), t, entry);
    let x = choose|x: int| 0 <= x < model.reclaims().len() && model.reclaims()[x] == entry;
    assert(model.reclaims()[x].share == 0);
}

// Destinations.

/// The routes that end at a destination.
pub open spec fn ends_at(model: Parcels<Fixed>, destination: DestinationId) -> spec_fn(MoveVariable) -> bool {
    |m: MoveVariable| model.input.movements@[m.candidate as int].destination == destination
}

/// The routes that end at a destination in an interval that starts on a day.
pub open spec fn ends_on_day(model: Parcels<Fixed>, destination: DestinationId, day: int) -> spec_fn(
    MoveVariable,
) -> bool {
    |m: MoveVariable|
        model.input.movements@[m.candidate as int].destination == destination
            && model.input.intervals@[m.interval as int].start_h.0 as int / DAY as int == day
}

/// The rows of a dump hold exactly where no more than its capacity ends there.
pub proof fn dump_rows(model: Parcels<Fixed>, d: int, capacity: Fixed, point: spec_fn(ParcelColumn) -> int)
    requires
        0 <= d < model.input.destinations@.len(),
        model.input.destinations@[d].kind is Dump,
        model.input.destinations@[d].capacity_t == Some(capacity),
    ensures
        feasible(model.limit_lines()(d), point) == (moved(
            model,
            ends_at(model, model.input.destinations@[d].id),
            tonnes(),
            point,
        ) <= capacity.0 * STEPS),
{
    let id = model.input.destinations@[d].id;
    let sel = MoveSelector::Ever { destination: id };
    moves_weigh(model, sel, one::<Fixed>(), ends_at(model, id), tonnes(), point);
    feasible_single(at_most_row(model.move_terms(sel, one::<Fixed>()), capacity), point);
}

/// The row of a day of a crusher holds exactly where no more than the day's
/// limit ends there in intervals that start on the day.
pub proof fn crusher_rows(model: Parcels<Fixed>, d: int, day: int, limit: Fixed, point: spec_fn(ParcelColumn) -> int)
    requires
        0 <= d < model.input.destinations@.len(),
        0 <= day < model.input.destinations@[d].crusher_daily_t@.len(),
        model.input.destinations@[d].crusher_daily_t@[day] == Some(limit),
        forall|i: int| (#[trigger] model.input.intervals@[i]).start_h.0 >= 0,
    ensures
        feasible(model.day_line(d)(day), point) == (moved(
            model,
            ends_on_day(model, model.input.destinations@[d].id, day),
            tonnes(),
            point,
        ) <= limit.0 * STEPS),
{
    sizes(model);
    let id = model.input.destinations@[d].id;
    let sel = MoveSelector::OnDay { destination: id, day: day as usize };
    let chosen = ends_on_day(model, id, day);
    assert forall|m: MoveVariable| #[trigger] chosen(m) == model.move_chosen(sel, m) by {
        let start = model.input.intervals@[m.interval as int].start_h;
        first_period(start);
        assert(model.interval(m.interval as int).calendar_day() == falls_in(start));
    }
    moves_weigh(model, sel, one::<Fixed>(), chosen, tonnes(), point);
    feasible_single(at_most_row(model.move_terms(sel, one::<Fixed>()), limit), point);
}

/// A dump takes no more than it has room for, and a crusher no more in a day
/// than its limit for the day.
pub proof fn destinations_keep_to_their_limits(model: Parcels<Fixed>, d: int, point: spec_fn(ParcelColumn) -> int)
    requires
        admits(model, point),
        0 <= d < model.input.destinations@.len(),
        forall|i: int| (#[trigger] model.input.intervals@[i]).start_h.0 >= 0,
    ensures
        ({
            let destination = model.input.destinations@[d];
            &&& destination.kind is Dump ==> match destination.capacity_t {
                Some(capacity) => moved(model, ends_at(model, destination.id), tonnes(), point) <= capacity.0 * STEPS,
                None => true,
            }
            &&& destination.kind is Crusher ==> forall|day: int|
                0 <= day < destination.crusher_daily_t@.len() ==> match #[trigger] destination.crusher_daily_t@[day] {
                    Some(limit) => moved(model, ends_on_day(model, destination.id, day), tonnes(), point) <= limit.0
                        * STEPS,
                    None => true,
                }
        }),
{
    bounds_feasible(model, point);
    let destination = model.input.destinations@[d];
    feasible_one(model.input.destinations@.len(), model.limit_lines(), d, point);
    if destination.kind is Dump {
        if let Some(capacity) = destination.capacity_t {
            dump_rows(model, d, capacity, point);
        }
    }
    if destination.kind is Crusher {
        assert forall|day: int| 0 <= day < destination.crusher_daily_t@.len() implies match #[trigger] destination.crusher_daily_t@[day] {
            Some(limit) => moved(model, ends_on_day(model, destination.id, day), tonnes(), point) <= limit.0 * STEPS,
            None => true,
        } by {
            feasible_one(destination.crusher_daily_t@.len(), model.day_line(d), day, point);
            if let Some(limit) = destination.crusher_daily_t@[day] {
                crusher_rows(model, d, day, limit, point);
            }
        }
    }
}

// Fleets.

/// The routes that a truck class works in a cell.
pub open spec fn hauled_by(model: Parcels<Fixed>, truck: TruckClassId, i: int, s: int) -> spec_fn(MoveVariable) -> bool {
    |m: MoveVariable| model.input.movements@[m.candidate as int].truck == truck && m.interval == i && m.segment == s
}

/// How long a segment is.
pub open spec fn lasts(i: int, s: int, point: spec_fn(ParcelColumn) -> int) -> int {
    point(ParcelColumn::Duration { interval: i as usize, segment: s as usize })
}

/// The row of a fleet in a cell holds exactly where the routes take up no more
/// hours there than the trucks have.
proof fn fleet_row(model: Parcels<Fixed>, k: int, i: int, s: int, point: spec_fn(ParcelColumn) -> int)
    requires
        0 <= k < model.input.trucks@.len(),
        0 <= i < model.input.intervals@.len(),
        0 <= s < model.segments(i),
        0 <= hours_at(model.input.trucks@[k].hours@, i).over(model.length(i)).0,
    ensures
        feasible(model.truck_line(k, i)(s), point) == (moved(
            model,
            hauled_by(model, model.input.trucks@[k].id, i, s),
            truck_hours(model),
            point,
        ) <= hours_at(model.input.trucks@[k].hours@, i).over(model.length(i)).0 * lasts(i, s, point)),
{
    sizes(model);
    let truck = model.input.trucks@[k];
    let sel = MoveSelector::Truck { truck: truck.id, interval: i as usize, segment: s as usize };
    let worked = model.move_terms(sel, one::<Fixed>());
    let units = hours_at(truck.hours@, i).over(model.length(i));
    moves_weigh(model, sel, one::<Fixed>(), hauled_by(model, truck.id, i, s), truck_hours(model), point);
    let last = seq![(model.duration(i, s), units.opposite())];
    let terms = worked.push((model.duration(i, s), units.opposite()));
    assert(terms =~= worked + last);
    joined_terms(worked, last, point);
    weighs_one(model.duration(i, s), units.opposite(), point);
    feasible_single(at_most_row(terms, nil::<Fixed>()), point);
    let (rate, time) = (units.0 as int, lasts(i, s, point));
    assert((-rate) * time == -(rate * time)) by (nonlinear_arith);
}

/// The columns of the segments.
proof fn first_columns(model: Parcels<Fixed>, point: spec_fn(ParcelColumn) -> int)
    requires
        feasible(model.column_lines(), point),
    ensures
        feasible(flat(model.horizon(), model.duration_columns()), point),
{
    let a = flat(model.horizon(), model.duration_columns());
    let b = flat(model.input.ground@.len(), model.ground_columns());
    let c = flat(model.input.loaders@.len(), model.loader_columns());
    let d = flat(model.dig_moves().len(), model.dig_move_column());
    let e = flat(model.parcels().len(), model.parcel_column());
    let f = flat(model.reclaims().len(), model.reclaim_column());
    let g = flat(model.reclaims().len(), model.way_columns());
    let h = flat(model.groups().len(), model.occupied_columns());
    let i = flat(model.input.stockpiles@.len(), model.pile_columns());
    let j = flat(model.input.destinations@.len(), model.destination_columns());
    let k = flat(model.digs().len(), model.route_columns());
    let ab = a + b;
    let abc = ab + c;
    let abcd = abc + d;
    let abcde = abcd + e;
    let to_f = abcde + f;
    let to_g = to_f + g;
    let to_h = to_g + h;
    let to_i = to_h + i;
    let to_j = to_i + j;
    assert(model.column_lines() == to_j + k);
    feasible_parts(to_j, k, point);
    feasible_parts(to_i, j, point);
    feasible_parts(to_h, i, point);
    feasible_parts(to_g, h, point);
    feasible_parts(to_f, g, point);
    feasible_parts(abcde, f, point);
    feasible_parts(abcd, e, point);
    feasible_parts(abc, d, point);
    feasible_parts(ab, c, point);
    feasible_parts(a, b, point);
}

proof fn clock(model: Parcels<Fixed>, i: int, s: int, point: spec_fn(ParcelColumn) -> int)
    requires
        admits(model, point),
        0 <= i < model.input.intervals@.len(),
        0 <= s < model.segments(i),
    ensures
        0 <= lasts(i, s, point) <= model.length(i).0,
{
    lines_feasible(model, point);
    first_columns(model, point);
    feasible_one(model.horizon(), model.duration_columns(), i, point);
    feasible_one(model.segments(i), model.duration_column(i), s, point);
    kept(model.duration_column(i)(s), 0, point);
}

/// In a segment, the routes of a truck class take up no more hours than the
/// class has in the interval, times the length of the segment over the length
/// of the interval.
pub proof fn fleets_keep_to_their_share(model: Parcels<Fixed>, k: int, i: int, s: int, point: spec_fn(ParcelColumn) -> int)
    requires
        admits(model, point),
        0 <= k < model.input.trucks@.len(),
        0 <= i < model.input.intervals@.len(),
        0 <= s < model.segments(i),
        i < model.input.trucks@[k].hours@.len(),
        0 <= model.input.trucks@[k].hours@[i].0,
        0 < model.input.intervals@[i].end_h.0 - model.input.intervals@[i].start_h.0 <= i64::MAX,
    ensures
        moved(model, hauled_by(model, model.input.trucks@[k].id, i, s), truck_hours(model), point) * (
        model.input.intervals@[i].end_h.0 - model.input.intervals@[i].start_h.0) <= model.input.trucks@[k].hours@[i].0
            * STEPS * lasts(i, s, point),
{
    bounds_feasible(model, point);
    feasible_one(model.input.trucks@.len(), model.truck_lines(), k, point);
    feasible_one(model.horizon(), model.truck_interval_lines(k), i, point);
    feasible_one(model.segments(i), model.truck_line(k, i), s, point);
    clock(model, i, s, point);
    let length = model.input.intervals@[i].end_h.0 - model.input.intervals@[i].start_h.0;
    let hours = model.input.trucks@[k].hours@[i];
    assert(model.length(i) == Fixed(length as i64));
    fleet_near(hours, length);
    fleet_row(model, k, i, s, point);
    let fleet = hours.over(model.length(i)).0 as int;
    let d = lasts(i, s, point);
    let sum = moved(model, hauled_by(model, model.input.trucks@[k].id, i, s), truck_hours(model), point);
    assert(sum * length <= hours.0 * STEPS * d) by (nonlinear_arith)
        requires
            sum <= fleet * d,
            fleet * length <= hours.0 * STEPS,
            0 <= d,
            0 < length,
    ;
}

/// A fleet may take up the hours that it has: a point whose routes stay within
/// them in a segment, by a billionth of a truck, keeps to the fleet's row.
pub proof fn fleets_may_use_their_share(model: Parcels<Fixed>, k: int, i: int, s: int, point: spec_fn(ParcelColumn) -> int)
    requires
        0 <= k < model.input.trucks@.len(),
        0 <= i < model.input.intervals@.len(),
        0 <= s < model.segments(i),
        i < model.input.trucks@[k].hours@.len(),
        0 <= model.input.trucks@[k].hours@[i].0,
        0 < model.input.intervals@[i].end_h.0 - model.input.intervals@[i].start_h.0 <= i64::MAX,
        model.input.trucks@[k].hours@[i].0 * STEPS < i64::MAX * (model.input.intervals@[i].end_h.0
            - model.input.intervals@[i].start_h.0),
        0 <= lasts(i, s, point),
        moved(model, hauled_by(model, model.input.trucks@[k].id, i, s), truck_hours(model), point) * (
        model.input.intervals@[i].end_h.0 - model.input.intervals@[i].start_h.0) <= (model.input.trucks@[k].hours@[i].0
            * STEPS - (model.input.intervals@[i].end_h.0 - model.input.intervals@[i].start_h.0)) * lasts(i, s, point),
    ensures
        feasible(model.truck_line(k, i)(s), point),
{
    let length = model.input.intervals@[i].end_h.0 - model.input.intervals@[i].start_h.0;
    let hours = model.input.trucks@[k].hours@[i];
    assert(model.length(i) == Fixed(length as i64));
    fleet_near(hours, length);
    fleet_row(model, k, i, s, point);
    let fleet = hours.over(model.length(i)).0 as int;
    let d = lasts(i, s, point);
    let sum = moved(model, hauled_by(model, model.input.trucks@[k].id, i, s), truck_hours(model), point);
    assert(sum <= fleet * d) by (nonlinear_arith)
        requires
            sum * length <= (hours.0 * STEPS - length) * d,
            hours.0 * STEPS < (fleet + 1) * length,
            0 <= d,
            0 < length,
    ;
}

} // verus!
