//! What every point that a parcel model admits keeps to: blocks, crushers,
//! dumps, fleets, piles, and the order in which piles give up what they hold.
use vstd::prelude::*;

use crate::listing::flat;
use crate::optimisation::ids::ReclaimOrder;
use crate::optimisation::input::opening_total;
use crate::optimisation::parcel::base::{hours_at, unit_dust, Parcels};
use crate::optimisation::parcel::columns::ParcelColumn;
use crate::optimisation::parcel::laws::admits;
use crate::optimisation::parcel::select::{
    reclaim_chosen, DigSelector, MoveSelector, ParcelPart, ParcelSelector, ReclaimSelector,
};
use crate::optimisation::points::{
    difference, feasible, feasible_one, feasible_parts, first_of_two, joined_terms, keeps, kept, one_term, two_terms,
    weighed,
};
use crate::optimisation::sheet::{at_least_row, at_most_row, equal_row, less_one, nil, one, Line};
use crate::scalar::{Fixed, Scalar, STEPS};

verus! {

proof fn columns_feasible(model: Parcels<Fixed>, point: spec_fn(ParcelColumn) -> int)
    requires
        admits(model, point),
    ensures
        feasible(flat(model.input.ground@.len(), model.ground_columns()), point),
        feasible(flat(model.input.stockpiles@.len(), model.pile_columns()), point),
{
    lines_feasible(model, point);
    let a = flat(model.horizon(), model.duration_columns());
    let b = flat(model.input.ground@.len(), model.ground_columns());
    let c = flat(model.input.loaders@.len(), model.loader_columns());
    let d = flat(model.dig_moves().len(), model.dig_move_column());
    let e = flat(model.parcels().len(), model.parcel_column());
    let f = flat(model.reclaims().len(), model.reclaim_column());
    let g = flat(model.reclaims().len(), model.way_columns());
    let h = flat(model.groups().len(), model.occupied_columns());
    let i = flat(model.input.stockpiles@.len(), model.pile_columns());
    let j = flat(model.input.destinations@.len(), model.destination_columns());
    let k = flat(model.digs().len(), model.route_columns());
    let ab = a + b;
    let abc = ab + c;
    let abcd = abc + d;
    let abcde = abcd + e;
    let to_f = abcde + f;
    let to_g = to_f + g;
    let to_h = to_g + h;
    let to_i = to_h + i;
    let to_j = to_i + j;
    assert(model.column_lines() == to_j + k);
    feasible_parts(to_j, k, point);
    feasible_parts(to_i, j, point);
    feasible_parts(to_h, i, point);
    feasible_parts(to_g, h, point);
    feasible_parts(to_f, g, point);
    feasible_parts(abcde, f, point);
    feasible_parts(abcd, e, point);
    feasible_parts(abc, d, point);
    feasible_parts(ab, c, point);
    feasible_parts(a, b, point);
}

/// The parts of a model.
pub proof fn lines_feasible(model: Parcels<Fixed>, point: spec_fn(ParcelColumn) -> int)
    requires
        admits(model, point),
    ensures
        feasible(model.column_lines(), point),
        feasible(model.supply_lines(), point),
        feasible(flat(model.input.stockpiles@.len(), model.pile_lines()), point),
        feasible(model.bound_lines(), point),
{
    reveal(admits);
    let loaders = flat(model.input.loaders@.len(), model.loader_lines());
    let piles = flat(model.input.stockpiles@.len(), model.pile_lines());
    let a = model.column_lines() + model.supply_lines();
    let b = a + loaders;
    let c = b + model.receipt_lines();
    let d = c + piles;
    assert(model.lines() == d + model.bound_lines());
    feasible_parts(d, model.bound_lines(), point);
    feasible_parts(c, piles, point);
    feasible_parts(b, model.receipt_lines(), point);
    feasible_parts(a, loaders, point);
    feasible_parts(model.column_lines(), model.supply_lines(), point);
}

/// The parts of the rows of tasks, units, fleets and destinations.
pub proof fn bounds_feasible(model: Parcels<Fixed>, point: spec_fn(ParcelColumn) -> int)
    requires
        admits(model, point),
    ensures
        feasible(flat(model.input.tasks@.len(), model.reclaim_task_lines()), point),
        feasible(flat(model.reclaims().len(), model.reclaimed_line()), point),
        feasible(flat(model.input.trucks@.len(), model.truck_lines()), point),
        feasible(flat(model.input.destinations@.len(), model.limit_lines()), point),
{
    lines_feasible(model, point);
    let a = flat(model.input.tasks@.len(), model.reclaim_task_lines());
    let b = flat(model.reclaims().len(), model.reclaimed_line());
    let c = flat(model.input.trucks@.len(), model.truck_lines());
    let d = flat(model.input.destinations@.len(), model.limit_lines());
    assert(model.bound_lines() == a + b + c + d);
    feasible_parts(a + b + c, d, point);
    feasible_parts(a + b, c, point);
    feasible_parts(a, b, point);
}

// Ground.

/// What is dug of a block in a cell, as the row of the block sums it up.
pub open spec fn dug_in_cell(model: Parcels<Fixed>, g: int, i: int, s: int, point: spec_fn(ParcelColumn) -> int) -> int {
    weighed(
        model.dig_terms(
            DigSelector::OfCell { ground: model.input.ground@[g].id, interval: i as usize, segment: s as usize },
            one::<Fixed>(),
        ),
        point,
    )
}

/// What is dug of a block up to the end of a cell.
pub open spec fn dug_through(model: Parcels<Fixed>, g: int, i: int, s: int, point: spec_fn(ParcelColumn) -> int) -> int
    decreases i, s,
{
    let here = dug_in_cell(model, g, i, s, point);
    if s > 0 {
        dug_through(model, g, i, s - 1, point) + here
    } else if i > 0 {
        dug_through(model, g, i - 1, model.segments(i - 1) - 1, point) + here
    } else {
        here
    }
}

proof fn block_row(model: Parcels<Fixed>, g: int, i: int, s: int, point: spec_fn(ParcelColumn) -> int)
    requires
        admits(model, point),
        0 <= g < model.input.ground@.len(),
        0 <= i < model.horizon(),
        0 <= s < model.segments(i),
    ensures
        ({
            let left = point(model.remaining(g, i, s));
            let here = dug_in_cell(model, g, i, s, point);
            &&& 0 <= left
            &&& match model.cell_before(i, s) {
                None => STEPS * left + here == model.input.ground@[g].tonnes_t.0 * STEPS,
                Some(cell) => STEPS * left + here == STEPS * point(model.remaining(g, cell.0, cell.1)),
            }
        }),
{
    lines_feasible(model, point);
    columns_feasible(model, point);
    feasible_one(model.input.ground@.len(), model.ground_columns(), g, point);
    feasible_one(model.horizon(), model.ground_interval_columns(g), i, point);
    feasible_one(model.segments(i), model.ground_column(g, i), s, point);
    kept(model.ground_column(g, i)(s), 0, point);
    let clock = flat(model.horizon(), model.clock_line());
    let ground = flat(model.input.ground@.len(), model.ground_lines());
    let destinations = flat(model.input.destinations@.len(), model.destination_lines());
    let routes = flat(model.input.tasks@.len(), model.route_lines());
    assert(model.supply_lines() == clock + ground + destinations + routes);
    feasible_parts(clock + ground + destinations, routes, point);
    feasible_parts(clock + ground, destinations, point);
    feasible_parts(clock, ground, point);
    feasible_one(model.input.ground@.len(), model.ground_lines(), g, point);
    let whole = seq![
        at_most_row(
            model.dig_terms(DigSelector::OfGround { ground: model.input.ground@[g].id }, one::<Fixed>()),
            model.input.ground@[g].tonnes_t,
        ),
    ];
    assert(model.ground_lines()(g) == flat(model.horizon(), model.ground_interval_lines(g)) + whole);
    feasible_parts(flat(model.horizon(), model.ground_interval_lines(g)), whole, point);
    feasible_one(model.horizon(), model.ground_interval_lines(g), i, point);
    feasible_one(model.segments(i), model.ground_line(g, i), s, point);
    kept(model.ground_line(g, i)(s), 0, point);
    let here = model.dig_terms(
        DigSelector::OfCell { ground: model.input.ground@[g].id, interval: i as usize, segment: s as usize },
        one::<Fixed>(),
    );
    let left = model.remaining(g, i, s);
    match model.cell_before(i, s) {
        None => {
            let first = seq![(left, one::<Fixed>())];
            joined_terms(first, here, point);
            one_term(left, point);
        },
        Some(cell) => {
            let prior = model.remaining(g, cell.0, cell.1);
            let first = seq![(left, one::<Fixed>()), (prior, less_one::<Fixed>())];
            joined_terms(first, here, point);
            difference(left, prior, point);
        },
    }
}

/// A block is not dug beyond its tonnes: what was dug of it up to any cell and
/// what is left then make up the block.
pub proof fn blocks_keep_to_their_tonnes(model: Parcels<Fixed>, g: int, i: int, s: int, point: spec_fn(ParcelColumn) -> int)
    requires
        admits(model, point),
        0 <= g < model.input.ground@.len(),
        0 <= i < model.horizon(),
        0 <= s < model.segments(i),
        forall|k: int| 0 <= k < model.horizon() ==> #[trigger] model.segments(k) > 0,
    ensures
        dug_through(model, g, i, s, point) + STEPS * point(model.remaining(g, i, s)) == model.input.ground@[g].tonnes_t.0
            * STEPS,
        dug_through(model, g, i, s, point) <= model.input.ground@[g].tonnes_t.0 * STEPS,
    decreases i, s,
{
    block_row(model, g, i, s, point);
    if s > 0 {
        blocks_keep_to_their_tonnes(model, g, i, s - 1, point);
    } else if i > 0 {
        assert(model.segments(i - 1) > 0);
        blocks_keep_to_their_tonnes(model, g, i - 1, model.segments(i - 1) - 1, point);
    }
}

// Destinations and fleets.

/// A crusher takes no more in a day than its limit for the day.
pub proof fn crushers_keep_to_their_days(model: Parcels<Fixed>, d: int, day: int, point: spec_fn(ParcelColumn) -> int)
    requires
        admits(model, point),
        0 <= d < model.input.destinations@.len(),
        model.input.destinations@[d].kind is Crusher,
        0 <= day < model.input.destinations@[d].crusher_daily_t@.len(),
    ensures
        model.input.destinations@[d].crusher_daily_t@[day] matches Some(limit) ==> weighed(
            model.move_terms(
                MoveSelector::OnDay { destination: model.input.destinations@[d].id, day: day as usize },
                one::<Fixed>(),
            ),
            point,
        ) <= limit.0 * STEPS,
{
    bounds_feasible(model, point);
    feasible_one(model.input.destinations@.len(), model.limit_lines(), d, point);
    feasible_one(model.input.destinations@[d].crusher_daily_t@.len(), model.day_line(d), day, point);
    if model.input.destinations@[d].crusher_daily_t@[day] is Some {
        kept(model.day_line(d)(day), 0, point);
    }
}

/// A dump takes no more than it has room for.
pub proof fn dumps_keep_to_their_capacity(model: Parcels<Fixed>, d: int, point: spec_fn(ParcelColumn) -> int)
    requires
        admits(model, point),
        0 <= d < model.input.destinations@.len(),
        model.input.destinations@[d].kind is Dump,
    ensures
        model.input.destinations@[d].capacity_t matches Some(capacity) ==> weighed(
            model.move_terms(MoveSelector::Ever { destination: model.input.destinations@[d].id }, one::<Fixed>()),
            point,
        ) <= capacity.0 * STEPS,
{
    bounds_feasible(model, point);
    feasible_one(model.input.destinations@.len(), model.limit_lines(), d, point);
    if model.input.destinations@[d].capacity_t is Some {
        kept(model.limit_lines()(d), 0, point);
    }
}

/// A fleet works no longer in a segment than the share of its hours that the
/// segment has.
pub proof fn fleets_keep_to_their_hours(model: Parcels<Fixed>, k: int, i: int, s: int, point: spec_fn(ParcelColumn) -> int)
    requires
        admits(model, point),
        0 <= k < model.input.trucks@.len(),
        0 <= i < model.horizon(),
        0 <= s < model.segments(i),
        hours_at(model.input.trucks@[k].hours@, i).over(model.length(i)).0 > i64::MIN,
    ensures
        ({
            let truck = model.input.trucks@[k];
            weighed(
                model.move_terms(
                    MoveSelector::Truck { truck: truck.id, interval: i as usize, segment: s as usize },
                    one::<Fixed>(),
                ),
                point,
            ) <= hours_at(truck.hours@, i).over(model.length(i)).0 * point(model.duration(i, s))
        }),
{
    bounds_feasible(model, point);
    feasible_one(model.input.trucks@.len(), model.truck_lines(), k, point);
    feasible_one(model.horizon(), model.truck_interval_lines(k), i, point);
    feasible_one(model.segments(i), model.truck_line(k, i), s, point);
    kept(model.truck_line(k, i)(s), 0, point);
    let truck = model.input.trucks@[k];
    let worked = model.move_terms(
        MoveSelector::Truck { truck: truck.id, interval: i as usize, segment: s as usize },
        one::<Fixed>(),
    );
    let units = hours_at(truck.hours@, i).over(model.length(i)).opposite();
    let terms = worked.push((model.duration(i, s), units));
    reveal_with_fuel(weighed, 2);
    assert(terms.drop_last() =~= worked);
    let (rate, time) = (hours_at(truck.hours@, i).over(model.length(i)).0 as int, point(model.duration(i, s)));
    assert(units.0 == -rate);
    assert((-rate) * time == -(rate * time)) by (nonlinear_arith);
}

// Piles.

proof fn pile_feasible(model: Parcels<Fixed>, p: int, i: int, s: int, point: spec_fn(ParcelColumn) -> int)
    requires
        admits(model, point),
        0 <= p < model.input.stockpiles@.len(),
        0 <= i < model.horizon(),
        0 <= s < model.segments(i),
    ensures
        0 <= point(model.closing(model.input.stockpiles@[p].id, i, s)) <= model.input.stockpiles@[p].capacity_t.0,
        ({
            let end = point(model.chain_end(model.input.stockpiles@[p].id, i, s));
            end == 0 || end == STEPS
        }),
        feasible(model.chain_lines(p, i, s), point),
        feasible(flat(model.live(p, i).len(), model.unit_line(p, i, s)), point),
        keeps(model.closing_line(p, i, s), point),
{
    columns_feasible(model, point);
    lines_feasible(model, point);
    feasible_one(model.input.stockpiles@.len(), model.pile_columns(), p, point);
    let units = if model.reclaimable(model.input.stockpiles@[p].id) {
        flat(model.units(p).len(), model.unit_columns(p))
    } else {
        Seq::<Line<ParcelColumn, Fixed>>::empty()
    };
    let cells = flat(model.horizon(), model.pile_interval_columns(p));
    assert(model.pile_columns()(p) == units + cells);
    feasible_parts(units, cells, point);
    feasible_one(model.horizon(), model.pile_interval_columns(p), i, point);
    feasible_one(model.segments(i), model.pile_cell_column(p, i), s, point);
    kept(model.pile_cell_column(p, i)(s), 0, point);
    kept(model.pile_cell_column(p, i)(s), 2, point);
    feasible_one(model.input.stockpiles@.len(), model.pile_lines(), p, point);
    feasible_one(model.horizon(), model.pile_interval_lines(p), i, point);
    feasible_one(model.segments(i), model.pile_cell_lines(p, i), s, point);
    let a = model.available_lines(p, i, s);
    let b = model.chain_lines(p, i, s);
    let c = flat(model.live(p, i).len(), model.unit_line(p, i, s));
    let d = seq![model.closing_line(p, i, s)];
    assert(model.pile_cell_lines(p, i)(s) == a + b + c + d);
    feasible_parts(a + b + c, d, point);
    feasible_parts(a + b, c, point);
    feasible_parts(a, b, point);
    kept(d, 0, point);
}

/// What a pile receives in a cell less what it gives up, with its sign turned.
pub open spec fn moved_in_cell(model: Parcels<Fixed>, p: int, i: int, s: int, point: spec_fn(ParcelColumn) -> int) -> int {
    let pile = model.input.stockpiles@[p].id;
    weighed(
        model.parcel_terms(
            ParcelSelector::OfCell { pile, interval: i as usize, segment: s as usize },
            ParcelPart::Quantity,
            less_one::<Fixed>(),
        ) + model.reclaim_terms(
            ReclaimSelector::OfPile { pile, interval: i as usize, segment: s as usize },
            one::<Fixed>(),
        ),
        point,
    )
}

/// A pile holds no more than it has room for, and what it holds after a cell is
/// what it held before, with what came and without what went.
pub proof fn piles_conserve_and_keep_to_their_room(
    model: Parcels<Fixed>,
    p: int,
    i: int,
    s: int,
    point: spec_fn(ParcelColumn) -> int,
)
    requires
        admits(model, point),
        0 <= p < model.input.stockpiles@.len(),
        0 <= i < model.horizon(),
        0 <= s < model.segments(i),
    ensures
        ({
            let pile = model.input.stockpiles@[p];
            let held = point(model.closing(pile.id, i, s));
            &&& 0 <= held <= pile.capacity_t.0
            &&& match model.cell_before(i, s) {
                None => STEPS * held + moved_in_cell(model, p, i, s, point) == opening_total(pile.opening@).0 * STEPS,
                Some(cell) => STEPS * held + moved_in_cell(model, p, i, s, point) == STEPS * point(
                    model.closing(pile.id, cell.0, cell.1),
                ),
            }
        }),
{
    pile_feasible(model, p, i, s, point);
    let pile = model.input.stockpiles@[p];
    let closing = model.closing(pile.id, i, s);
    let moved = model.parcel_terms(
        ParcelSelector::OfCell { pile: pile.id, interval: i as usize, segment: s as usize },
        ParcelPart::Quantity,
        less_one::<Fixed>(),
    ) + model.reclaim_terms(
        ReclaimSelector::OfPile { pile: pile.id, interval: i as usize, segment: s as usize },
        one::<Fixed>(),
    );
    match model.cell_before(i, s) {
        None => {
            let first = seq![(closing, one::<Fixed>())];
            joined_terms(first, moved, point);
            one_term(closing, point);
        },
        Some(cell) => {
            let first = seq![
                (closing, one::<Fixed>()),
                (model.closing(pile.id, cell.0, cell.1), less_one::<Fixed>()),
            ];
            joined_terms(first, moved, point);
            difference(closing, model.closing(pile.id, cell.0, cell.1), point);
        },
    }
}

// The order of units.

proof fn live_listed(model: Parcels<Fixed>, p: int, i: int, j: int, n: nat) -> (u: int)
    requires
        n <= model.units(p).len(),
        0 <= j < flat(n, model.live_unit(p, i)).len(),
    ensures
        0 <= u < n,
        model.units(p)[u] == flat(n, model.live_unit(p, i))[j],
        model.released(model.units(p)[u], i),
    decreases n,
{
    let m = (n - 1) as nat;
    let before = flat(m, model.live_unit(p, i));
    assert(flat(n, model.live_unit(p, i)) == before + model.live_unit(p, i)(n - 1));
    if j < before.len() {
        live_listed(model, p, i, j, m)
    } else {
        n - 1
    }
}

/// The flags of a unit are flags, and one that is flagged empty holds next to
/// nothing.
proof fn unit_flags(model: Parcels<Fixed>, p: int, i: int, s: int, j: int, point: spec_fn(ParcelColumn) -> int)
    requires
        admits(model, point),
        0 <= p < model.input.stockpiles@.len(),
        0 <= i < model.horizon(),
        0 <= s < model.segments(i),
        0 <= j < model.live(p, i).len(),
    ensures
        ({
            let unit = model.live(p, i)[j];
            let (chain, empty) = (point(model.unit_chain(unit, i, s)), point(model.unit_empty(unit, i, s)));
            &&& chain == 0 || chain == STEPS
            &&& empty == 0 || empty == STEPS
            &&& 0 <= point(model.unit_start(unit, i, s))
        }),
{
    let unit = model.live(p, i)[j];
    assert(model.reclaimable(model.input.stockpiles@[p].id));
    let u = live_listed(model, p, i, j, model.units(p).len());
    columns_feasible(model, point);
    feasible_one(model.input.stockpiles@.len(), model.pile_columns(), p, point);
    let units = flat(model.units(p).len(), model.unit_columns(p));
    let cells = flat(model.horizon(), model.pile_interval_columns(p));
    assert(model.pile_columns()(p) == units + cells);
    feasible_parts(units, cells, point);
    feasible_one(model.units(p).len(), model.unit_columns(p), u, point);
    let bound = model.unit_bound(p, unit);
    assert(model.unit_columns(p)(u) == flat(model.horizon(), model.unit_interval_columns(unit, bound)));
    feasible_one(model.horizon(), model.unit_interval_columns(unit, bound), i, point);
    assert(model.unit_interval_columns(unit, bound)(i) == flat(
        model.segments(i),
        model.unit_cell_column(unit, bound, i),
    ));
    feasible_one(model.segments(i), model.unit_cell_column(unit, bound, i), s, point);
    let lines = model.unit_cell_column(unit, bound, i)(s);
    kept(lines, 0, point);
    kept(lines, 1, point);
    kept(lines, 2, point);
}

proof fn both_flags(
    model: Parcels<Fixed>,
    both: ParcelColumn,
    a: ParcelColumn,
    b: ParcelColumn,
    point: spec_fn(ParcelColumn) -> int,
)
    requires
        feasible(model.both_lines(both, a, b), point),
    ensures
        point(both) <= point(a),
        point(both) <= point(b),
{
    kept(model.both_lines(both, a, b), 0, point);
    kept(model.both_lines(both, a, b), 1, point);
    first_of_two(both, a, less_one::<Fixed>(), nil::<Fixed>(), point);
    first_of_two(both, b, less_one::<Fixed>(), nil::<Fixed>(), point);
}

/// The turn of a unit has come only where the unit before it is empty and had
/// its turn.
proof fn chain_step(model: Parcels<Fixed>, p: int, i: int, s: int, j: int, point: spec_fn(ParcelColumn) -> int)
    requires
        admits(model, point),
        0 <= p < model.input.stockpiles@.len(),
        0 <= i < model.horizon(),
        0 <= s < model.segments(i),
        0 <= j < model.given_up(p, i).len(),
    ensures
        ({
            let order = model.given_up(p, i);
            let chain = point(model.unit_chain(order[j], i, s));
            let end = point(model.chain_end(model.input.stockpiles@[p].id, i, s));
            &&& j > 0 ==> chain <= point(model.unit_chain(order[j - 1], i, s)) && chain <= point(
                model.unit_empty(order[j - 1], i, s),
            )
            &&& j + 1 == order.len() ==> end <= chain
        }),
{
    pile_feasible(model, p, i, s, point);
    let order = model.given_up(p, i);
    let end = model.chain_end(model.input.stockpiles@[p].id, i, s);
    let chains = flat(order.len(), model.chain_line(order, end, i, s));
    let rest = if order.len() == 0 {
        seq![equal_row(seq![(end, one::<Fixed>())], one::<Fixed>())]
    } else {
        Seq::<Line<ParcelColumn, Fixed>>::empty()
    };
    assert(model.chain_lines(p, i, s) == chains + rest);
    feasible_parts(chains, rest, point);
    feasible_one(order.len(), model.chain_line(order, end, i, s), j, point);
    let chain = model.unit_chain(order[j], i, s);
    let first = if j == 0 {
        seq![equal_row(seq![(chain, one::<Fixed>())], one::<Fixed>())]
    } else {
        model.both_lines(chain, model.unit_chain(order[j - 1], i, s), model.unit_empty(order[j - 1], i, s))
    };
    let second = if j + 1 == order.len() {
        model.both_lines(end, chain, model.unit_empty(order[j], i, s))
    } else {
        Seq::<Line<ParcelColumn, Fixed>>::empty()
    };
    assert(model.chain_line(order, end, i, s)(j) == first + second);
    feasible_parts(first, second, point);
    if j > 0 {
        both_flags(model, chain, model.unit_chain(order[j - 1], i, s), model.unit_empty(order[j - 1], i, s), point);
    }
    if j + 1 == order.len() {
        both_flags(model, end, chain, model.unit_empty(order[j], i, s), point);
    }
}

/// The place among the live units of the one that is given up as the `j`th.
pub open spec fn live_place(model: Parcels<Fixed>, p: int, i: int, j: int) -> int {
    match model.input.stockpiles@[p].order {
        ReclaimOrder::Fifo => j,
        ReclaimOrder::Lifo => model.live(p, i).len() - 1 - j,
    }
}

proof fn earlier_empty(model: Parcels<Fixed>, p: int, i: int, s: int, j: int, e: int, point: spec_fn(ParcelColumn) -> int)
    requires
        admits(model, point),
        0 <= p < model.input.stockpiles@.len(),
        0 <= i < model.horizon(),
        0 <= s < model.segments(i),
        0 <= e < j < model.given_up(p, i).len(),
        point(model.unit_chain(model.given_up(p, i)[j], i, s)) == STEPS,
    ensures
        point(model.unit_empty(model.given_up(p, i)[e], i, s)) == STEPS,
    decreases j - e,
{
    let order = model.given_up(p, i);
    chain_step(model, p, i, s, j, point);
    unit_flags(model, p, i, s, live_place(model, p, i, j - 1), point);
    assert(order[j - 1] == model.live(p, i)[live_place(model, p, i, j - 1)]);
    if e < j - 1 {
        earlier_empty(model, p, i, s, j - 1, e, point);
    }
}

proof fn turn_row(
    model: Parcels<Fixed>,
    a: ParcelColumn,
    chain: ParcelColumn,
    next: ParcelColumn,
    bound: Fixed,
    point: spec_fn(ParcelColumn) -> int,
)
    requires
        keeps(
            at_most_row(seq![(a, one::<Fixed>()), (chain, bound.opposite()), (next, bound)], nil::<Fixed>()),
            point,
        ),
        point(chain) == 0 || point(chain) == STEPS,
        point(next) == 0 || point(next) == STEPS,
        point(next) <= point(chain),
        bound.0 > i64::MIN,
        point(a) > 0,
    ensures
        point(chain) == STEPS,
        point(next) == 0,
{
    let terms = seq![(a, one::<Fixed>()), (chain, bound.opposite()), (next, bound)];
    reveal(weighed);
    assert(terms.drop_last() =~= seq![(a, one::<Fixed>()), (chain, bound.opposite())]);
    two_terms(terms.drop_last(), point);
    let (x, c, n, b) = (point(a), point(chain), point(next), bound.0 as int);
    assert(bound.opposite().0 == -b);
    assert(1_000_000_000 * x + (-b) * c + b * n <= 0);
    if c == n {
        assert((-b) * c + b * n == 0) by (nonlinear_arith)
            requires
                c == n,
        ;
    }
}

/// A pile gives up its units in their order, the oldest first or the newest
/// first: while one is reclaimed, those before it in that order hold next to
/// nothing.
pub proof fn units_are_given_up_in_turn(
    model: Parcels<Fixed>,
    p: int,
    i: int,
    s: int,
    j: int,
    e: int,
    x: int,
    point: spec_fn(ParcelColumn) -> int,
)
    requires
        admits(model, point),
        0 <= p < model.input.stockpiles@.len(),
        0 <= i < model.horizon(),
        0 <= s < model.segments(i),
        0 <= e < j < model.given_up(p, i).len(),
        0 <= x < model.reclaims().len(),
        reclaim_chosen(model.of_unit(model.given_up(p, i)[j], i, s), model.reclaims()[x]),
        point(model.reclaims()[x].column) > 0,
        model.unit_bound(p, model.given_up(p, i)[j]).0 > i64::MIN,
        i64::MIN <= unit_dust(*model.input).0 + model.unit_bound(p, model.given_up(p, i)[e]).0 <= i64::MAX,
    ensures
        point(model.unit_start(model.given_up(p, i)[e], i, s)) <= unit_dust(*model.input).0,
{
    let order = model.given_up(p, i);
    let live = model.live(p, i);
    let unit = order[j];
    let at = live_place(model, p, i, j);
    assert(live[at] == unit);
    pile_feasible(model, p, i, s, point);
    unit_flags(model, p, i, s, at, point);
    feasible_one(live.len(), model.unit_line(p, i, s), at, point);
    let next = model.next_flag(p, i, s, at);
    let bound = model.unit_bound(p, unit);
    unit_parts(model, p, i, s, at, point);
    feasible_one(model.reclaims().len(), model.turn_line(unit, i, s, next, bound), x, point);
    kept(model.turn_line(unit, i, s, next, bound)(x), 0, point);
    if j + 1 < order.len() {
        chain_step(model, p, i, s, j + 1, point);
        unit_flags(model, p, i, s, live_place(model, p, i, j + 1), point);
        assert(order[j + 1] == live[live_place(model, p, i, j + 1)]);
        assert(next == model.unit_chain(order[j + 1], i, s));
    } else {
        chain_step(model, p, i, s, j, point);
        assert(next == model.chain_end(model.input.stockpiles@[p].id, i, s));
    }
    turn_row(model, model.reclaims()[x].column, model.unit_chain(unit, i, s), next, bound, point);
    earlier_empty(model, p, i, s, j, e, point);
    let before = live_place(model, p, i, e);
    assert(live[before] == order[e]);
    unit_parts(model, p, i, s, before, point);
    let cap = model.unit_bound(p, order[e]);
    let dust = unit_dust(*model.input);
    assert(dust.plus(cap).0 == dust.0 + cap.0);
    first_of_two(model.unit_start(order[e], i, s), model.unit_empty(order[e], i, s), cap, dust.plus(cap), point);
}

proof fn unit_parts(model: Parcels<Fixed>, p: int, i: int, s: int, j: int, point: spec_fn(ParcelColumn) -> int)
    requires
        admits(model, point),
        0 <= p < model.input.stockpiles@.len(),
        0 <= i < model.horizon(),
        0 <= s < model.segments(i),
        0 <= j < model.live(p, i).len(),
    ensures
        ({
            let unit = model.live(p, i)[j];
            let bound = model.unit_bound(p, unit);
            &&& keeps(
                at_most_row(
                    seq![(model.unit_start(unit, i, s), one::<Fixed>()), (model.unit_empty(unit, i, s), bound)],
                    unit_dust(*model.input).plus(bound),
                ),
                point,
            )
            &&& feasible(
                flat(model.reclaims().len(), model.turn_line(unit, i, s, model.next_flag(p, i, s, j), bound)),
                point,
            )
        }),
{
    pile_feasible(model, p, i, s, point);
    feasible_one(model.live(p, i).len(), model.unit_line(p, i, s), j, point);
    let unit = model.live(p, i)[j];
    let (start, empty) = (model.unit_start(unit, i, s), model.unit_empty(unit, i, s));
    let bound = model.unit_bound(p, unit);
    let dust = unit_dust(*model.input);
    let a = seq![
        at_most_row(seq![(start, one::<Fixed>()), (empty, bound)], dust.plus(bound)),
        at_least_row(seq![(start, one::<Fixed>()), (empty, dust)], dust),
    ];
    let b = match model.unit_cell_before(unit, i, s) {
        Some(cell) => seq![
            at_least_row(
                seq![(empty, one::<Fixed>()), (model.unit_empty(unit, cell.0, cell.1), less_one::<Fixed>())],
                nil::<Fixed>(),
            ),
            at_least_row(
                seq![
                    (model.unit_chain(unit, i, s), one::<Fixed>()),
                    (model.unit_chain(unit, cell.0, cell.1), less_one::<Fixed>()),
                ],
                nil::<Fixed>(),
            ),
        ],
        None => Seq::<Line<ParcelColumn, Fixed>>::empty(),
    };
    let c = flat(model.reclaims().len(), model.turn_line(unit, i, s, model.next_flag(p, i, s, j), bound));
    let d = if i + 1 == model.horizon() && s + 1 == model.segments(i) {
        seq![
            at_least_row(
                seq![(start, one::<Fixed>())] + model.reclaim_terms(model.of_unit(unit, i, s), less_one::<Fixed>()),
                nil::<Fixed>(),
            ),
        ]
    } else {
        Seq::<Line<ParcelColumn, Fixed>>::empty()
    };
    let e = seq![model.unit_opening(p, unit, i, s)];
    assert(model.unit_line(p, i, s)(j) == a + b + c + d + e);
    feasible_parts(a + b + c + d, e, point);
    feasible_parts(a + b + c, d, point);
    feasible_parts(a + b, c, point);
    feasible_parts(a, b, point);
    kept(a, 0, point);
}

} // verus!
