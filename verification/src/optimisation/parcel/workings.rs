//! What a parcel model asks of a stage of a dig task, of a reclaim, of a stream
//! and of a block in a segment, told of the amounts alone.
use vstd::prelude::*;

use crate::listing::flat;
use crate::optimisation::ids::{GroundId, MaterialId, SourceId, StockpileId};

use crate::optimisation::parcel::amounts::{lasts, moved, moved_at, moves_weigh, of_task_at, reclaimed, reclaims_weigh, tonnes};
use crate::optimisation::parcel::base::{added, Parcels};
use crate::optimisation::parcel::columns::{DigVariable, MoveVariable, ParcelColumn, ParcelVariable, StreamKey, UnitKey};
use crate::optimisation::parcel::laws::admits;
use crate::optimisation::parcel::select::{
    dig_chosen, dig_term, parcel_chosen, parcel_part, parcel_term, DigSelector, MoveSelector, ParcelPart, ParcelSelector,
    ReclaimSelector,
};
use crate::optimisation::points::{
    difference, feasible, feasible_each, feasible_joined, feasible_single, flat_weighs, joined_terms, keeps, one_term,
    summed, summed_scaled, two_terms, weighed, weighs_one,
};
use crate::optimisation::sheet::{at_least_row, at_most_row, equal_row, less_one, nil, one};
use crate::scalar::{Fixed, Scalar, STEPS};

verus! {

/// A point is admitted exactly where it keeps to each part of the model.
pub proof fn model_in_parts(model: Parcels<Fixed>, point: spec_fn(ParcelColumn) -> int)
    ensures
        admits(model, point) == ({
            &&& feasible(model.column_lines(), point)
            &&& feasible(flat(model.input.intervals@.len(), model.clock_line()), point)
            &&& feasible(flat(model.input.ground@.len(), model.ground_lines()), point)
            &&& feasible(flat(model.input.destinations@.len(), model.destination_lines()), point)
            &&& feasible(flat(model.input.tasks@.len(), model.route_lines()), point)
            &&& feasible(flat(model.input.loaders@.len(), model.loader_lines()), point)
            &&& feasible(flat(model.groups().len(), model.group_lines()), point)
            &&& feasible(flat(model.input.stockpiles@.len(), model.cap_lines()), point)
            &&& feasible(flat(model.input.stockpiles@.len(), model.pile_lines()), point)
            &&& feasible(flat(model.input.tasks@.len(), model.reclaim_task_lines()), point)
            &&& feasible(flat(model.reclaims().len(), model.reclaimed_line()), point)
            &&& feasible(flat(model.input.trucks@.len(), model.truck_lines()), point)
            &&& feasible(flat(model.input.destinations@.len(), model.limit_lines()), point)
        }),
{
    reveal(admits);
    let loaders = flat(model.input.loaders@.len(), model.loader_lines());
    let piles = flat(model.input.stockpiles@.len(), model.pile_lines());
    let a = model.column_lines() + model.supply_lines();
    let b = a + loaders;
    let c = b + model.receipt_lines();
    let d = c + piles;
    assert(model.lines() == d + model.bound_lines());
    feasible_joined(d, model.bound_lines(), point);
    feasible_joined(c, piles, point);
    feasible_joined(b, model.receipt_lines(), point);
    feasible_joined(a, loaders, point);
    feasible_joined(model.column_lines(), model.supply_lines(), point);
    let clock = flat(model.horizon(), model.clock_line());
    let ground = flat(model.input.ground@.len(), model.ground_lines());
    let destinations = flat(model.input.destinations@.len(), model.destination_lines());
    let routes = flat(model.input.tasks@.len(), model.route_lines());
    assert(model.supply_lines() == clock + ground + destinations + routes);
    feasible_joined(clock + ground + destinations, routes, point);
    feasible_joined(clock + ground, destinations, point);
    feasible_joined(clock, ground, point);
    let groups = flat(model.groups().len(), model.group_lines());
    let caps = flat(model.input.stockpiles@.len(), model.cap_lines());
    assert(model.receipt_lines() == groups + caps);
    feasible_joined(groups, caps, point);
    let tasks = flat(model.input.tasks@.len(), model.reclaim_task_lines());
    let reclaims = flat(model.reclaims().len(), model.reclaimed_line());
    let trucks = flat(model.input.trucks@.len(), model.truck_lines());
    let limits = flat(model.input.destinations@.len(), model.limit_lines());
    assert(model.bound_lines() == tasks + reclaims + trucks + limits);
    feasible_joined(tasks + reclaims + trucks, limits, point);
    feasible_joined(tasks + reclaims, trucks, point);
    feasible_joined(tasks, reclaims, point);
}

// Sums.

/// What each dig gives to the sum of those that are chosen.
pub open spec fn dug_at(
    model: Parcels<Fixed>,
    chosen: spec_fn(DigVariable) -> bool,
    point: spec_fn(ParcelColumn) -> int,
) -> spec_fn(int) -> int {
    |x: int|
        if chosen(model.digs()[x]) {
            point(
                ParcelColumn::Dig {
                    task: model.digs()[x].task,
                    interval: model.digs()[x].interval,
                    segment: model.digs()[x].segment,
                    stage: model.digs()[x].stage,
                },
            )
        } else {
            0
        }
}

/// What is dug in all.
pub open spec fn dug(
    model: Parcels<Fixed>,
    chosen: spec_fn(DigVariable) -> bool,
    point: spec_fn(ParcelColumn) -> int,
) -> int {
    summed(model.digs().len(), dug_at(model, chosen, point))
}

/// A sum of digs, as a row writes it.
pub proof fn digs_weigh(
    model: Parcels<Fixed>,
    sel: DigSelector,
    chosen: spec_fn(DigVariable) -> bool,
    point: spec_fn(ParcelColumn) -> int,
)
    requires
        forall|d: DigVariable| #[trigger] chosen(d) == dig_chosen(sel, d),
    ensures
        weighed(model.dig_terms(sel, one::<Fixed>()), point) == STEPS * dug(model, chosen, point),
{
    let n = model.digs().len();
    let terms = dig_term(model.digs(), sel, one::<Fixed>());
    let each = dug_at(model, chosen, point);
    let f = |x: int| STEPS * each(x);
    assert(one::<Fixed>().0 == STEPS);
    assert forall|x: int| 0 <= x < n implies weighed(#[trigger] terms(x), point) == f(x) by {
        let dig = model.digs()[x];
        assert(chosen(dig) == dig_chosen(sel, dig));
        weighs_one(
            ParcelColumn::Dig { task: dig.task, interval: dig.interval, segment: dig.segment, stage: dig.stage },
            one::<Fixed>(),
            point,
        );
    }
    flat_weighs(n, terms, f, point);
    summed_scaled(n, f, each, STEPS as int);
}

/// What each position gives to the sum of what fills those that are chosen.
pub open spec fn filled_at(
    model: Parcels<Fixed>,
    chosen: spec_fn(ParcelVariable) -> bool,
    point: spec_fn(ParcelColumn) -> int,
) -> spec_fn(int) -> int {
    |x: int|
        if chosen(model.parcels()[x]) {
            point(ParcelColumn::Quantity { stream: model.parcels()[x].stream, position: model.parcels()[x].position })
        } else {
            0
        }
}

/// What fills positions in all.
pub open spec fn filled(
    model: Parcels<Fixed>,
    chosen: spec_fn(ParcelVariable) -> bool,
    point: spec_fn(ParcelColumn) -> int,
) -> int {
    summed(model.parcels().len(), filled_at(model, chosen, point))
}

/// A sum of positions, as a row writes it.
pub proof fn parcels_weigh(
    model: Parcels<Fixed>,
    sel: ParcelSelector,
    weight: Fixed,
    chosen: spec_fn(ParcelVariable) -> bool,
    point: spec_fn(ParcelColumn) -> int,
)
    requires
        forall|p: ParcelVariable| #[trigger] chosen(p) == parcel_chosen(sel, p),
    ensures
        weighed(model.parcel_terms(sel, ParcelPart::Quantity, weight), point) == weight.0 * filled(model, chosen, point),
{
    let n = model.parcels().len();
    let terms = parcel_term(model.parcels(), sel, ParcelPart::Quantity, weight);
    let each = filled_at(model, chosen, point);
    let f = |x: int| weight.0 * each(x);
    assert forall|x: int| 0 <= x < n implies weighed(#[trigger] terms(x), point) == f(x) by {
        let parcel = model.parcels()[x];
        assert(chosen(parcel) == parcel_chosen(sel, parcel));
        weighs_one(parcel_part(parcel, ParcelPart::Quantity), weight, point);
        assert(weight.0 * 0 == 0) by (nonlinear_arith);
    }
    flat_weighs(n, terms, f, point);
    summed_scaled(n, f, each, weight.0 as int);
}

// Blocks.

/// Digs of a block in a segment.
pub open spec fn of_block_at(ground: GroundId, i: int, s: int) -> spec_fn(DigVariable) -> bool {
    |d: DigVariable| d.source == ground && d.interval == i && d.segment == s
}

/// Digs of a block.
pub open spec fn of_block(ground: GroundId) -> spec_fn(DigVariable) -> bool {
    |d: DigVariable| d.source == ground
}

/// What is left of a block after a segment.
pub open spec fn left_of(ground: GroundId, i: int, s: int, point: spec_fn(ParcelColumn) -> int) -> int {
    point(ParcelColumn::GroundRemaining { ground, interval: i as usize, segment: s as usize })
}

/// The first row of a block in a segment holds exactly where what is left of it
/// is what was left before, or the whole block at the start, without what is dug
/// of it there.
pub proof fn block_rows(model: Parcels<Fixed>, g: int, i: int, s: int, point: spec_fn(ParcelColumn) -> int)
    requires
        0 <= g < model.input.ground@.len(),
        0 <= i < model.input.intervals@.len() <= usize::MAX,
        0 <= s < model.segments(i),
    ensures
        ({
            let block = model.input.ground@[g];
            let before = if s > 0 {
                left_of(block.id, i, s - 1, point)
            } else if i > 0 {
                left_of(block.id, i - 1, model.segments(i - 1) - 1, point)
            } else {
                block.tonnes_t.0 as int
            };
            keeps(model.ground_line(g, i)(s)[0], point) == (before == left_of(block.id, i, s, point) + dug(
                model,
                of_block_at(block.id, i, s),
                point,
            ))
        }),
{
    let block = model.input.ground@[g];
    let sel = DigSelector::OfCell { ground: block.id, interval: i as usize, segment: s as usize };
    digs_weigh(model, sel, of_block_at(block.id, i, s), point);
    let here = model.dig_terms(sel, one::<Fixed>());
    let left = model.remaining(g, i, s);
    let sum = dug(model, of_block_at(block.id, i, s), point);
    match model.cell_before(i, s) {
        None => {
            joined_terms(seq![(left, one::<Fixed>())], here, point);
            one_term(left, point);
        },
        Some(cell) => {
            let prior = model.remaining(g, cell.0, cell.1);
            joined_terms(seq![(left, one::<Fixed>()), (prior, less_one::<Fixed>())], here, point);
            difference(left, prior, point);
        },
    }
}

// Stages.

/// Routes of a material from a block that a task takes in a segment.
pub open spec fn routed_at(t: int, i: int, s: int, source: SourceId, material: MaterialId) -> spec_fn(
    MoveVariable,
) -> bool {
    |m: MoveVariable| m.task == t && m.interval == i && m.segment == s && m.source == source && m.material == material
}

/// What is dug at a stage of a task.
pub open spec fn dig_of(t: int, i: int, s: int, stage: int, point: spec_fn(ParcelColumn) -> int) -> int {
    point(ParcelColumn::Dig { task: t as usize, interval: i as usize, segment: s as usize, stage: stage as usize })
}

/// Whether a stage is the one with work.
pub open spec fn pick_of(t: int, i: int, s: int, stage: int, point: spec_fn(ParcelColumn) -> int) -> int {
    point(ParcelColumn::StagePicked { task: t as usize, interval: i as usize, segment: s as usize, stage: stage as usize })
}

/// Whether a task is worked on.
pub open spec fn selected_of(t: int, i: int, s: int, point: spec_fn(ParcelColumn) -> int) -> int {
    point(ParcelColumn::TaskSelected { task: t as usize, interval: i as usize, segment: s as usize })
}

/// Whether a block is used up before a segment.
pub open spec fn done_of(ground: GroundId, i: int, s: int, point: spec_fn(ParcelColumn) -> int) -> int {
    point(ParcelColumn::GroundDone { ground, interval: i as usize, segment: s as usize })
}

proof fn pair_row(a: ParcelColumn, b: ParcelColumn, weight: Fixed, point: spec_fn(ParcelColumn) -> int)
    requires
        weight.0 > i64::MIN,
    ensures
        keeps(at_most_row(seq![(a, one::<Fixed>()), (b, weight.opposite())], nil::<Fixed>()), point) == (STEPS * point(a)
            <= weight.0 * point(b)),
{
    let terms = seq![(a, one::<Fixed>()), (b, weight.opposite())];
    two_terms(terms, point);
    let (w, y) = (weight.0 as int, point(b));
    assert((-w) * y == -(w * y)) by (nonlinear_arith);
    assert(one::<Fixed>().0 == STEPS);
}

/// The rows of what is dug at a stage hold exactly where it is no more than the
/// loader's rate times the length of the segment, nothing where the stage is not
/// the one with work or the task is not worked on, and each material of it that
/// is moved is its fraction of it.
pub proof fn extraction_rows(model: Parcels<Fixed>, l: int, t: int, i: int, s: int, stage: int, point: spec_fn(ParcelColumn) -> int)
    requires
        0 <= l < model.input.loaders@.len(),
        0 <= t < model.input.tasks@.len() <= usize::MAX,
        0 <= i < model.input.intervals@.len() <= usize::MAX,
        0 <= s < model.segments(i),
        0 <= stage < model.sequence(t).len() <= usize::MAX,
        model.dig_rate(l, i).0 > i64::MIN,
        model.dig_rate(l, i).times(model.length(i)).0 > i64::MIN,
        forall|k: int|
            0 <= k < model.block_shares(model.sequence(t)[stage]).len() ==> (
            #[trigger] model.block_shares(model.sequence(t)[stage])[k]).fraction.0 > i64::MIN,
    ensures
        feasible(model.extraction_lines(l, t, i, s, stage), point) == ({
            let (rate, most) = (model.dig_rate(l, i), model.dig_rate(l, i).times(model.length(i)));
            let block = model.sequence(t)[stage];
            let shares = model.block_shares(block);
            let digs = dig_of(t, i, s, stage, point);
            &&& STEPS * digs <= most.0 * pick_of(t, i, s, stage, point)
            &&& STEPS * digs <= most.0 * selected_of(t, i, s, point)
            &&& STEPS * digs <= rate.0 * lasts(i, s, point)
            &&& forall|k: int|
                0 <= k < shares.len() ==> moved(
                    model,
                    routed_at(t, i, s, SourceId::Ground(block), (#[trigger] shares[k]).material),
                    tonnes(),
                    point,
                ) == shares[k].fraction.0 * digs
        }),
{
    let (rate, most) = (model.dig_rate(l, i), model.dig_rate(l, i).times(model.length(i)));
    let block = model.sequence(t)[stage];
    let shares = model.block_shares(block);
    let dig = model.dig(t, i, s, stage);
    let (a, b, c) = (
        at_most_row(seq![(dig, one::<Fixed>()), (model.picked(t, i, s, stage), most.opposite())], nil::<Fixed>()),
        at_most_row(seq![(dig, one::<Fixed>()), (model.selected(t, i, s), most.opposite())], nil::<Fixed>()),
        at_most_row(seq![(dig, one::<Fixed>()), (model.duration(i, s), rate.opposite())], nil::<Fixed>()),
    );
    let rows = flat(shares.len(), model.share_line(t, i, s, stage, shares));
    assert(model.extraction_lines(l, t, i, s, stage) =~= seq![a] + (seq![b] + (seq![c] + rows)));
    feasible_joined(seq![a], seq![b] + (seq![c] + rows), point);
    feasible_joined(seq![b], seq![c] + rows, point);
    feasible_joined(seq![c], rows, point);
    feasible_single(a, point);
    feasible_single(b, point);
    feasible_single(c, point);
    pair_row(dig, model.picked(t, i, s, stage), most, point);
    pair_row(dig, model.selected(t, i, s), most, point);
    pair_row(dig, model.duration(i, s), rate, point);
    feasible_each(shares.len(), model.share_line(t, i, s, stage, shares), point);
    let line = model.share_line(t, i, s, stage, shares);
    assert forall|k: int| 0 <= k < shares.len() implies feasible(#[trigger] line(k), point) == (moved(
        model,
        routed_at(t, i, s, SourceId::Ground(block), shares[k].material),
        tonnes(),
        point,
    ) == shares[k].fraction.0 * point(dig)) by {
        let sel = MoveSelector::Routed {
            task: t as usize,
            interval: i as usize,
            segment: s as usize,
            source: SourceId::Ground(block),
            material: shares[k].material,
        };
        let chosen = routed_at(t, i, s, SourceId::Ground(block), shares[k].material);
        moves_weigh(model, sel, one::<Fixed>(), chosen, tonnes(), point);
        let routed = model.move_terms(sel, one::<Fixed>());
        let fraction = shares[k].fraction;
        let last = seq![(dig, fraction.opposite())];
        assert(routed.push((dig, fraction.opposite())) =~= routed + last);
        joined_terms(routed, last, point);
        weighs_one(dig, fraction.opposite(), point);
        feasible_single(equal_row(routed + last, nil::<Fixed>()), point);
        let (f, x) = (fraction.0 as int, point(dig));
        assert((-f) * x == -(f * x)) by (nonlinear_arith);
    }
    if feasible(rows, point) {
        assert forall|k: int| 0 <= k < shares.len() implies moved(
            model,
            routed_at(t, i, s, SourceId::Ground(block), (#[trigger] shares[k]).material),
            tonnes(),
            point,
        ) == shares[k].fraction.0 * point(dig) by {
            assert(feasible(line(k), point));
        }
    }
}

/// What a stage that is picked says: its block is not used up, every block
/// before it is, and each of its materials has somewhere to go.
pub proof fn picked_stages_have_work(
    model: Parcels<Fixed>,
    t: int,
    i: int,
    s: int,
    stage: int,
    point: spec_fn(ParcelColumn) -> int,
)
    requires
        feasible(model.pick_lines(t, i, s, stage), point),
        0 <= stage < model.sequence(t).len(),
        pick_of(t, i, s, stage, point) == STEPS,
        0 <= done_of(model.sequence(t)[stage], i, s, point),
    ensures
        done_of(model.sequence(t)[stage], i, s, point) == 0,
        forall|b: int| 0 <= b < stage ==> STEPS <= done_of(#[trigger] model.sequence(t)[b], i, s, point),
        forall|k: int|
            0 <= k < model.block_shares(model.sequence(t)[stage]).len() ==> STEPS <= point(
                ParcelColumn::RouteAvailable {
                    task: t as usize,
                    interval: i as usize,
                    segment: s as usize,
                    stage: stage as usize,
                    material: (#[trigger] model.block_shares(model.sequence(t)[stage])[k]).material,
                },
            ),
{
    let pick = model.picked(t, i, s, stage);
    let source = model.sequence(t)[stage];
    let shares = model.block_shares(source);
    let done = model.block_done(source, i, s);
    let first = at_most_row(seq![(pick, one::<Fixed>()), (done, one::<Fixed>())], one::<Fixed>());
    let after = flat(stage as nat, model.after_line(pick, t, i, s));
    let open = flat(shares.len(), model.open_line(pick, t, i, s, stage, shares));
    let last = seq![
        at_least_row(
            seq![(pick, one::<Fixed>())] + model.done_terms(t, i, s, stage as nat) + model.open_terms(
                t,
                i,
                s,
                stage,
                shares,
            ) + seq![(done, one::<Fixed>())],
            one::<Fixed>().minus(
                Fixed::of_whole(added(stage as usize, shares.len() as usize) as u64),
            ),
        ),
    ];
    assert(model.pick_lines(t, i, s, stage) == seq![first] + after + open + last);
    feasible_joined(seq![first] + after + open, last, point);
    feasible_joined(seq![first] + after, open, point);
    feasible_joined(seq![first], after, point);
    feasible_single(first, point);
    let terms = seq![(pick, one::<Fixed>()), (done, one::<Fixed>())];
    two_terms(terms, point);
    assert(one::<Fixed>().0 == 1_000_000_000);
    assert(weighed(terms, point) == 1_000_000_000 * point(pick) + 1_000_000_000 * point(done));
    feasible_each(stage as nat, model.after_line(pick, t, i, s), point);
    feasible_each(shares.len(), model.open_line(pick, t, i, s, stage, shares), point);
    let after_line = model.after_line(pick, t, i, s);
    let open_line = model.open_line(pick, t, i, s, stage, shares);
    assert forall|b: int| 0 <= b < stage implies STEPS <= done_of(#[trigger] model.sequence(t)[b], i, s, point) by {
        assert(feasible(after_line(b), point));
        let before = model.block_done(model.sequence(t)[b], i, s);
        feasible_single(
            at_most_row(seq![(pick, one::<Fixed>()), (before, less_one::<Fixed>())], nil::<Fixed>()),
            point,
        );
        difference(pick, before, point);
    }
    assert forall|k: int| 0 <= k < shares.len() implies STEPS <= point(
        ParcelColumn::RouteAvailable {
            task: t as usize,
            interval: i as usize,
            segment: s as usize,
            stage: stage as usize,
            material: (#[trigger] shares[k]).material,
        },
    ) by {
        assert(feasible(open_line(k), point));
        let way = model.stage_route(t, i, s, stage, shares[k]);
        feasible_single(at_most_row(seq![(pick, one::<Fixed>()), (way, less_one::<Fixed>())], nil::<Fixed>()), point);
        difference(pick, way, point);
    }
}

// Reclaims.

/// The rows of a reclaim task in a segment where it has a rate hold, as far as
/// they are of tonnes, exactly where it reclaims no more than its rate times the
/// length of the segment, and nothing where it is not worked on.
pub proof fn reclaim_cell_rows(model: Parcels<Fixed>, t: int, i: int, s: int, point: spec_fn(ParcelColumn) -> int)
    requires
        0 <= t < model.input.tasks@.len() <= usize::MAX,
        0 <= i < model.input.intervals@.len() <= usize::MAX,
        0 <= s < model.segments(i),
        model.active(t, i),
        0 < model.task_reclaim_rate(t, i).0,
        model.task_reclaim_rate(t, i).times(model.length(i)).0 > i64::MIN,
    ensures
        feasible(model.reclaim_task_line(t, i)(s), point) ==> {
            let rate = model.task_reclaim_rate(t, i);
            let sum = reclaimed(model, of_task_at(t, i, s), point);
            &&& STEPS * sum <= rate.0 * lasts(i, s, point)
            &&& STEPS * sum <= rate.times(model.length(i)).0 * selected_of(t, i, s, point)
        },
{
    let rate = model.task_reclaim_rate(t, i);
    let most = rate.times(model.length(i));
    let ready = model.task_ready(t, i, s);
    let sel = ReclaimSelector::OfTask { task: t as usize, interval: i as usize, segment: s as usize };
    let all = model.reclaim_terms(sel, one::<Fixed>());
    let a = seq![at_most_row(seq![(ready, one::<Fixed>())] + model.source_terms(t, i, s), nil::<Fixed>())];
    let b = flat(model.approved(t).len(), model.source_line(t, i, s));
    let (chosen, length) = (model.selected(t, i, s), model.duration(i, s));
    let c = at_most_row(all.push((chosen, most.opposite())), nil::<Fixed>());
    let d = at_most_row(all.push((length, rate.opposite())), nil::<Fixed>());
    assert(model.reclaim_task_line(t, i)(s) == a + b + seq![c, d]);
    assert(seq![c, d] =~= seq![c] + seq![d]);
    feasible_joined(a + b, seq![c] + seq![d], point);
    feasible_joined(seq![c], seq![d], point);
    feasible_single(c, point);
    feasible_single(d, point);
    reclaims_weigh(model, sel, one::<Fixed>(), of_task_at(t, i, s), point);
    assert(one::<Fixed>().0 == STEPS);
    let (x, y) = (seq![(chosen, most.opposite())], seq![(length, rate.opposite())]);
    assert(all.push((chosen, most.opposite())) =~= all + x);
    assert(all.push((length, rate.opposite())) =~= all + y);
    joined_terms(all, x, point);
    joined_terms(all, y, point);
    weighs_one(chosen, most.opposite(), point);
    weighs_one(length, rate.opposite(), point);
    let (m, p, r, q) = (most.0 as int, point(chosen), rate.0 as int, point(length));
    assert((-m) * p == -(m * p)) by (nonlinear_arith);
    assert((-r) * q == -(r * q)) by (nonlinear_arith);
}

/// Routes of one material of a unit that a task takes in a segment.
pub open spec fn of_unit_at(t: usize, i: usize, s: usize, unit: UnitKey, material: MaterialId) -> spec_fn(
    MoveVariable,
) -> bool {
    |m: MoveVariable| m.task == t && m.interval == i && m.segment == s && m.unit == Some(unit) && m.material == material
}

/// Positions of a cell of a pile that hold a material.
pub open spec fn at_position(pile: StockpileId, i: usize, s: usize, position: usize, material: MaterialId) -> spec_fn(
    ParcelVariable,
) -> bool {
    |p: ParcelVariable|
        p.stream.pile == pile && p.stream.interval == i && p.stream.segment == s && p.position == position
            && p.stream.material == material
}

/// What is reclaimed of a unit that a pile received is no more than what was
/// received there of the material, and what is moved of a reclaim is its
/// fraction of it.
pub proof fn reclaim_rows(model: Parcels<Fixed>, x: int, point: spec_fn(ParcelColumn) -> int)
    requires
        feasible(model.reclaimed_line()(x), point),
        0 <= x < model.reclaims().len(),
        model.reclaims()[x].fraction.0 > i64::MIN,
    ensures
        ({
            let reclaim = model.reclaims()[x];
            &&& reclaim.unit matches UnitKey::Receipt { receipt_interval, segment, position, .. } ==> point(reclaim.column)
                <= filled(
                model,
                at_position(reclaim.source, receipt_interval, segment, position, reclaim.material),
                point,
            )
            &&& {
                let sum = moved(
                    model,
                    of_unit_at(reclaim.task, reclaim.interval, reclaim.segment, reclaim.unit, reclaim.material),
                    tonnes(),
                    point,
                );
                sum == reclaim.fraction.0 * point(reclaim.column) || sum == STEPS * point(reclaim.column)
                    && reclaim.column == model.move_terms(
                    MoveSelector::OfUnit {
                        task: reclaim.task,
                        interval: reclaim.interval,
                        segment: reclaim.segment,
                        unit: reclaim.unit,
                        material: reclaim.material,
                    },
                    one::<Fixed>(),
                )[0].0
            }
        }),
{
    let reclaim = model.reclaims()[x];
    let sel = MoveSelector::OfUnit {
        task: reclaim.task,
        interval: reclaim.interval,
        segment: reclaim.segment,
        unit: reclaim.unit,
        material: reclaim.material,
    };
    let chosen = of_unit_at(reclaim.task, reclaim.interval, reclaim.segment, reclaim.unit, reclaim.material);
    let routed = model.move_terms(sel, one::<Fixed>());
    moves_weigh(model, sel, one::<Fixed>(), chosen, tonnes(), point);
    let supplied = model.supplied_line(reclaim);
    let balance = equal_row(routed.push((reclaim.column, reclaim.fraction.opposite())), nil::<Fixed>());
    let shared = !(routed.len() != 1 || routed[0].0 != reclaim.column);
    let rest = if shared {
        Seq::empty()
    } else {
        seq![balance]
    };
    assert(model.reclaimed_line()(x) == supplied + rest);
    feasible_joined(supplied, rest, point);
    feasible_single(balance, point);
    let last = seq![(reclaim.column, reclaim.fraction.opposite())];
    assert(routed.push((reclaim.column, reclaim.fraction.opposite())) =~= routed + last);
    joined_terms(routed, last, point);
    weighs_one(reclaim.column, reclaim.fraction.opposite(), point);
    let (f, y) = (reclaim.fraction.0 as int, point(reclaim.column));
    assert((-f) * y == -(f * y)) by (nonlinear_arith);
    if shared {
        ones_only(model, sel, 0, model.moves().len());
        assert(routed[0].1 == one::<Fixed>());
        assert(routed =~= seq![(reclaim.column, one::<Fixed>())]);
        one_term(reclaim.column, point);
    }
    if let UnitKey::Receipt { receipt_interval, segment, position, .. } = reclaim.unit {
        let at = ParcelSelector::AtMaterial {
            pile: reclaim.source,
            interval: receipt_interval,
            segment,
            position,
            material: reclaim.material,
        };
        let held = model.parcel_terms(at, ParcelPart::Quantity, less_one::<Fixed>());
        let place = at_position(reclaim.source, receipt_interval, segment, position, reclaim.material);
        parcels_weigh(model, at, less_one::<Fixed>(), place, point);
        joined_terms(seq![(reclaim.column, one::<Fixed>())], held, point);
        one_term(reclaim.column, point);
        feasible_single(at_most_row(seq![(reclaim.column, one::<Fixed>())] + held, nil::<Fixed>()), point);
        assert(less_one::<Fixed>().0 == -1_000_000_000);
        let sum = filled(model, place, point);
        assert(weighed(held, point) == -1_000_000_000 * sum);
    }
}

proof fn ones_only(model: Parcels<Fixed>, sel: MoveSelector, k: int, n: nat)
    requires
        !(sel is Truck),
        0 <= k < flat(n, model.move_term(sel, one::<Fixed>())).len(),
    ensures
        flat(n, model.move_term(sel, one::<Fixed>()))[k].1 == one::<Fixed>(),
    decreases n,
{
    let m = (n - 1) as nat;
    let before = flat(m, model.move_term(sel, one::<Fixed>()));
    if k < before.len() {
        ones_only(model, sel, k, m);
    }
}

// Streams.

/// Positions that a stream may fill.
pub open spec fn of_stream(stream: StreamKey) -> spec_fn(ParcelVariable) -> bool {
    |p: ParcelVariable| p.stream == stream
}

/// Routes that bring a stream to its pile.
pub open spec fn brings(model: Parcels<Fixed>, stream: StreamKey) -> spec_fn(MoveVariable) -> bool {
    |m: MoveVariable|
        m.interval == stream.interval && m.segment == stream.segment && m.source == stream.source && m.material
            == stream.material && model.ends_on(model.input.movements@[m.candidate as int].destination, stream.pile)
}

/// The positions of a stream hold what is brought of it.
pub proof fn stream_rows(model: Parcels<Fixed>, stream: StreamKey, point: spec_fn(ParcelColumn) -> int)
    ensures
        keeps(
            equal_row(
                model.parcel_terms(ParcelSelector::OfStream { stream }, ParcelPart::Quantity, one::<Fixed>())
                    + model.move_terms(model.incoming(stream), less_one::<Fixed>()),
                nil::<Fixed>(),
            ),
            point,
        ) == (STEPS * filled(model, of_stream(stream), point) == moved(model, brings(model, stream), tonnes(), point)),
{
    let sel = ParcelSelector::OfStream { stream };
    parcels_weigh(model, sel, one::<Fixed>(), of_stream(stream), point);
    let minus = |m: MoveVariable| -(STEPS as int);
    assert(less_one::<Fixed>().0 == -1_000_000_000);
    assert(one::<Fixed>().0 == STEPS);
    moves_weigh(model, model.incoming(stream), less_one::<Fixed>(), brings(model, stream), minus, point);
    joined_terms(
        model.parcel_terms(sel, ParcelPart::Quantity, one::<Fixed>()),
        model.move_terms(model.incoming(stream), less_one::<Fixed>()),
        point,
    );
    let n = model.moves().len();
    let (f, g) = (
        moved_at(model, brings(model, stream), minus, point),
        moved_at(model, brings(model, stream), tonnes(), point),
    );
    assert forall|x: int| 0 <= x < n implies #[trigger] f(x) == -1 * g(x) by {
        let v = point(model.moves()[x].column);
        assert(-(STEPS as int) * v == -1 * (STEPS * v)) by (nonlinear_arith);
    }
    summed_scaled(n, f, g, -1);
}

} // verus!
