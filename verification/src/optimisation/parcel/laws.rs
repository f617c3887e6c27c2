//! What a parcel model promises: of its lists, and of every point that it
//! admits.
use vstd::prelude::*;

use crate::listing::flat;
use crate::optimisation::parcel::base::Parcels;
use crate::optimisation::parcel::columns::{ParcelColumn, ReclaimVariable, UnitKey};
use crate::optimisation::points::{
    feasible, feasible_one, feasible_parts, first_of_two, joined_terms, keeps, kept, nothing_weighs_nothing, two_terms,
    weighed,
};
use crate::optimisation::sheet::{at_least_row, at_most_row, less_one, nil, one};
use crate::scalar::{Fixed, Scalar, STEPS};

verus! {

/// What holds in all parts of a list holds in the list.
proof fn all_in_parts<A>(n: nat, f: spec_fn(int) -> Seq<A>, p: spec_fn(A) -> bool)
    requires
        forall|i: int, k: int| 0 <= i < n && 0 <= k < f(i).len() ==> p(#[trigger] f(i)[k]),
    ensures
        forall|k: int| 0 <= k < flat(n, f).len() ==> p(#[trigger] flat(n, f)[k]),
    decreases n,
{
    if n > 0 {
        all_in_parts((n - 1) as nat, f, p);
        let before = flat((n - 1) as nat, f);
        assert forall|k: int| 0 <= k < flat(n, f).len() implies p(#[trigger] flat(n, f)[k]) by {
            if k < before.len() {
                assert(flat(n, f)[k] == before[k]);
            } else {
                assert(flat(n, f)[k] == f(n - 1)[k - before.len()]);
            }
        }
    }
}

impl<'a, N: Scalar> Parcels<'a, N> {
    /// A reclaim that its task may make when it does: the task approves of the
    /// pile, is at work, and has a rate; and what the pile received is drawn on
    /// only after the interval it came in.
    pub open spec fn timely(self) -> spec_fn(ReclaimVariable<N>) -> bool {
        |reclaim: ReclaimVariable<N>|
            {
                &&& reclaim.task < self.input.tasks@.len()
                &&& reclaim.interval < self.horizon()
                &&& reclaim.segment < self.segments(reclaim.interval as int)
                &&& self.approved(reclaim.task as int).contains(reclaim.source)
                &&& self.active(reclaim.task as int, reclaim.interval as int)
                &&& !self.task_reclaim_rate(reclaim.task as int, reclaim.interval as int).at_most(N::of_whole(0))
                &&& match reclaim.unit {
                    UnitKey::Opening { pile, .. } => pile == reclaim.source,
                    UnitKey::Receipt { pile, receipt_interval, .. } => pile == reclaim.source && receipt_interval
                        < reclaim.interval,
                }
            }
    }

    /// Every reclaim that is listed is timely: nothing is drawn from a pile in
    /// the interval it arrives in, or before.
    pub proof fn reclaims_are_timely(self)
        ensures
            forall|x: int| 0 <= x < self.reclaims().len() ==> self.timely()(#[trigger] self.reclaims()[x]),
    {
        let p = self.timely();
        let horizon = self.input.intervals.len();
        let tasks = self.input.tasks.len();
        assert(horizon == self.horizon());
        assert(tasks == self.input.tasks@.len());
        assert forall|t: int, x: int|
            0 <= t < self.input.tasks@.len() && 0 <= x < self.task_reclaims()(t).len() implies p(
            #[trigger] self.task_reclaims()(t)[x],
        ) by {
            assert forall|i: int, y: int|
                0 <= i < self.horizon() && 0 <= y < self.interval_reclaims(t)(i).len() implies p(
                #[trigger] self.interval_reclaims(t)(i)[y],
            ) by {
                if self.active(t, i) && !self.task_reclaim_rate(t, i).at_most(N::of_whole(0)) {
                    assert(self.segments(i) == self.budgets@[i] as nat);
                    self.segments_timely(t, i);
                }
            }
            all_in_parts(self.horizon(), self.interval_reclaims(t), p);
        }
        all_in_parts(self.input.tasks@.len(), self.task_reclaims(), p);
    }

    proof fn segments_timely(self, t: int, i: int)
        requires
            0 <= t < self.input.tasks@.len() <= usize::MAX,
            0 <= i < self.horizon() <= usize::MAX,
            self.segments(i) <= usize::MAX,
            self.active(t, i),
            !self.task_reclaim_rate(t, i).at_most(N::of_whole(0)),
        ensures
            forall|y: int|
                0 <= y < flat(self.segments(i), self.segment_reclaims(t, i)).len() ==> self.timely()(
                    #[trigger] flat(self.segments(i), self.segment_reclaims(t, i))[y],
                ),
    {
        let p = self.timely();
        assert forall|s: int, y: int|
            0 <= s < self.segments(i) && 0 <= y < self.segment_reclaims(t, i)(s).len() implies p(
            #[trigger] self.segment_reclaims(t, i)(s)[y],
        ) by {
            assert forall|k: int, z: int|
                0 <= k < self.approved(t).len() && 0 <= z < self.source_reclaims(t, i, s)(k).len() implies p(
                #[trigger] self.source_reclaims(t, i, s)(k)[z],
            ) by {
                self.source_timely(t, i, s, k);
            }
            all_in_parts(self.approved(t).len(), self.source_reclaims(t, i, s), p);
        }
        all_in_parts(self.segments(i), self.segment_reclaims(t, i), p);
    }

    proof fn source_timely(self, t: int, i: int, s: int, k: int)
        requires
            0 <= t < self.input.tasks@.len() <= usize::MAX,
            0 <= i < self.horizon() <= usize::MAX,
            0 <= s < self.segments(i) <= usize::MAX,
            0 <= k < self.approved(t).len(),
            self.active(t, i),
            !self.task_reclaim_rate(t, i).at_most(N::of_whole(0)),
        ensures
            forall|z: int|
                0 <= z < self.source_reclaims(t, i, s)(k).len() ==> self.timely()(
                    #[trigger] self.source_reclaims(t, i, s)(k)[z],
                ),
    {
        let p = self.timely();
        assert(self.approved(t).contains(self.approved(t)[k]));
        if let Some(pile) = crate::listing::keyed(self.input.stockpiles@, self.approved(t)[k].0) {
            let lots = self.input.stockpiles@[pile].opening@;
            assert forall|o: int, z: int|
                0 <= o < lots.len() && 0 <= z < self.lot_reclaims(t, i, s, k, lots)(o).len() implies p(
                #[trigger] self.lot_reclaims(t, i, s, k, lots)(o)[z],
            ) by {
                let shares = self.lot_share(t, i, s, k, o, lots[o]);
                all_in_parts(lots[o].material@.len(), shares, p);
            }
            all_in_parts(lots.len(), self.lot_reclaims(t, i, s, k, lots), p);
            assert forall|x: int, z: int|
                0 <= x < self.groups().len() && 0 <= z < self.receipt_reclaims(t, i, s, k)(x).len() implies p(
                #[trigger] self.receipt_reclaims(t, i, s, k)(x)[z],
            ) by {
                let group = self.groups()[x];
                assert forall|position: int, y: int|
                    0 <= position < group.positions && 0 <= y < self.receipt_position(t, i, s, k, group)(
                        position,
                    ).len() implies p(#[trigger] self.receipt_position(t, i, s, k, group)(position)[y]) by {
                    all_in_parts(
                        self.group_materials(group).len(),
                        self.receipt_material(t, i, s, k, group, position),
                        p,
                    );
                }
                all_in_parts(group.positions as nat, self.receipt_position(t, i, s, k, group), p);
            }
            all_in_parts(self.groups().len(), self.receipt_reclaims(t, i, s, k), p);
            let first = flat(lots.len(), self.lot_reclaims(t, i, s, k, lots));
            let second = flat(self.groups().len(), self.receipt_reclaims(t, i, s, k));
            assert forall|z: int| 0 <= z < self.source_reclaims(t, i, s)(k).len() implies p(
                #[trigger] self.source_reclaims(t, i, s)(k)[z],
            ) by {
                if z < first.len() {
                    assert(self.source_reclaims(t, i, s)(k)[z] == first[z]);
                } else {
                    assert(self.source_reclaims(t, i, s)(k)[z] == second[z - first.len()]);
                }
            }
        }
    }
}

/// The model admits a point.
#[verifier::opaque]
pub open spec fn admits(model: Parcels<Fixed>, point: spec_fn(ParcelColumn) -> int) -> bool {
    feasible(model.lines(), point)
}

proof fn parts_feasible(model: Parcels<Fixed>, point: spec_fn(ParcelColumn) -> int)
    requires
        admits(model, point),
    ensures
        feasible(model.supply_lines(), point),
        feasible(flat(model.input.loaders@.len(), model.loader_lines()), point),
{
    reveal(admits);
    let loaders = flat(model.input.loaders@.len(), model.loader_lines());
    let piles = flat(model.input.stockpiles@.len(), model.pile_lines());
    let a = model.column_lines() + model.supply_lines();
    let b = a + loaders;
    let c = b + model.receipt_lines();
    let d = c + piles;
    assert(model.lines() == d + model.bound_lines());
    feasible_parts(d, model.bound_lines(), point);
    feasible_parts(c, piles, point);
    feasible_parts(b, model.receipt_lines(), point);
    feasible_parts(a, loaders, point);
    feasible_parts(model.column_lines(), model.supply_lines(), point);
}

/// The segments of an interval fill it.
pub proof fn segments_fill_interval(model: Parcels<Fixed>, i: int, point: spec_fn(ParcelColumn) -> int)
    requires
        admits(model, point),
        0 <= i < model.horizon(),
    ensures
        weighed(model.clock_terms(i), point) == model.length(i).0 * STEPS,
{
    parts_feasible(model, point);
    let clock = flat(model.horizon(), model.clock_line());
    let ground = flat(model.input.ground@.len(), model.ground_lines());
    let destinations = flat(model.input.destinations@.len(), model.destination_lines());
    let routes = flat(model.input.tasks@.len(), model.route_lines());
    assert(model.supply_lines() == clock + ground + destinations + routes);
    feasible_parts(clock + ground + destinations, routes, point);
    feasible_parts(clock + ground, destinations, point);
    feasible_parts(clock, ground, point);
    feasible_one(model.horizon(), model.clock_line(), i, point);
    kept(model.clock_line()(i), 0, point);
}

proof fn loader_feasible(model: Parcels<Fixed>, l: int, i: int, s: int, point: spec_fn(ParcelColumn) -> int)
    requires
        admits(model, point),
        0 <= l < model.input.loaders@.len(),
        0 <= i < model.horizon(),
        0 <= s < model.segments(i),
    ensures
        feasible(flat(model.order(l).len(), model.task_line(l, i, s)), point),
        keeps(at_most_row(model.selected_terms(l, i, s), one::<Fixed>()), point),
{
    parts_feasible(model, point);
    feasible_one(model.input.loaders@.len(), model.loader_lines(), l, point);
    feasible_one(model.horizon(), model.loader_interval_lines(l), i, point);
    feasible_one(model.segments(i), model.loader_segment_lines(l, i), s, point);
    let tasks = flat(model.order(l).len(), model.task_line(l, i, s));
    let last = seq![at_most_row(model.selected_terms(l, i, s), one::<Fixed>())];
    assert(model.loader_segment_lines(l, i)(s) == tasks + last);
    feasible_parts(tasks, last, point);
    kept(last, 0, point);
}

/// What a row says of its first column, one other and the rest, which are
/// nothing.
proof fn first_at_least(
    a: ParcelColumn,
    b: ParcelColumn,
    rest: Seq<(ParcelColumn, Fixed)>,
    point: spec_fn(ParcelColumn) -> int,
)
    requires
        keeps(
            at_least_row(seq![(a, one::<Fixed>()), (b, less_one::<Fixed>())] + rest, nil::<Fixed>()),
            point,
        ),
        weighed(rest, point) == 0,
    ensures
        point(a) >= point(b),
{
    let first = seq![(a, one::<Fixed>()), (b, less_one::<Fixed>())];
    joined_terms(first, rest, point);
    two_terms(first, point);
    let (u, v) = (first[0].1.0 as int, first[1].1.0 as int);
    let (x, y) = (point(a), point(b));
    assert(u * x == 1_000_000_000 * x && v * y == -1_000_000_000 * y) by (nonlinear_arith)
        requires
            u == 1_000_000_000,
            v == -1_000_000_000,
    ;
}

proof fn task_feasible(model: Parcels<Fixed>, l: int, i: int, s: int, q: int, point: spec_fn(ParcelColumn) -> int)
    requires
        admits(model, point),
        0 <= l < model.input.loaders@.len(),
        0 <= i < model.horizon(),
        0 <= s < model.segments(i),
        0 <= q < model.order(l).len(),
    ensures
        ({
            let t = model.order(l)[q] as int;
            let (selected, ready) = (model.selected(t, i, s), model.task_ready(t, i, s));
            &&& keeps(at_most_row(seq![(selected, one::<Fixed>()), (ready, less_one::<Fixed>())], nil::<Fixed>()), point)
            &&& feasible(flat(q as nat, model.yield_line(l, t, i, s)), point)
            &&& keeps(
                at_least_row(
                    seq![(selected, one::<Fixed>()), (ready, less_one::<Fixed>())] + model.earlier_terms(
                        l,
                        i,
                        s,
                        q as nat,
                    ),
                    nil::<Fixed>(),
                ),
                point,
            )
        }),
{
    loader_feasible(model, l, i, s, point);
    feasible_one(model.order(l).len(), model.task_line(l, i, s), q, point);
    let t = model.order(l)[q] as int;
    let (selected, ready) = (model.selected(t, i, s), model.task_ready(t, i, s));
    let first = model.kind_lines(l, t, i, s);
    let within = seq![at_most_row(seq![(selected, one::<Fixed>()), (ready, less_one::<Fixed>())], nil::<Fixed>())];
    let yields = flat(q as nat, model.yield_line(l, t, i, s));
    let must = seq![
        at_least_row(
            seq![(selected, one::<Fixed>()), (ready, less_one::<Fixed>())] + model.earlier_terms(l, i, s, q as nat),
            nil::<Fixed>(),
        ),
    ];
    assert(model.task_line(l, i, s)(q) == first + within + yields + must);
    feasible_parts(first + within + yields, must, point);
    feasible_parts(first + within, yields, point);
    feasible_parts(first, within, point);
    kept(within, 0, point);
    kept(must, 0, point);
}

/// A loader works on the first of its tasks that has work: never on one without,
/// never past an earlier one with work, always on one with work behind none; and
/// on one task at a time.
pub proof fn loaders_work_in_order(model: Parcels<Fixed>, l: int, i: int, s: int, q: int, point: spec_fn(ParcelColumn) -> int)
    requires
        admits(model, point),
        0 <= l < model.input.loaders@.len(),
        0 <= i < model.horizon(),
        0 <= s < model.segments(i),
        0 <= q < model.order(l).len(),
    ensures
        ({
            let order = model.order(l);
            let (selected, ready) = (model.selected(order[q] as int, i, s), model.task_ready(order[q] as int, i, s));
            &&& point(selected) <= point(ready)
            &&& forall|e: int|
                0 <= e < q ==> point(selected) + point(model.task_ready(#[trigger] order[e] as int, i, s)) <= STEPS
            &&& (forall|e: int| 0 <= e < q ==> point(model.task_ready(#[trigger] order[e] as int, i, s)) == 0) ==> point(
                selected,
            ) == point(ready)
            &&& weighed(model.selected_terms(l, i, s), point) <= STEPS * STEPS
        }),
{
    let order = model.order(l);
    let t = order[q] as int;
    let (selected, ready) = (model.selected(t, i, s), model.task_ready(t, i, s));
    loader_feasible(model, l, i, s, point);
    task_feasible(model, l, i, s, q, point);
    first_of_two(selected, ready, less_one::<Fixed>(), nil::<Fixed>(), point);
    assert forall|e: int| 0 <= e < q implies point(selected) + point(model.task_ready(#[trigger] order[e] as int, i, s))
        <= STEPS by {
        feasible_one(q as nat, model.yield_line(l, t, i, s), e, point);
        kept(model.yield_line(l, t, i, s)(e), 0, point);
        let terms = seq![(selected, one::<Fixed>()), (model.task_ready(order[e] as int, i, s), one::<Fixed>())];
        two_terms(terms, point);
        let (x, y) = (point(selected), point(model.task_ready(order[e] as int, i, s)));
        assert(terms[0].1.0 == 1_000_000_000 && terms[1].1.0 == 1_000_000_000);
        assert(weighed(terms, point) == 1_000_000_000 * x + 1_000_000_000 * y);
    }
    if forall|e: int| 0 <= e < q ==> point(model.task_ready(#[trigger] order[e] as int, i, s)) == 0 {
        let earlier = model.earlier_terms(l, i, s, q as nat);
        assert forall|e: int| 0 <= e < earlier.len() implies point((#[trigger] earlier[e]).0) == 0 by {
            assert(point(model.task_ready(order[e] as int, i, s)) == 0);
        }
        nothing_weighs_nothing(earlier, point);
        first_at_least(selected, ready, earlier, point);
    }
}

} // verus!
