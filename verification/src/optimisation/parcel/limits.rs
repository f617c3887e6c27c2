//! The rows of reclaim tasks, trucks, days and capacities, and the whole model.
use vstd::prelude::*;

use crate::listing::flat;
use crate::optimisation::ids::DestinationKind;
use crate::optimisation::input::TaskKind;
use crate::optimisation::parcel::base::{find_hours, hours_at, Parcels};
use crate::optimisation::parcel::columns::{ParcelColumn, ReclaimVariable, UnitKey};
use crate::optimisation::parcel::declare::{Line, Sheet};
use crate::optimisation::parcel::lists::Lists;
use crate::optimisation::parcel::select::{MoveSelector, ParcelPart, ParcelSelector, ReclaimSelector};
use crate::optimisation::sheet::{at_least_row, at_most_row, equal_row, less_one, nil, one, term, terms_of};
use crate::scalar::Scalar;

verus! {

impl<'a, N: Scalar> Parcels<'a, N> {
    // Reclaim tasks.

    pub open spec fn source_terms(self, t: int, i: int, s: int) -> Seq<(ParcelColumn, N)> {
        Seq::new(
            self.approved(t).len(),
            |k: int| (self.pile_available(self.approved(t)[k], i, s), less_one::<N>()),
        )
    }

    pub open spec fn source_line(self, t: int, i: int, s: int) -> spec_fn(int) -> Seq<Line<N>> {
        |k: int|
            seq![
                at_least_row(
                    seq![
                        (self.task_ready(t, i, s), one::<N>()),
                        (self.pile_available(self.approved(t)[k], i, s), less_one::<N>()),
                    ],
                    nil::<N>(),
                ),
            ]
    }

    /// A reclaim task has work while one of its piles has, and reclaims within
    /// its loader's rate.
    pub open spec fn reclaim_task_line(self, t: int, i: int) -> spec_fn(int) -> Seq<Line<N>> {
        |s: int|
            {
                let ready = self.task_ready(t, i, s);
                let rate = self.task_reclaim_rate(t, i);
                if self.active(t, i) && N::of_whole(0).below(rate) {
                    let all = self.reclaim_terms(
                        ReclaimSelector::OfTask { task: t as usize, interval: i as usize, segment: s as usize },
                        one::<N>(),
                    );
                    seq![
                        at_most_row(seq![(ready, one::<N>())] + self.source_terms(t, i, s), nil::<N>()),
                    ] + flat(self.approved(t).len(), self.source_line(t, i, s)) + seq![
                        at_most_row(
                            all.push((self.selected(t, i, s), rate.times(self.length(i)).opposite())),
                            nil::<N>(),
                        ),
                        at_most_row(all.push((self.duration(i, s), rate.opposite())), nil::<N>()),
                    ]
                } else {
                    seq![equal_row(seq![(ready, one::<N>())], nil::<N>())]
                }
            }
    }

    pub open spec fn reclaim_task_interval(self, t: int) -> spec_fn(int) -> Seq<Line<N>> {
        |i: int| flat(self.segments(i), self.reclaim_task_line(t, i))
    }

    pub open spec fn reclaim_task_lines(self) -> spec_fn(int) -> Seq<Line<N>> {
        |t: int|
            match self.task(t).kind {
                TaskKind::Reclaim { approved_sources, maximum_t } => flat(
                    self.horizon(),
                    self.reclaim_task_interval(t),
                ) + (match maximum_t {
                    Some(maximum) => seq![
                        at_most_row(
                            self.reclaim_terms(ReclaimSelector::OfTaskEver { task: t as usize }, one::<N>()),
                            maximum,
                        ),
                    ],
                    None => Seq::empty(),
                }),
                TaskKind::Dig { .. } => Seq::empty(),
            }
    }

    fn write_reclaim_cell(&self, sheet: &mut Sheet<N>, t: usize, i: usize, s: usize, lists: &Lists<N>)
        requires
            self.listed(*lists),
            t < self.input.tasks@.len(),
            i < self.horizon(),
        ensures
            final(sheet)@ == old(sheet)@ + self.reclaim_task_line(t as int, i as int)(s as int),
    {
        let ghost base = sheet@;
        let ready = ParcelColumn::TaskReady { task: t, interval: i, segment: s };
        let rate = self.find_task_reclaim_rate(t, i);
        if self.is_active(t, i) && N::whole(0).is_below(rate) {
            let count: usize = self.find_approved_count(t);
            let ghost all = self.source_terms(t as int, i as int, s as int);
            let mut terms = term(ready, N::whole(1));
            for k in 0..count
                invariant
                    t < self.input.tasks@.len(),
                    count == self.approved(t as int).len(),
                    all == self.source_terms(t as int, i as int, s as int),
                    terms@ =~= seq![(ready, one::<N>())] + all.take(k as int),
            {
                let pile = self.find_approved(t, k);
                terms.push((ParcelColumn::PileAvailable { pile, interval: i, segment: s }, N::whole(1).neg()));
            }
            assert(all.take(count as int) =~= all);
            sheet.leq(terms, N::whole(0));
            let ghost inner = sheet@;
            let ghost f = self.source_line(t as int, i as int, s as int);
            assert(inner + flat(0, f) =~= inner);
            for k in 0..count
                invariant
                    t < self.input.tasks@.len(),
                    count == self.approved(t as int).len(),
                    ready == self.task_ready(t as int, i as int, s as int),
                    f == self.source_line(t as int, i as int, s as int),
                    sheet@ == inner + flat(k as nat, f),
            {
                let available = ParcelColumn::PileAvailable { pile: self.find_approved(t, k), interval: i, segment: s };
                sheet.geq(terms_of(ready, N::whole(1), available, N::whole(1).neg()), N::whole(0));
                assert(sheet@ =~= inner + (flat(k as nat, f) + f(k as int)));
            }
            let sel = ReclaimSelector::OfTask { task: t, interval: i, segment: s };
            let mut worked: Vec<(ParcelColumn, N)> = Vec::new();
            self.add_reclaims(&mut worked, &lists.reclaims, sel, N::whole(1));
            assert(worked@ =~= self.reclaim_terms(sel, one::<N>()));
            let mut timed = crate::listing::copied(&worked);
            let most = rate.mul(self.input.intervals[i].duration_h());
            worked.push((ParcelColumn::TaskSelected { task: t, interval: i, segment: s }, most.neg()));
            timed.push((ParcelColumn::Duration { interval: i, segment: s }, rate.neg()));
            sheet.leq(worked, N::whole(0));
            sheet.leq(timed, N::whole(0));
        } else {
            sheet.eq(term(ready, N::whole(1)), N::whole(0));
        }
        assert(sheet@ =~= base + self.reclaim_task_line(t as int, i as int)(s as int));
    }

    fn write_reclaim_task(&self, sheet: &mut Sheet<N>, t: usize, lists: &Lists<N>)
        requires
            self.ready(),
            self.listed(*lists),
            t < self.input.tasks@.len(),
        ensures
            final(sheet)@ == old(sheet)@ + self.reclaim_task_lines()(t as int),
    {
        let ghost base = sheet@;
        if let TaskKind::Reclaim { approved_sources: _, maximum_t } = &self.input.tasks[t].kind {
            let ghost each = self.reclaim_task_interval(t as int);
            assert(base + flat(0, each) =~= base);
            for i in 0..self.input.intervals.len()
                invariant
                    self.ready(),
                    self.listed(*lists),
                    t < self.input.tasks@.len(),
                    each == self.reclaim_task_interval(t as int),
                    sheet@ == base + flat(i as nat, each),
            {
                let segments: usize = self.budgets[i];
                let ghost inner = sheet@;
                let ghost f = self.reclaim_task_line(t as int, i as int);
                assert(inner + flat(0, f) =~= inner);
                for s in 0..segments
                    invariant
                        self.listed(*lists),
                        t < self.input.tasks@.len(),
                        i < self.horizon(),
                        f == self.reclaim_task_line(t as int, i as int),
                        sheet@ == inner + flat(s as nat, f),
                {
                    self.write_reclaim_cell(sheet, t, i, s, lists);
                    assert(sheet@ =~= inner + (flat(s as nat, f) + f(s as int)));
                }
                assert(sheet@ =~= base + (flat(i as nat, each) + each(i as int)));
            }
            if let Some(maximum) = maximum_t {
                let sel = ReclaimSelector::OfTaskEver { task: t };
                let mut all: Vec<(ParcelColumn, N)> = Vec::new();
                self.add_reclaims(&mut all, &lists.reclaims, sel, N::whole(1));
                assert(all@ =~= self.reclaim_terms(sel, one::<N>()));
                sheet.leq(all, *maximum);
            }
        }
        assert(sheet@ =~= base + self.reclaim_task_lines()(t as int));
    }

    // What is reclaimed takes a route.

    pub open spec fn supplied_line(self, reclaim: ReclaimVariable<N>) -> Seq<Line<N>> {
        match reclaim.unit {
            UnitKey::Receipt { pile, receipt_interval, segment, position } => seq![
                at_most_row(
                    seq![(reclaim.column, one::<N>())] + self.parcel_terms(
                        ParcelSelector::AtMaterial {
                            pile: reclaim.source,
                            interval: receipt_interval,
                            segment,
                            position,
                            material: reclaim.material,
                        },
                        ParcelPart::Quantity,
                        less_one::<N>(),
                    ),
                    nil::<N>(),
                ),
            ],
            UnitKey::Opening { .. } => Seq::empty(),
        }
    }

    /// No more of a material is reclaimed than was received, and all of it is
    /// moved.
    pub open spec fn reclaimed_line(self) -> spec_fn(int) -> Seq<Line<N>> {
        |x: int|
            {
                let reclaim = self.reclaims()[x];
                let routed = self.move_terms(
                    MoveSelector::OfUnit {
                        task: reclaim.task,
                        interval: reclaim.interval,
                        segment: reclaim.segment,
                        unit: reclaim.unit,
                        material: reclaim.material,
                    },
                    one::<N>(),
                );
                self.supplied_line(reclaim) + (if routed.len() != 1 || routed[0].0 != reclaim.column {
                    seq![equal_row(routed.push((reclaim.column, reclaim.fraction.opposite())), nil::<N>())]
                } else {
                    Seq::empty()
                })
            }
    }

    fn write_reclaimed(&self, sheet: &mut Sheet<N>, x: usize, lists: &Lists<N>)
        requires
            self.listed(*lists),
            x < lists.reclaims@.len(),
        ensures
            final(sheet)@ == old(sheet)@ + self.reclaimed_line()(x as int),
    {
        let ghost base = sheet@;
        let reclaim = lists.reclaims[x];
        if let UnitKey::Receipt { pile: _, receipt_interval, segment, position } = reclaim.unit {
            let sel = ParcelSelector::AtMaterial {
                pile: reclaim.source,
                interval: receipt_interval,
                segment,
                position,
                material: reclaim.material,
            };
            let mut terms = term(reclaim.column, N::whole(1));
            self.add_parcels(&mut terms, &lists.parcels, sel, ParcelPart::Quantity, N::whole(1).neg());
            sheet.leq(terms, N::whole(0));
        }
        let sel = MoveSelector::OfUnit {
            task: reclaim.task,
            interval: reclaim.interval,
            segment: reclaim.segment,
            unit: reclaim.unit,
            material: reclaim.material,
        };
        let mut routed: Vec<(ParcelColumn, N)> = Vec::new();
        self.add_moves(&mut routed, &lists.moves, sel, N::whole(1));
        assert(routed@ =~= self.move_terms(sel, one::<N>()));
        if routed.len() != 1 || routed[0].0 != reclaim.column {
            routed.push((reclaim.column, reclaim.fraction.neg()));
            sheet.eq(routed, N::whole(0));
        }
        assert(sheet@ =~= base + self.reclaimed_line()(x as int));
    }

    // Trucks.

    pub open spec fn truck_line(self, k: int, i: int) -> spec_fn(int) -> Seq<Line<N>> {
        |s: int|
            {
                let truck = self.input.trucks@[k];
                let units = hours_at(truck.hours@, i).over(self.length(i));
                seq![
                    at_most_row(
                        self.move_terms(
                            MoveSelector::Truck { truck: truck.id, interval: i as usize, segment: s as usize },
                            one::<N>(),
                        ).push((self.duration(i, s), units.opposite())),
                        nil::<N>(),
                    ),
                ]
            }
    }

    pub open spec fn truck_interval_lines(self, k: int) -> spec_fn(int) -> Seq<Line<N>> {
        |i: int| flat(self.segments(i), self.truck_line(k, i))
    }

    pub open spec fn truck_lines(self) -> spec_fn(int) -> Seq<Line<N>> {
        |k: int| flat(self.horizon(), self.truck_interval_lines(k))
    }

    fn write_truck(&self, sheet: &mut Sheet<N>, k: usize, lists: &Lists<N>)
        requires
            self.ready(),
            self.listed(*lists),
            k < self.input.trucks@.len(),
        ensures
            final(sheet)@ == old(sheet)@ + self.truck_lines()(k as int),
    {
        let truck = &self.input.trucks[k];
        let ghost base = sheet@;
        let ghost each = self.truck_interval_lines(k as int);
        assert(base + flat(0, each) =~= base);
        for i in 0..self.input.intervals.len()
            invariant
                self.ready(),
                self.listed(*lists),
                k < self.input.trucks@.len(),
                truck == self.input.trucks@[k as int],
                each == self.truck_interval_lines(k as int),
                sheet@ == base + flat(i as nat, each),
        {
            let segments: usize = self.budgets[i];
            let units = find_hours(&truck.hours, i).div(self.input.intervals[i].duration_h());
            let ghost inner = sheet@;
            let ghost f = self.truck_line(k as int, i as int);
            assert(inner + flat(0, f) =~= inner);
            for s in 0..segments
                invariant
                    self.listed(*lists),
                    truck == self.input.trucks@[k as int],
                    units == hours_at(truck.hours@, i as int).over(self.length(i as int)),
                    f == self.truck_line(k as int, i as int),
                    sheet@ == inner + flat(s as nat, f),
            {
                let sel = MoveSelector::Truck { truck: truck.id, interval: i, segment: s };
                let mut terms: Vec<(ParcelColumn, N)> = Vec::new();
                self.add_moves(&mut terms, &lists.moves, sel, N::whole(1));
                assert(terms@ =~= self.move_terms(sel, one::<N>()));
                terms.push((ParcelColumn::Duration { interval: i, segment: s }, units.neg()));
                sheet.leq(terms, N::whole(0));
                assert(sheet@ =~= inner + (flat(s as nat, f) + f(s as int)));
            }
            assert(sheet@ =~= base + (flat(i as nat, each) + each(i as int)));
        }
    }

    // Days and capacities.

    pub open spec fn day_line(self, d: int) -> spec_fn(int) -> Seq<Line<N>> {
        |day: int|
            {
                let destination = self.input.destinations@[d];
                match destination.crusher_daily_t@[day] {
                    Some(limit) => seq![
                        at_most_row(
                            self.move_terms(
                                MoveSelector::OnDay { destination: destination.id, day: day as usize },
                                one::<N>(),
                            ),
                            limit,
                        ),
                    ],
                    None => Seq::empty(),
                }
            }
    }

    pub open spec fn limit_lines(self) -> spec_fn(int) -> Seq<Line<N>> {
        |d: int|
            {
                let destination = self.input.destinations@[d];
                match destination.kind {
                    DestinationKind::Crusher => flat(destination.crusher_daily_t@.len(), self.day_line(d)),
                    DestinationKind::Dump => match destination.capacity_t {
                        Some(capacity) => seq![
                            at_most_row(
                                self.move_terms(MoveSelector::Ever { destination: destination.id }, one::<N>()),
                                capacity,
                            ),
                        ],
                        None => Seq::empty(),
                    },
                    DestinationKind::Stockpile(_) => Seq::empty(),
                }
            }
    }

    fn write_limits(&self, sheet: &mut Sheet<N>, d: usize, lists: &Lists<N>)
        requires
            self.listed(*lists),
            d < self.input.destinations@.len(),
        ensures
            final(sheet)@ == old(sheet)@ + self.limit_lines()(d as int),
    {
        let ghost base = sheet@;
        let destination = &self.input.destinations[d];
        match destination.kind {
            DestinationKind::Crusher => {
                let ghost f = self.day_line(d as int);
                assert(base + flat(0, f) =~= base);
                for day in 0..destination.crusher_daily_t.len()
                    invariant
                        self.listed(*lists),
                        d < self.input.destinations@.len(),
                        destination == self.input.destinations@[d as int],
                        f == self.day_line(d as int),
                        sheet@ == base + flat(day as nat, f),
                {
                    if let Some(limit) = destination.crusher_daily_t[day] {
                        let sel = MoveSelector::OnDay { destination: destination.id, day };
                        let mut terms: Vec<(ParcelColumn, N)> = Vec::new();
                        self.add_moves(&mut terms, &lists.moves, sel, N::whole(1));
                        assert(terms@ =~= self.move_terms(sel, one::<N>()));
                        sheet.leq(terms, limit);
                    }
                    assert(sheet@ =~= base + (flat(day as nat, f) + f(day as int)));
                }
            },
            DestinationKind::Dump => {
                if let Some(capacity) = destination.capacity_t {
                    let sel = MoveSelector::Ever { destination: destination.id };
                    let mut terms: Vec<(ParcelColumn, N)> = Vec::new();
                    self.add_moves(&mut terms, &lists.moves, sel, N::whole(1));
                    assert(terms@ =~= self.move_terms(sel, one::<N>()));
                    sheet.leq(terms, capacity);
                }
            },
            DestinationKind::Stockpile(_) => {},
        }
        assert(sheet@ =~= base + self.limit_lines()(d as int));
    }

    // Whole intervals first.

    pub open spec fn seed_line(self, i: int) -> spec_fn(int) -> Seq<Line<N>> {
        |s: int| seq![at_most_row(seq![(self.duration(i, s + 1), one::<N>())], nil::<N>())]
    }

    /// No interval is split. These rows hold for a first solve only.
    pub open spec fn seed_lines(self) -> spec_fn(int) -> Seq<Line<N>> {
        |i: int| flat((self.segments(i) - 1) as nat, self.seed_line(i))
    }

    fn write_seeds(&self, sheet: &mut Sheet<N>)
        requires
            self.ready(),
        ensures
            final(sheet)@ == old(sheet)@ + flat(self.horizon(), self.seed_lines()),
    {
        let ghost base = sheet@;
        let ghost each = self.seed_lines();
        assert(base + flat(0, each) =~= base);
        for i in 0..self.input.intervals.len()
            invariant
                self.ready(),
                each == self.seed_lines(),
                sheet@ == base + flat(i as nat, each),
        {
            let more: usize = self.budgets[i] - 1;
            let ghost inner = sheet@;
            let ghost f = self.seed_line(i as int);
            assert(inner + flat(0, f) =~= inner);
            for s in 0..more
                invariant
                    more < usize::MAX,
                    f == self.seed_line(i as int),
                    sheet@ == inner + flat(s as nat, f),
            {
                sheet.leq(term(ParcelColumn::Duration { interval: i, segment: s + 1 }, N::whole(1)), N::whole(0));
                assert(sheet@ =~= inner + (flat(s as nat, f) + f(s as int)));
            }
            assert(sheet@ =~= base + (flat(i as nat, each) + each(i as int)));
        }
    }

    /// The rows of reclaim tasks, routes, trucks, days and capacities.
    pub open spec fn bound_lines(self) -> Seq<Line<N>> {
        flat(self.input.tasks@.len(), self.reclaim_task_lines()) + flat(self.reclaims().len(), self.reclaimed_line())
            + flat(self.input.trucks@.len(), self.truck_lines()) + flat(
            self.input.destinations@.len(),
            self.limit_lines(),
        )
    }

    fn write_bounds(&self, sheet: &mut Sheet<N>, lists: &Lists<N>)
        requires
            self.ready(),
            self.listed(*lists),
        ensures
            final(sheet)@ == old(sheet)@ + self.bound_lines(),
    {
        let ghost base = sheet@;
        let ghost tasks = self.reclaim_task_lines();
        assert(base + flat(0, tasks) =~= base);
        for t in 0..self.input.tasks.len()
            invariant
                self.ready(),
                self.listed(*lists),
                tasks == self.reclaim_task_lines(),
                sheet@ == base + flat(t as nat, tasks),
        {
            self.write_reclaim_task(sheet, t, lists);
            assert(sheet@ =~= base + (flat(t as nat, tasks) + tasks(t as int)));
        }
        let ghost first = sheet@;
        let ghost routes = self.reclaimed_line();
        assert(first + flat(0, routes) =~= first);
        for x in 0..lists.reclaims.len()
            invariant
                self.listed(*lists),
                routes == self.reclaimed_line(),
                sheet@ == first + flat(x as nat, routes),
        {
            self.write_reclaimed(sheet, x, lists);
            assert(sheet@ =~= first + (flat(x as nat, routes) + routes(x as int)));
        }
        let ghost second = sheet@;
        let ghost trucks = self.truck_lines();
        assert(second + flat(0, trucks) =~= second);
        for k in 0..self.input.trucks.len()
            invariant
                self.ready(),
                self.listed(*lists),
                trucks == self.truck_lines(),
                sheet@ == second + flat(k as nat, trucks),
        {
            self.write_truck(sheet, k, lists);
            assert(sheet@ =~= second + (flat(k as nat, trucks) + trucks(k as int)));
        }
        let ghost third = sheet@;
        let ghost limits = self.limit_lines();
        assert(third + flat(0, limits) =~= third);
        for d in 0..self.input.destinations.len()
            invariant
                self.listed(*lists),
                limits == self.limit_lines(),
                sheet@ == third + flat(d as nat, limits),
        {
            self.write_limits(sheet, d, lists);
            assert(sheet@ =~= third + (flat(d as nat, limits) + limits(d as int)));
        }
        assert(sheet@ =~= base + self.bound_lines());
    }

    /// Every line of the model: its columns, then its rows.
    pub open spec fn lines(self) -> Seq<Line<N>> {
        self.column_lines() + self.supply_lines() + flat(self.input.loaders@.len(), self.loader_lines())
            + self.receipt_lines() + flat(self.input.stockpiles@.len(), self.pile_lines()) + self.bound_lines()
    }

    /// Writes the model, and beside it the rows under which no interval is
    /// split, which a first solve may add.
    pub fn write(&self, lists: &Lists<N>) -> (r: (Sheet<N>, Sheet<N>))
        requires
            self.ready(),
            self.listed(*lists),
        ensures
            r.0@ == self.lines(),
            r.1@ == flat(self.horizon(), self.seed_lines()),
    {
        let mut sheet: Sheet<N> = Sheet::new();
        self.declare(&mut sheet, lists);
        self.write_supply(&mut sheet, lists);
        self.write_tasks(&mut sheet, lists);
        self.write_receipts(&mut sheet, lists);
        self.write_piles(&mut sheet, lists);
        self.write_bounds(&mut sheet, lists);
        assert(sheet@ =~= self.lines());
        let mut seeds: Sheet<N> = Sheet::new();
        self.write_seeds(&mut seeds);
        assert(seeds@ =~= flat(self.horizon(), self.seed_lines()));
        (sheet, seeds)
    }
}

} // verus!
