//! The columns and rows of time, movements, tasks, rates and ground.
use vstd::prelude::*;

use crate::listing::{find_key, flat, keyed};
use crate::optimisation::authored::authored;
use crate::optimisation::blended::formulation::base::{Formulation, Selector};
use crate::optimisation::blended::formulation::model::{Column, Line, Sheet};
use crate::optimisation::blended::input::{
    authored_tasks, authorises, flat_cell, interval_rate, operable, rate_for, rate_of, task_authorises, task_operable,
};
use crate::optimisation::blended::totals::{find_unit_value, unit_value};
use crate::optimisation::ids::{Activity, GroundId, SourceId};
use crate::optimisation::input::{in_window, task_active, TaskKind};
use crate::optimisation::sheet::{at_least_row, at_most_row, binary, continuous, equal_row, less_one, nil, one, term, terms_of};
use crate::scalar::Scalar;

verus! {

impl<'a, N: Scalar> Formulation<'a, N> {
    // The clock: the segments of an interval fill it.

    pub open spec fn duration_line(self, i: int) -> spec_fn(int) -> Seq<Line<N>> {
        |s: int| seq![continuous(self.duration(i, s), self.length(i))]
    }

    pub open spec fn clock_terms(self, i: int) -> Seq<(Column, N)> {
        Seq::new(self.segments as nat, |s: int| (self.duration(i, s), one::<N>()))
    }

    pub open spec fn clock_lines(self) -> spec_fn(int) -> Seq<Line<N>> {
        |i: int|
            flat(self.segments as nat, self.duration_line(i)) + seq![equal_row(self.clock_terms(i), self.length(i))]
    }

    fn write_clock(&self, sheet: &mut Sheet<N>)
        requires
            self.ready_to_write(),
        ensures
            final(sheet)@ == old(sheet)@ + flat(self.horizon(), self.clock_lines()),
    {
        let ghost base = sheet@;
        let ghost all = self.clock_lines();
        assert(base + flat(0, all) =~= base);
        for i in 0..self.input.intervals.len()
            invariant
                self.ready_to_write(),
                all == self.clock_lines(),
                sheet@ == base + flat(i as nat, all),
        {
            let length = self.input.intervals[i].duration_h();
            let mut terms: Vec<(Column, N)> = Vec::new();
            let ghost inner = sheet@;
            assert(inner + flat(0, self.duration_line(i as int)) =~= inner);
            for s in 0..self.segments
                invariant
                    length == self.length(i as int),
                    terms@ =~= self.clock_terms(i as int).take(s as int),
                    sheet@ == inner + flat(s as nat, self.duration_line(i as int)),
            {
                let column = Column::Duration { interval: i, segment: s };
                sheet.cont(column, length);
                terms.push((column, N::whole(1)));
                assert(sheet@ =~= inner + (flat(s as nat, self.duration_line(i as int)) + self.duration_line(i as int)(
                    s as int,
                )));
            }
            assert(terms@ =~= self.clock_terms(i as int));
            sheet.eq(terms, length);
            assert(sheet@ =~= base + (flat(i as nat, all) + all(i as int)));
        }
    }

    // Movements.

    pub open spec fn movement_line(self, c: int, i: int) -> spec_fn(int) -> Seq<Line<N>> {
        |s: int|
            seq![
                Line::Continuous {
                    column: self.movement(c, i, s),
                    upper: self.rate_or_zero(c, i).times(self.length(i)),
                    value: unit_value(self.candidate(c)),
                },
            ]
    }

    pub open spec fn movement_interval(self, c: int) -> spec_fn(int) -> Seq<Line<N>> {
        |i: int|
            if self.moves(c, i) {
                flat(self.segments as nat, self.movement_line(c, i))
            } else {
                Seq::empty()
            }
    }

    pub open spec fn movement_lines(self) -> spec_fn(int) -> Seq<Line<N>> {
        |c: int| flat(self.horizon(), self.movement_interval(c))
    }

    fn write_movements(&self, sheet: &mut Sheet<N>)
        requires
            self.ready_to_write(),
        ensures
            final(sheet)@ == old(sheet)@ + flat(self.candidates(), self.movement_lines()),
    {
        let ghost base = sheet@;
        let ghost all = self.movement_lines();
        assert(base + flat(0, all) =~= base);
        for c in 0..self.input.movements.len()
            invariant
                self.ready_to_write(),
                all == self.movement_lines(),
                sheet@ == base + flat(c as nat, all),
        {
            let value = find_unit_value(&self.input.movements[c]);
            let ghost middle = sheet@;
            let ghost each = self.movement_interval(c as int);
            assert(middle + flat(0, each) =~= middle);
            for i in 0..self.input.intervals.len()
                invariant
                    self.ready_to_write(),
                    c < self.candidates(),
                    value == unit_value(self.candidate(c as int)),
                    each == self.movement_interval(c as int),
                    sheet@ == middle + flat(i as nat, each),
            {
                if self.can_move(c, i) {
                    let bound = self.find_rate(c, i).mul(self.input.intervals[i].duration_h());
                    let ghost inner = sheet@;
                    let ghost line = self.movement_line(c as int, i as int);
                    assert(inner + flat(0, line) =~= inner);
                    for s in 0..self.segments
                        invariant
                            value == unit_value(self.candidate(c as int)),
                            bound == self.rate_or_zero(c as int, i as int).times(self.length(i as int)),
                            line == self.movement_line(c as int, i as int),
                            sheet@ == inner + flat(s as nat, line),
                    {
                        sheet.valued(Column::Movement { candidate: c, interval: i, segment: s }, bound, value);
                        assert(sheet@ =~= inner + (flat(s as nat, line) + line(s as int)));
                    }
                }
                assert(sheet@ =~= middle + (flat(i as nat, each) + each(i as int)));
            }
            assert(sheet@ =~= base + (flat(c as nat, all) + all(c as int)));
        }
    }

    // Tasks: a loader works on the first of its tasks that has work.

    pub open spec fn order(self, l: int) -> Seq<usize> {
        authored(self.input.tasks@, self.input.loaders@[l].id)
    }

    /// A loader can work on task `t` in interval `i`.
    pub open spec fn eligible(self, l: int, t: int, i: int) -> bool {
        in_window(self.input.tasks@[t], self.interval(i)) && operable(
            self.input.loaders@[l],
            self.input.tasks@[t],
            i as usize,
        )
    }

    pub fn is_eligible(&self, l: usize, t: usize, i: usize) -> (r: bool)
        requires
            l < self.input.loaders@.len(),
            t < self.input.tasks@.len(),
            i < self.horizon(),
        ensures
            r == self.eligible(l as int, t as int, i as int),
    {
        task_active(&self.input.tasks[t], self.input.intervals[i]) && task_operable(
            &self.input.loaders[l],
            &self.input.tasks[t],
            i,
        )
    }

    pub open spec fn eligible_task(self, l: int, i: int) -> spec_fn(int) -> Seq<usize> {
        |q: int|
            if self.eligible(l, self.order(l)[q] as int, i) {
                seq![self.order(l)[q]]
            } else {
                Seq::empty()
            }
    }

    /// The tasks a loader can work on in interval `i`, among the first `n` of its order.
    pub open spec fn eligible_to(self, l: int, i: int, n: nat) -> Seq<usize> {
        flat(n, self.eligible_task(l, i))
    }

    pub open spec fn active(self, l: int, t: usize, i: int, s: int) -> Column {
        Column::Active { loader: l as usize, task: t, interval: i as usize, segment: s as usize }
    }

    pub open spec fn ready(self, l: int, t: usize, i: int, s: int) -> Column {
        Column::Ready { loader: l as usize, task: t, interval: i as usize, segment: s as usize }
    }

    pub open spec fn yields_to(self, l: int, t: usize, i: int, s: int, earlier: Seq<usize>) -> spec_fn(int) -> Seq<Line<N>> {
        |r: int|
            seq![
                at_most_row(
                    seq![(self.active(l, t, i, s), one::<N>()), (self.ready(l, earlier[r], i, s), one::<N>())],
                    one::<N>(),
                ),
            ]
    }

    pub open spec fn ready_terms(self, l: int, i: int, s: int, tasks: Seq<usize>) -> Seq<(Column, N)> {
        Seq::new(tasks.len(), |r: int| (self.ready(l, tasks[r], i, s), one::<N>()))
    }

    pub open spec fn active_terms(self, l: int, i: int, s: int, tasks: Seq<usize>) -> Seq<(Column, N)> {
        Seq::new(tasks.len(), |r: int| (self.active(l, tasks[r], i, s), one::<N>()))
    }

    /// The lines of a task with those before it in the order.
    pub open spec fn task_lines(self, l: int, t: usize, i: int, s: int, earlier: Seq<usize>) -> Seq<Line<N>> {
        let pair = seq![(self.active(l, t, i, s), one::<N>()), (self.ready(l, t, i, s), less_one::<N>())];
        seq![binary(self.active(l, t, i, s)), binary(self.ready(l, t, i, s)), at_most_row(pair, nil::<N>())] + flat(
            earlier.len(),
            self.yields_to(l, t, i, s, earlier),
        ) + seq![at_least_row(pair + self.ready_terms(l, i, s, earlier), nil::<N>())]
    }

    pub open spec fn task_at(self, l: int, i: int, s: int) -> spec_fn(int) -> Seq<Line<N>> {
        |q: int|
            if self.eligible(l, self.order(l)[q] as int, i) {
                self.task_lines(l, self.order(l)[q], i, s, self.eligible_to(l, i, q as nat))
            } else {
                Seq::empty()
            }
    }

    pub open spec fn task_segment(self, l: int, i: int) -> spec_fn(int) -> Seq<Line<N>> {
        |s: int|
            {
                let tasks = self.eligible_to(l, i, self.order(l).len());
                flat(self.order(l).len(), self.task_at(l, i, s)) + (if tasks.len() == 0 {
                    Seq::empty()
                } else {
                    seq![at_most_row(self.active_terms(l, i, s, tasks), one::<N>())]
                })
            }
    }

    pub open spec fn task_interval(self, l: int) -> spec_fn(int) -> Seq<Line<N>> {
        |i: int| flat(self.segments as nat, self.task_segment(l, i))
    }

    pub open spec fn loader_tasks(self) -> spec_fn(int) -> Seq<Line<N>> {
        |l: int| flat(self.horizon(), self.task_interval(l))
    }

    fn write_task(&self, sheet: &mut Sheet<N>, l: usize, t: usize, i: usize, s: usize, earlier: &Vec<usize>)
        ensures
            final(sheet)@ == old(sheet)@ + self.task_lines(l as int, t, i as int, s as int, earlier@),
    {
        let ghost base = sheet@;
        let selected = Column::Active { loader: l, task: t, interval: i, segment: s };
        let ready = Column::Ready { loader: l, task: t, interval: i, segment: s };
        sheet.binary(selected);
        sheet.binary(ready);
        sheet.leq(terms_of(selected, N::whole(1), ready, N::whole(1).neg()), N::whole(0));
        let mut forced = terms_of(selected, N::whole(1), ready, N::whole(1).neg());
        let ghost pair = forced@;
        let ghost middle = sheet@;
        let ghost line = self.yields_to(l as int, t, i as int, s as int, earlier@);
        let ghost before = self.ready_terms(l as int, i as int, s as int, earlier@);
        assert(middle + flat(0, line) =~= middle);
        for r in 0..earlier.len()
            invariant
                selected == self.active(l as int, t, i as int, s as int),
                line == self.yields_to(l as int, t, i as int, s as int, earlier@),
                before == self.ready_terms(l as int, i as int, s as int, earlier@),
                forced@ =~= pair + before.take(r as int),
                sheet@ == middle + flat(r as nat, line),
        {
            let other = Column::Ready { loader: l, task: earlier[r], interval: i, segment: s };
            sheet.leq(terms_of(selected, N::whole(1), other, N::whole(1)), N::whole(1));
            forced.push((other, N::whole(1)));
            assert(sheet@ =~= middle + (flat(r as nat, line) + line(r as int)));
        }
        assert(before.take(earlier@.len() as int) =~= before);
        sheet.geq(forced, N::whole(0));
        assert(sheet@ =~= base + self.task_lines(l as int, t, i as int, s as int, earlier@));
    }

    fn write_task_segment(&self, sheet: &mut Sheet<N>, l: usize, i: usize, s: usize, order: &Vec<usize>)
        requires
            self.ready_to_write(),
            l < self.input.loaders@.len(),
            i < self.horizon(),
            order@ == self.order(l as int),
            forall|q: int| 0 <= q < order@.len() ==> (#[trigger] order@[q]) < self.input.tasks@.len(),
        ensures
            final(sheet)@ == old(sheet)@ + self.task_segment(l as int, i as int)(s as int),
    {
        let ghost (gl, gi, gs) = (l as int, i as int, s as int);
        let ghost base = sheet@;
        let ghost each = self.task_at(gl, gi, gs);
        let mut earlier: Vec<usize> = Vec::new();
        assert(base + flat(0, each) =~= base);
        for q in 0..order.len()
            invariant
                gl == l,
                gi == i,
                gs == s,
                l < self.input.loaders@.len(),
                i < self.horizon(),
                order@ == self.order(gl),
                forall|q: int| 0 <= q < order@.len() ==> (#[trigger] order@[q]) < self.input.tasks@.len(),
                each == self.task_at(gl, gi, gs),
                earlier@ == self.eligible_to(gl, gi, q as nat),
                sheet@ == base + flat(q as nat, each),
        {
            let t: usize = order[q];
            if self.is_eligible(l, t, i) {
                self.write_task(sheet, l, t, i, s, &earlier);
                earlier.push(t);
            }
            assert(earlier@ =~= self.eligible_to(gl, gi, q as nat) + self.eligible_task(gl, gi)(q as int));
            assert(sheet@ =~= base + (flat(q as nat, each) + each(q as int)));
        }
        if earlier.len() > 0 {
            let ghost all = self.active_terms(gl, gi, gs, earlier@);
            let mut assignment: Vec<(Column, N)> = Vec::new();
            for r in 0..earlier.len()
                invariant
                    gl == l,
                    gi == i,
                    gs == s,
                    all == self.active_terms(gl, gi, gs, earlier@),
                    assignment@ =~= all.take(r as int),
            {
                assignment.push((Column::Active { loader: l, task: earlier[r], interval: i, segment: s }, N::whole(1)));
            }
            assert(assignment@ =~= all);
            sheet.leq(assignment, N::whole(1));
        }
        assert(sheet@ =~= base + self.task_segment(gl, gi)(gs));
    }

    fn write_tasks(&self, sheet: &mut Sheet<N>)
        requires
            self.ready_to_write(),
        ensures
            final(sheet)@ == old(sheet)@ + flat(self.input.loaders@.len(), self.loader_tasks()),
    {
        let ghost base = sheet@;
        let ghost all = self.loader_tasks();
        assert(base + flat(0, all) =~= base);
        for l in 0..self.input.loaders.len()
            invariant
                self.ready_to_write(),
                all == self.loader_tasks(),
                sheet@ == base + flat(l as nat, all),
        {
            let order = authored_tasks(self.input, l);
            let ghost middle = sheet@;
            let ghost each = self.task_interval(l as int);
            assert(middle + flat(0, each) =~= middle);
            for i in 0..self.input.intervals.len()
                invariant
                    self.ready_to_write(),
                    l < self.input.loaders@.len(),
                    order@ == self.order(l as int),
                    forall|q: int| 0 <= q < order@.len() ==> (#[trigger] order@[q]) < self.input.tasks@.len(),
                    each == self.task_interval(l as int),
                    sheet@ == middle + flat(i as nat, each),
            {
                let ghost inner = sheet@;
                let ghost line = self.task_segment(l as int, i as int);
                assert(inner + flat(0, line) =~= inner);
                for s in 0..self.segments
                    invariant
                        self.ready_to_write(),
                        l < self.input.loaders@.len(),
                        i < self.horizon(),
                        order@ == self.order(l as int),
                        forall|q: int| 0 <= q < order@.len() ==> (#[trigger] order@[q]) < self.input.tasks@.len(),
                        line == self.task_segment(l as int, i as int),
                        sheet@ == inner + flat(s as nat, line),
                {
                    self.write_task_segment(sheet, l, i, s, &order);
                    assert(sheet@ =~= inner + (flat(s as nat, line) + line(s as int)));
                }
                assert(sheet@ =~= middle + (flat(i as nat, each) + each(i as int)));
            }
            assert(sheet@ =~= base + (flat(l as nat, all) + all(l as int)));
        }
    }

    // Rates: what a loader moves in a segment, and only under its task.

    pub open spec fn rate_line(self, l: int, i: int, s: int, activity: Activity) -> Seq<Line<N>> {
        match rate_of(self.input.loaders@[l], i as usize) {
            Some(rates) => {
                let rate = rate_for(rates, activity);
                let sum = self.cell_terms(Selector::Work { loader: l as usize, activity }, i, s);
                if N::of_whole(0).below(rate) && sum.len() > 0 {
                    seq![at_most_row(seq![(self.duration(i, s), rate.opposite())] + sum, nil::<N>())]
                } else {
                    Seq::empty()
                }
            },
            None => Seq::empty(),
        }
    }

    pub open spec fn authorising(self, l: int, c: int, i: int, s: int, big: N) -> spec_fn(int) -> Seq<(Column, N)> {
        |q: int|
            {
                let t = self.order(l)[q];
                if authorises(self.input.tasks@[t as int], self.candidate(c)) && self.eligible(l, t as int, i) {
                    seq![(self.active(l, t, i, s), big.opposite())]
                } else {
                    Seq::empty()
                }
            }
    }

    pub open spec fn selected_line(self, l: int, i: int, s: int) -> spec_fn(int) -> Seq<Line<N>> {
        |c: int|
            {
                let rate = self.rate_or_zero(c, i);
                if self.candidate(c).loader == self.input.loaders@[l].id && self.moves(c, i) && N::of_whole(0).below(rate) {
                    let big = rate.times(self.length(i));
                    seq![
                        at_most_row(
                            seq![(self.movement(c, i, s), one::<N>())] + flat(
                                self.order(l).len(),
                                self.authorising(l, c, i, s, big),
                            ),
                            nil::<N>(),
                        ),
                    ]
                } else {
                    Seq::empty()
                }
            }
    }

    pub open spec fn rate_segment(self, l: int, i: int) -> spec_fn(int) -> Seq<Line<N>> {
        |s: int|
            self.rate_line(l, i, s, Activity::Dig) + self.rate_line(l, i, s, Activity::Reclaim) + flat(
                self.candidates(),
                self.selected_line(l, i, s),
            )
    }

    pub open spec fn rate_interval(self, l: int) -> spec_fn(int) -> Seq<Line<N>> {
        |i: int| flat(self.segments as nat, self.rate_segment(l, i))
    }

    pub open spec fn loader_rates(self) -> spec_fn(int) -> Seq<Line<N>> {
        |l: int| flat(self.horizon(), self.rate_interval(l))
    }

    fn write_rate(&self, sheet: &mut Sheet<N>, l: usize, i: usize, s: usize, activity: Activity)
        requires
            l < self.input.loaders@.len(),
        ensures
            final(sheet)@ == old(sheet)@ + self.rate_line(l as int, i as int, s as int, activity),
    {
        let ghost base = sheet@;
        if let Some(rates) = interval_rate(&self.input.loaders[l], i) {
            let rate = match activity {
                Activity::Dig => rates.dig_tph,
                Activity::Reclaim => rates.reclaim_tph,
            };
            if N::whole(0).is_below(rate) {
                let mut terms = term(Column::Duration { interval: i, segment: s }, rate.neg());
                self.add_cell(&mut terms, Selector::Work { loader: l, activity }, i, s);
                if terms.len() > 1 {
                    sheet.leq(terms, N::whole(0));
                }
            }
        }
        assert(sheet@ =~= base + self.rate_line(l as int, i as int, s as int, activity));
    }

    fn write_selected(&self, sheet: &mut Sheet<N>, l: usize, i: usize, s: usize, order: &Vec<usize>, c: usize)
        requires
            l < self.input.loaders@.len(),
            i < self.horizon(),
            c < self.candidates(),
            order@ == self.order(l as int),
            forall|q: int| 0 <= q < order@.len() ==> (#[trigger] order@[q]) < self.input.tasks@.len(),
        ensures
            final(sheet)@ == old(sheet)@ + self.selected_line(l as int, i as int, s as int)(c as int),
    {
        let ghost (gl, gi, gs, gc) = (l as int, i as int, s as int, c as int);
        let ghost base = sheet@;
        let candidate = &self.input.movements[c];
        let rate = self.find_rate(c, i);
        if candidate.loader == self.input.loaders[l].id && self.can_move(c, i) && N::whole(0).is_below(rate) {
            let big = rate.mul(self.input.intervals[i].duration_h());
            let mut terms = term(Column::Movement { candidate: c, interval: i, segment: s }, N::whole(1));
            let ghost first = terms@;
            let ghost each = self.authorising(gl, gc, gi, gs, big);
            assert(first + flat(0, each) =~= first);
            for q in 0..order.len()
                invariant
                    gl == l,
                    gi == i,
                    gs == s,
                    gc == c,
                    l < self.input.loaders@.len(),
                    i < self.horizon(),
                    candidate == self.candidate(gc),
                    order@ == self.order(gl),
                    forall|q: int| 0 <= q < order@.len() ==> (#[trigger] order@[q]) < self.input.tasks@.len(),
                    each == self.authorising(gl, gc, gi, gs, big),
                    terms@ == first + flat(q as nat, each),
            {
                let t: usize = order[q];
                if task_authorises(&self.input.tasks[t], candidate) && self.is_eligible(l, t, i) {
                    terms.push((Column::Active { loader: l, task: t, interval: i, segment: s }, big.neg()));
                }
                assert(terms@ =~= first + (flat(q as nat, each) + each(q as int)));
            }
            sheet.leq(terms, N::whole(0));
        }
        assert(sheet@ =~= base + self.selected_line(gl, gi, gs)(gc));
    }

    fn write_rate_segment(&self, sheet: &mut Sheet<N>, l: usize, i: usize, s: usize, order: &Vec<usize>)
        requires
            l < self.input.loaders@.len(),
            i < self.horizon(),
            order@ == self.order(l as int),
            forall|q: int| 0 <= q < order@.len() ==> (#[trigger] order@[q]) < self.input.tasks@.len(),
        ensures
            final(sheet)@ == old(sheet)@ + self.rate_segment(l as int, i as int)(s as int),
    {
        let ghost base = sheet@;
        self.write_rate(sheet, l, i, s, Activity::Dig);
        self.write_rate(sheet, l, i, s, Activity::Reclaim);
        let ghost middle = sheet@;
        let ghost each = self.selected_line(l as int, i as int, s as int);
        assert(middle + flat(0, each) =~= middle);
        for c in 0..self.input.movements.len()
            invariant
                l < self.input.loaders@.len(),
                i < self.horizon(),
                order@ == self.order(l as int),
                forall|q: int| 0 <= q < order@.len() ==> (#[trigger] order@[q]) < self.input.tasks@.len(),
                each == self.selected_line(l as int, i as int, s as int),
                sheet@ == middle + flat(c as nat, each),
        {
            self.write_selected(sheet, l, i, s, order, c);
            assert(sheet@ =~= middle + (flat(c as nat, each) + each(c as int)));
        }
        assert(sheet@ =~= base + self.rate_segment(l as int, i as int)(s as int));
    }

    fn write_rates(&self, sheet: &mut Sheet<N>)
        requires
            self.ready_to_write(),
        ensures
            final(sheet)@ == old(sheet)@ + flat(self.input.loaders@.len(), self.loader_rates()),
    {
        let ghost base = sheet@;
        let ghost all = self.loader_rates();
        assert(base + flat(0, all) =~= base);
        for l in 0..self.input.loaders.len()
            invariant
                self.ready_to_write(),
                all == self.loader_rates(),
                sheet@ == base + flat(l as nat, all),
        {
            let order = authored_tasks(self.input, l);
            let ghost middle = sheet@;
            let ghost each = self.rate_interval(l as int);
            assert(middle + flat(0, each) =~= middle);
            for i in 0..self.input.intervals.len()
                invariant
                    l < self.input.loaders@.len(),
                    order@ == self.order(l as int),
                    forall|q: int| 0 <= q < order@.len() ==> (#[trigger] order@[q]) < self.input.tasks@.len(),
                    each == self.rate_interval(l as int),
                    sheet@ == middle + flat(i as nat, each),
            {
                let ghost inner = sheet@;
                let ghost line = self.rate_segment(l as int, i as int);
                assert(inner + flat(0, line) =~= inner);
                for s in 0..self.segments
                    invariant
                        l < self.input.loaders@.len(),
                        i < self.horizon(),
                        order@ == self.order(l as int),
                        forall|q: int| 0 <= q < order@.len() ==> (#[trigger] order@[q]) < self.input.tasks@.len(),
                        line == self.rate_segment(l as int, i as int),
                        sheet@ == inner + flat(s as nat, line),
                {
                    self.write_rate_segment(sheet, l, i, s, &order);
                    assert(sheet@ =~= inner + (flat(s as nat, line) + line(s as int)));
                }
                assert(sheet@ =~= middle + (flat(i as nat, each) + each(i as int)));
            }
            assert(sheet@ =~= base + (flat(l as nat, all) + all(l as int)));
        }
    }

    // Ground: what is left of a block, what is dug of it and when it is used up.

    pub open spec fn remaining(self, g: int, i: int, s: int) -> Column {
        Column::GroundRemaining { source: g as usize, interval: i as usize, segment: s as usize }
    }

    pub open spec fn ground_line(self, g: int, i: int) -> spec_fn(int) -> Seq<Line<N>> {
        |s: int|
            {
                let source = self.input.ground@[g];
                let terms = seq![(self.remaining(g, i, s), one::<N>())] + self.cell_terms(
                    Selector::Dig { source: g as usize },
                    i,
                    s,
                );
                seq![
                    continuous(self.remaining(g, i, s), source.tonnes_t),
                    if i == 0 && s == 0 {
                        equal_row(terms, source.tonnes_t)
                    } else {
                        let prior = if s == 0 {
                            self.remaining(g, i - 1, self.segments - 1)
                        } else {
                            self.remaining(g, i, s - 1)
                        };
                        equal_row(terms.push((prior, less_one::<N>())), nil::<N>())
                    },
                ]
            }
    }

    pub open spec fn ground_interval(self, g: int) -> spec_fn(int) -> Seq<Line<N>> {
        |i: int| flat(self.segments as nat, self.ground_line(g, i))
    }

    pub open spec fn ground_lines(self) -> spec_fn(int) -> Seq<Line<N>> {
        |g: int| flat(self.horizon(), self.ground_interval(g))
    }

    fn write_ground_cell(&self, sheet: &mut Sheet<N>, g: usize, i: usize, s: usize)
        requires
            self.ready_to_write(),
            g < self.input.ground@.len(),
        ensures
            final(sheet)@ == old(sheet)@ + self.ground_line(g as int, i as int)(s as int),
    {
        let ghost base = sheet@;
        let tonnes = self.input.ground[g].tonnes_t;
        let column = Column::GroundRemaining { source: g, interval: i, segment: s };
        sheet.cont(column, tonnes);
        let mut terms = term(column, N::whole(1));
        self.add_cell(&mut terms, Selector::Dig { source: g }, i, s);
        if i == 0 && s == 0 {
            sheet.eq(terms, tonnes);
        } else {
            let prior = if s == 0 {
                Column::GroundRemaining { source: g, interval: i - 1, segment: self.segments - 1 }
            } else {
                Column::GroundRemaining { source: g, interval: i, segment: s - 1 }
            };
            terms.push((prior, N::whole(1).neg()));
            sheet.eq(terms, N::whole(0));
        }
        assert(sheet@ =~= base + self.ground_line(g as int, i as int)(s as int));
    }

    fn write_ground(&self, sheet: &mut Sheet<N>)
        requires
            self.ready_to_write(),
        ensures
            final(sheet)@ == old(sheet)@ + flat(self.input.ground@.len(), self.ground_lines()),
    {
        let ghost base = sheet@;
        let ghost all = self.ground_lines();
        assert(base + flat(0, all) =~= base);
        for g in 0..self.input.ground.len()
            invariant
                self.ready_to_write(),
                all == self.ground_lines(),
                sheet@ == base + flat(g as nat, all),
        {
            let ghost middle = sheet@;
            let ghost each = self.ground_interval(g as int);
            assert(middle + flat(0, each) =~= middle);
            for i in 0..self.input.intervals.len()
                invariant
                    self.ready_to_write(),
                    g < self.input.ground@.len(),
                    each == self.ground_interval(g as int),
                    sheet@ == middle + flat(i as nat, each),
            {
                let ghost inner = sheet@;
                let ghost line = self.ground_line(g as int, i as int);
                assert(inner + flat(0, line) =~= inner);
                for s in 0..self.segments
                    invariant
                        self.ready_to_write(),
                        g < self.input.ground@.len(),
                        line == self.ground_line(g as int, i as int),
                        sheet@ == inner + flat(s as nat, line),
                {
                    self.write_ground_cell(sheet, g, i, s);
                    assert(sheet@ =~= inner + (flat(s as nat, line) + line(s as int)));
                }
                assert(sheet@ =~= middle + (flat(i as nat, each) + each(i as int)));
            }
            assert(sheet@ =~= base + (flat(g as nat, all) + all(g as int)));
        }
    }

    pub open spec fn extract(self, g: int, i: int, s: int) -> Column {
        Column::Extract { source: g as usize, interval: i as usize, segment: s as usize }
    }

    pub open spec fn portion_line(self, g: int, i: int, s: int) -> spec_fn(int) -> Seq<Line<N>> {
        |k: int|
            {
                let share = self.input.ground@[g].material@[k];
                seq![
                    equal_row(
                        seq![(self.extract(g, i, s), share.fraction.opposite())] + self.cell_terms(
                            Selector::DigMaterial { source: g as usize, material: share.material },
                            i,
                            s,
                        ),
                        nil::<N>(),
                    ),
                ]
            }
    }

    pub open spec fn portion_segment(self, g: int, i: int) -> spec_fn(int) -> Seq<Line<N>> {
        |s: int|
            seq![continuous(self.extract(g, i, s), self.input.ground@[g].tonnes_t)] + flat(
                self.input.ground@[g].material@.len(),
                self.portion_line(g, i, s),
            )
    }

    pub open spec fn portion_interval(self, g: int) -> spec_fn(int) -> Seq<Line<N>> {
        |i: int| flat(self.segments as nat, self.portion_segment(g, i))
    }

    pub open spec fn portion_lines(self) -> spec_fn(int) -> Seq<Line<N>> {
        |g: int|
            if self.input.ground@[g].material@.len() < 2 {
                Seq::empty()
            } else {
                flat(self.horizon(), self.portion_interval(g))
            }
    }

    fn write_portion_cell(&self, sheet: &mut Sheet<N>, g: usize, i: usize, s: usize)
        requires
            g < self.input.ground@.len(),
        ensures
            final(sheet)@ == old(sheet)@ + self.portion_segment(g as int, i as int)(s as int),
    {
        let ghost base = sheet@;
        let source = &self.input.ground[g];
        let column = Column::Extract { source: g, interval: i, segment: s };
        sheet.cont(column, source.tonnes_t);
        let ghost inner = sheet@;
        let ghost line = self.portion_line(g as int, i as int, s as int);
        assert(inner + flat(0, line) =~= inner);
        for k in 0..source.material.len()
            invariant
                g < self.input.ground@.len(),
                source == self.input.ground@[g as int],
                column == self.extract(g as int, i as int, s as int),
                line == self.portion_line(g as int, i as int, s as int),
                sheet@ == inner + flat(k as nat, line),
        {
            let share = source.material[k];
            let mut terms = term(column, share.fraction.neg());
            self.add_cell(&mut terms, Selector::DigMaterial { source: g, material: share.material }, i, s);
            sheet.eq(terms, N::whole(0));
            assert(sheet@ =~= inner + (flat(k as nat, line) + line(k as int)));
        }
        assert(sheet@ =~= base + self.portion_segment(g as int, i as int)(s as int));
    }

    fn write_portions(&self, sheet: &mut Sheet<N>)
        ensures
            final(sheet)@ == old(sheet)@ + flat(self.input.ground@.len(), self.portion_lines()),
    {
        let ghost base = sheet@;
        let ghost all = self.portion_lines();
        assert(base + flat(0, all) =~= base);
        for g in 0..self.input.ground.len()
            invariant
                all == self.portion_lines(),
                sheet@ == base + flat(g as nat, all),
        {
            let ghost middle = sheet@;
            if self.input.ground[g].material.len() >= 2 {
                let ghost each = self.portion_interval(g as int);
                assert(middle + flat(0, each) =~= middle);
                for i in 0..self.input.intervals.len()
                    invariant
                        g < self.input.ground@.len(),
                        each == self.portion_interval(g as int),
                        sheet@ == middle + flat(i as nat, each),
                {
                    let ghost inner = sheet@;
                    let ghost line = self.portion_segment(g as int, i as int);
                    assert(inner + flat(0, line) =~= inner);
                    for s in 0..self.segments
                        invariant
                            g < self.input.ground@.len(),
                            line == self.portion_segment(g as int, i as int),
                            sheet@ == inner + flat(s as nat, line),
                    {
                        self.write_portion_cell(sheet, g, i, s);
                        assert(sheet@ =~= inner + (flat(s as nat, line) + line(s as int)));
                    }
                    assert(sheet@ =~= middle + (flat(i as nat, each) + each(i as int)));
                }
            }
            assert(sheet@ =~= base + (flat(g as nat, all) + all(g as int)));
        }
    }

    /// The number of segment `s` of interval `i` among all cells.
    pub open spec fn cell(self, i: int, s: int) -> int {
        i * self.segments + s
    }

    pub proof fn cell_fits(self, i: int, s: int)
        requires
            self.ready_to_write(),
            0 <= i < self.horizon(),
            0 <= s < self.segments,
        ensures
            0 <= self.cell(i, s) < self.horizon() * self.segments <= usize::MAX,
            self.cell(i, s) == 0 <==> i == 0 && s == 0,
    {
        let h = self.horizon();
        let n = self.segments as int;
        let m = self.input.segments_per_interval as int;
        assert(h * n <= (h + 1) * (m + 1)) by (nonlinear_arith)
            requires
                0 <= h,
                1 <= n <= m + 1,
        ;
        assert(i * n + s < h * n && 0 <= i * n && (i > 0 ==> i * n > 0)) by (nonlinear_arith)
            requires
                0 <= i < h,
                0 <= s < n,
        ;
    }

    pub fn find_cell(&self, i: usize, s: usize) -> (r: usize)
        requires
            self.ready_to_write(),
            i < self.horizon(),
            s < self.segments,
        ensures
            r == self.cell(i as int, s as int),
            r == 0 <==> i == 0 && s == 0,
    {
        proof {
            self.cell_fits(i as int, s as int);
        }
        flat_cell(i, s, self.segments)
    }

    pub open spec fn exhausted(self, g: int, position: int) -> Column {
        Column::Exhausted { source: g as usize, position: position as usize }
    }

    pub open spec fn exhausted_line(self, g: int, i: int) -> spec_fn(int) -> Seq<Line<N>> {
        |s: int|
            {
                let tonnes = self.input.ground@[g].tonnes_t;
                let flag = self.exhausted(g, self.cell(i, s));
                seq![
                    binary(flag),
                    at_most_row(seq![(self.remaining(g, i, s), one::<N>()), (flag, tonnes)], tonnes),
                ]
            }
    }

    pub open spec fn exhausted_interval(self, g: int) -> spec_fn(int) -> Seq<Line<N>> {
        |i: int| flat(self.segments as nat, self.exhausted_line(g, i))
    }

    pub open spec fn exhausted_lines(self) -> spec_fn(int) -> Seq<Line<N>> {
        |g: int| flat(self.horizon(), self.exhausted_interval(g))
    }

    fn write_exhausted(&self, sheet: &mut Sheet<N>)
        requires
            self.ready_to_write(),
        ensures
            final(sheet)@ == old(sheet)@ + flat(self.input.ground@.len(), self.exhausted_lines()),
    {
        let ghost base = sheet@;
        let ghost all = self.exhausted_lines();
        assert(base + flat(0, all) =~= base);
        for g in 0..self.input.ground.len()
            invariant
                self.ready_to_write(),
                all == self.exhausted_lines(),
                sheet@ == base + flat(g as nat, all),
        {
            let tonnes = self.input.ground[g].tonnes_t;
            let ghost middle = sheet@;
            let ghost each = self.exhausted_interval(g as int);
            assert(middle + flat(0, each) =~= middle);
            for i in 0..self.input.intervals.len()
                invariant
                    self.ready_to_write(),
                    g < self.input.ground@.len(),
                    tonnes == self.input.ground@[g as int].tonnes_t,
                    each == self.exhausted_interval(g as int),
                    sheet@ == middle + flat(i as nat, each),
            {
                let ghost inner = sheet@;
                let ghost line = self.exhausted_line(g as int, i as int);
                assert(inner + flat(0, line) =~= inner);
                for s in 0..self.segments
                    invariant
                        self.ready_to_write(),
                        g < self.input.ground@.len(),
                        i < self.horizon(),
                        tonnes == self.input.ground@[g as int].tonnes_t,
                        line == self.exhausted_line(g as int, i as int),
                        sheet@ == inner + flat(s as nat, line),
                {
                    let flag = Column::Exhausted { source: g, position: self.find_cell(i, s) };
                    sheet.binary(flag);
                    sheet.leq(
                        terms_of(
                            Column::GroundRemaining { source: g, interval: i, segment: s },
                            N::whole(1),
                            flag,
                            tonnes,
                        ),
                        tonnes,
                    );
                    assert(sheet@ =~= inner + (flat(s as nat, line) + line(s as int)));
                }
                assert(sheet@ =~= middle + (flat(i as nat, each) + each(i as int)));
            }
            assert(sheet@ =~= base + (flat(g as nat, all) + all(g as int)));
        }
    }

    // The order that a task digs its blocks in.

    pub open spec fn follows(self, t: int, later: GroundId, c: int) -> bool {
        self.candidate(c).activity is Dig && self.candidate(c).source == SourceId::Ground(later) && self.candidate(
            c,
        ).loader == self.input.tasks@[t].loader
    }

    pub open spec fn follow_line(self, t: int, earlier: int, later: GroundId, i: int, s: int) -> spec_fn(int) -> Seq<Line<N>> {
        |c: int|
            if self.follows(t, later, c) && self.moves(c, i) {
                let moved = (self.movement(c, i, s), one::<N>());
                if i == 0 && s == 0 {
                    seq![at_most_row(seq![moved], nil::<N>())]
                } else {
                    let big = self.rate_or_zero(c, i).times(self.length(i));
                    seq![
                        at_most_row(
                            seq![moved, (self.exhausted(earlier, self.cell(i, s) - 1), big.opposite())],
                            nil::<N>(),
                        ),
                    ]
                }
            } else {
                Seq::empty()
            }
    }

    pub open spec fn follow_segment(self, t: int, earlier: int, later: GroundId, i: int) -> spec_fn(int) -> Seq<Line<N>> {
        |s: int| flat(self.candidates(), self.follow_line(t, earlier, later, i, s))
    }

    pub open spec fn follow_interval(self, t: int, earlier: int, later: GroundId) -> spec_fn(int) -> Seq<Line<N>> {
        |i: int| flat(self.segments as nat, self.follow_segment(t, earlier, later, i))
    }

    pub open spec fn follow_pair(self, t: int, sequence: Seq<GroundId>) -> spec_fn(int) -> Seq<Line<N>> {
        |w: int|
            match keyed(self.input.ground@, sequence[w].0) {
                Some(earlier) => flat(self.horizon(), self.follow_interval(t, earlier, sequence[w + 1])),
                None => Seq::empty(),
            }
    }

    pub open spec fn pairs(self, sequence: Seq<GroundId>) -> nat {
        if sequence.len() < 2 {
            0
        } else {
            (sequence.len() - 1) as nat
        }
    }

    pub open spec fn follow_lines(self) -> spec_fn(int) -> Seq<Line<N>> {
        |t: int|
            match self.input.tasks@[t].kind {
                TaskKind::Dig { sequence } => flat(self.pairs(sequence@), self.follow_pair(t, sequence@)),
                TaskKind::Reclaim { .. } => Seq::empty(),
            }
    }

    fn write_follow_cell(&self, sheet: &mut Sheet<N>, t: usize, earlier: usize, later: GroundId, i: usize, s: usize)
        requires
            self.ready_to_write(),
            t < self.input.tasks@.len(),
            i < self.horizon(),
            s < self.segments,
        ensures
            final(sheet)@ == old(sheet)@ + self.follow_segment(t as int, earlier as int, later, i as int)(s as int),
    {
        let position: usize = self.find_cell(i, s);
        let ghost inner = sheet@;
        let ghost line = self.follow_line(t as int, earlier as int, later, i as int, s as int);
        assert(inner + flat(0, line) =~= inner);
        for c in 0..self.input.movements.len()
            invariant
                self.ready_to_write(),
                t < self.input.tasks@.len(),
                i < self.horizon(),
                position == self.cell(i as int, s as int),
                position == 0 <==> i == 0 && s == 0,
                line == self.follow_line(t as int, earlier as int, later, i as int, s as int),
                sheet@ == inner + flat(c as nat, line),
        {
            let candidate = &self.input.movements[c];
            if candidate.activity == Activity::Dig && candidate.source == SourceId::Ground(later) && candidate.loader
                == self.input.tasks[t].loader && self.can_move(c, i) {
                let column = Column::Movement { candidate: c, interval: i, segment: s };
                if position == 0 {
                    sheet.leq(term(column, N::whole(1)), N::whole(0));
                } else {
                    let big = self.find_rate(c, i).mul(self.input.intervals[i].duration_h());
                    let flag = Column::Exhausted { source: earlier, position: position - 1 };
                    sheet.leq(terms_of(column, N::whole(1), flag, big.neg()), N::whole(0));
                }
            }
            assert(sheet@ =~= inner + (flat(c as nat, line) + line(c as int)));
        }
    }

    fn write_follow_pair(&self, sheet: &mut Sheet<N>, t: usize, earlier: usize, later: GroundId)
        requires
            self.ready_to_write(),
            t < self.input.tasks@.len(),
        ensures
            final(sheet)@ == old(sheet)@ + flat(self.horizon(), self.follow_interval(t as int, earlier as int, later)),
    {
        let ghost middle = sheet@;
        let ghost each = self.follow_interval(t as int, earlier as int, later);
        assert(middle + flat(0, each) =~= middle);
        for i in 0..self.input.intervals.len()
            invariant
                self.ready_to_write(),
                t < self.input.tasks@.len(),
                each == self.follow_interval(t as int, earlier as int, later),
                sheet@ == middle + flat(i as nat, each),
        {
            let ghost inner = sheet@;
            let ghost line = self.follow_segment(t as int, earlier as int, later, i as int);
            assert(inner + flat(0, line) =~= inner);
            for s in 0..self.segments
                invariant
                    self.ready_to_write(),
                    t < self.input.tasks@.len(),
                    i < self.horizon(),
                    line == self.follow_segment(t as int, earlier as int, later, i as int),
                    sheet@ == inner + flat(s as nat, line),
            {
                self.write_follow_cell(sheet, t, earlier, later, i, s);
                assert(sheet@ =~= inner + (flat(s as nat, line) + line(s as int)));
            }
            assert(sheet@ =~= middle + (flat(i as nat, each) + each(i as int)));
        }
    }

    fn write_follows(&self, sheet: &mut Sheet<N>)
        requires
            self.ready_to_write(),
        ensures
            final(sheet)@ == old(sheet)@ + flat(self.input.tasks@.len(), self.follow_lines()),
    {
        let ghost base = sheet@;
        let ghost all = self.follow_lines();
        assert(base + flat(0, all) =~= base);
        for t in 0..self.input.tasks.len()
            invariant
                self.ready_to_write(),
                all == self.follow_lines(),
                sheet@ == base + flat(t as nat, all),
        {
            let ghost middle = sheet@;
            if let TaskKind::Dig { sequence } = &self.input.tasks[t].kind {
                let pairs: usize = if sequence.len() < 2 {
                    0
                } else {
                    sequence.len() - 1
                };
                let ghost each = self.follow_pair(t as int, sequence@);
                assert(middle + flat(0, each) =~= middle);
                for w in 0..pairs
                    invariant
                        self.ready_to_write(),
                        t < self.input.tasks@.len(),
                        pairs == self.pairs(sequence@),
                        each == self.follow_pair(t as int, sequence@),
                        sheet@ == middle + flat(w as nat, each),
                {
                    if let Some(earlier) = find_key(&self.input.ground, sequence[w].0) {
                        self.write_follow_pair(sheet, t, earlier, sequence[w + 1]);
                    }
                    assert(sheet@ =~= middle + (flat(w as nat, each) + each(w as int)));
                }
            }
            assert(sheet@ =~= base + (flat(t as nat, all) + all(t as int)));
        }
    }

    /// The lines of time, movements, tasks, rates and ground.
    pub open spec fn cell_lines(self) -> Seq<Line<N>> {
        flat(self.horizon(), self.clock_lines()) + flat(self.candidates(), self.movement_lines()) + flat(
            self.input.loaders@.len(),
            self.loader_tasks(),
        ) + flat(self.input.loaders@.len(), self.loader_rates()) + flat(self.input.ground@.len(), self.ground_lines())
            + flat(self.input.ground@.len(), self.portion_lines()) + flat(
            self.input.ground@.len(),
            self.exhausted_lines(),
        ) + flat(self.input.tasks@.len(), self.follow_lines())
    }

    /// Writes the lines of time, movements, tasks, rates and ground.
    pub fn write_cells(&self, sheet: &mut Sheet<N>)
        requires
            self.ready_to_write(),
        ensures
            final(sheet)@ == old(sheet)@ + self.cell_lines(),
    {
        let ghost base = sheet@;
        self.write_clock(sheet);
        self.write_movements(sheet);
        self.write_tasks(sheet);
        self.write_rates(sheet);
        self.write_ground(sheet);
        self.write_portions(sheet);
        self.write_exhausted(sheet);
        self.write_follows(sheet);
        assert(sheet@ =~= base + self.cell_lines());
    }
}

} // verus!
