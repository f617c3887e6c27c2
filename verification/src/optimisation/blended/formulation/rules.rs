//! The rows of readiness, trucks, destinations, reclaim limits and one source
//! at a time.
use vstd::prelude::*;

use crate::listing::{find_key, flat, keyed};
use crate::optimisation::blended::formulation::base::{Formulation, Selector};
use crate::optimisation::blended::formulation::model::{Column, Line, Sheet};
use crate::optimisation::blended::input::{authored_tasks, interval_rate, rate_of};
use crate::optimisation::ids::{Activity, DestinationKind, GroundId, SourceId, StockpileId};
use crate::optimisation::input::{holds_pile, TaskKind};
use crate::optimisation::sheet::{
    at_least_row, at_most_row, binary, equal_row, less_one, nil, one, term, terms_of, terms_of_three,
};
use crate::scalar::Scalar;

verus! {

impl<'a, N: Scalar> Formulation<'a, N> {
    // Whether a pile holds anything.

    pub open spec fn stock(self, pile: StockpileId, k: int) -> Column {
        Column::Stock { pile, interval: k as usize }
    }

    /// What a pile holds at the start of an interval.
    pub open spec fn opening_terms(self, p: int, k: int) -> Seq<(Column, N)> {
        if self.chunk_count(p) == 0 {
            seq![(self.open_t(p, k), one::<N>())]
        } else {
            self.chunk_opening_terms(p, k)
        }
    }

    pub open spec fn stock_interval(self, p: int) -> spec_fn(int) -> Seq<Line<N>> {
        |k: int|
            {
                let flag = self.stock(self.pile(p).id, k);
                seq![
                    binary(flag),
                    at_most_row(self.opening_terms(p, k).push((flag, self.pile(p).capacity_t.opposite())), nil::<N>()),
                ]
            }
    }

    pub open spec fn stock_lines(self) -> spec_fn(int) -> Seq<Line<N>> {
        |p: int| flat(self.horizon(), self.stock_interval(p))
    }

    fn write_stock(&self, sheet: &mut Sheet<N>)
        ensures
            final(sheet)@ == old(sheet)@ + flat(self.input.piles@.len(), self.stock_lines()),
    {
        let ghost base = sheet@;
        let ghost all = self.stock_lines();
        assert(base + flat(0, all) =~= base);
        for p in 0..self.input.piles.len()
            invariant
                all == self.stock_lines(),
                sheet@ == base + flat(p as nat, all),
        {
            let pile = &self.input.piles[p];
            let ghost inner = sheet@;
            let ghost line = self.stock_interval(p as int);
            assert(inner + flat(0, line) =~= inner);
            for k in 0..self.input.intervals.len()
                invariant
                    p < self.input.piles@.len(),
                    pile == self.pile(p as int),
                    line == self.stock_interval(p as int),
                    sheet@ == inner + flat(k as nat, line),
            {
                let flag = Column::Stock { pile: pile.id, interval: k };
                sheet.binary(flag);
                let mut terms = if pile.chunks.len() == 0 {
                    term(Column::OpenT { pile: pile.id, interval: k }, N::whole(1))
                } else {
                    self.find_chunk_opening_terms(p, k)
                };
                terms.push((flag, pile.capacity_t.neg()));
                sheet.leq(terms, N::whole(0));
                assert(sheet@ =~= inner + (flat(k as nat, line) + line(k as int)));
            }
            assert(sheet@ =~= base + (flat(p as nat, all) + all(p as int)));
        }
    }

    // Whether a task has work.

    pub open spec fn dig_flag(self, sequence: Seq<GroundId>, position: int) -> spec_fn(int) -> Seq<Column> {
        |x: int|
            match keyed(self.input.ground@, sequence[x].0) {
                Some(g) => seq![self.exhausted(g, position)],
                None => Seq::empty(),
            }
    }

    pub open spec fn pile_flag(self, sources: Seq<StockpileId>, k: int) -> spec_fn(int) -> Seq<Column> {
        |x: int|
            match keyed(self.input.piles@, sources[x].0) {
                Some(_) => seq![self.stock(sources[x], k)],
                None => Seq::empty(),
            }
    }

    pub open spec fn flag_terms(self, flags: Seq<Column>, weight: N) -> Seq<(Column, N)> {
        Seq::new(flags.len(), |r: int| (flags[r], weight))
    }

    pub open spec fn flag_line(self, ready: Column, flags: Seq<Column>, weight: N, bound: N) -> spec_fn(int) -> Seq<Line<N>> {
        |r: int| seq![at_least_row(seq![(ready, one::<N>()), (flags[r], weight)], bound)]
    }

    /// A block of the input holds something at the start.
    pub open spec fn block_holds(self, ground: GroundId) -> bool {
        match keyed(self.input.ground@, ground.0) {
            Some(g) => nil::<N>().below(self.input.ground@[g].tonnes_t),
            None => false,
        }
    }

    /// Some block of a sequence holds something at the start.
    pub open spec fn any_holds(self, sequence: Seq<GroundId>) -> bool {
        exists|x: int| 0 <= x < sequence.len() && self.block_holds(#[trigger] sequence[x])
    }

    /// A dig task has work while some block of it is not used up.
    pub open spec fn dig_ready(self, ready: Column, sequence: Seq<GroundId>, position: int) -> Seq<Line<N>> {
        let flags = flat(sequence.len(), self.dig_flag(sequence, position - 1));
        if position == 0 {
            seq![
                equal_row(
                    seq![(ready, one::<N>())],
                    if self.any_holds(sequence) {
                        one::<N>()
                    } else {
                        nil::<N>()
                    },
                ),
            ]
        } else if flags.len() == 0 {
            seq![equal_row(seq![(ready, one::<N>())], nil::<N>())]
        } else {
            flat(flags.len(), self.flag_line(ready, flags, one::<N>(), one::<N>())) + seq![
                at_most_row(
                    seq![(ready, one::<N>())] + self.flag_terms(flags, one::<N>()),
                    N::of_whole(flags.len() as u64),
                ),
            ]
        }
    }

    pub open spec fn spent_interval(self, t: int, c: int, i: int, s: int) -> spec_fn(int) -> Seq<(Column, N)> {
        |e: int|
            self.run_of(
                Selector::Spent { task: t as usize },
                c,
                e,
                if e < i {
                    self.segments as nat
                } else {
                    s as nat
                },
            )
    }

    pub open spec fn spent_candidate(self, t: int, i: int, s: int) -> spec_fn(int) -> Seq<(Column, N)> {
        |c: int| flat((i + 1) as nat, self.spent_interval(t, c, i, s))
    }

    /// What a task has reclaimed before a cell, taken away.
    pub open spec fn spent_terms(self, t: int, i: int, s: int) -> Seq<(Column, N)> {
        flat(self.candidates(), self.spent_candidate(t, i, s))
    }

    pub open spec fn spent_column(self, l: int, t: int, i: int, s: int) -> Column {
        Column::CapGone { loader: l as usize, task: t as usize, position: self.cell(i, s) as usize }
    }

    /// A reclaim task is spent only once it has reclaimed all it may, and then
    /// it has no work.
    pub open spec fn cap_lines(self, l: int, t: int, i: int, s: int, ready: Column, maximum: N) -> Seq<Line<N>> {
        let spent = self.spent_column(l, t, i, s);
        seq![
            at_most_row(self.spent_terms(t, i, s).push((spent, maximum)), nil::<N>()),
            at_most_row(seq![(ready, one::<N>()), (spent, one::<N>())], one::<N>()),
        ]
    }

    /// A task is ready while a pile of it holds anything, unless it is spent.
    pub open spec fn stock_line(self, ready: Column, spent: Column, flags: Seq<Column>) -> spec_fn(int) -> Seq<Line<N>> {
        |r: int|
            seq![
                at_least_row(seq![(ready, one::<N>()), (flags[r], less_one::<N>()), (spent, one::<N>())], nil::<N>()),
            ]
    }

    /// A reclaim task has work while some pile of it holds anything and it may
    /// reclaim more.
    pub open spec fn reclaim_ready(
        self,
        l: int,
        t: int,
        i: int,
        s: int,
        ready: Column,
        sources: Seq<StockpileId>,
        maximum: Option<N>,
    ) -> Seq<Line<N>> {
        let flags = flat(sources.len(), self.pile_flag(sources, i));
        let most = at_most_row(seq![(ready, one::<N>())] + self.flag_terms(flags, less_one::<N>()), nil::<N>());
        if flags.len() == 0 {
            seq![equal_row(seq![(ready, one::<N>())], nil::<N>())]
        } else {
            match maximum {
                Some(maximum) => seq![binary(self.spent_column(l, t, i, s))] + flat(
                    flags.len(),
                    self.stock_line(ready, self.spent_column(l, t, i, s), flags),
                ) + seq![most] + self.cap_lines(l, t, i, s, ready, maximum),
                None => flat(flags.len(), self.flag_line(ready, flags, less_one::<N>(), nil::<N>())) + seq![most],
            }
        }
    }

    pub open spec fn ready_cell(self, l: int, q: int, i: int) -> spec_fn(int) -> Seq<Line<N>> {
        |s: int|
            {
                let t = self.order(l)[q] as int;
                if self.eligible(l, t, i) {
                    let ready = self.ready(l, t as usize, i, s);
                    match self.input.tasks@[t].kind {
                        TaskKind::Dig { sequence } => self.dig_ready(ready, sequence@, self.cell(i, s)),
                        TaskKind::Reclaim { approved_sources, maximum_t } => self.reclaim_ready(
                            l,
                            t,
                            i,
                            s,
                            ready,
                            approved_sources@,
                            maximum_t,
                        ),
                    }
                } else {
                    Seq::empty()
                }
            }
    }

    pub open spec fn ready_interval(self, l: int, q: int) -> spec_fn(int) -> Seq<Line<N>> {
        |i: int| flat(self.segments as nat, self.ready_cell(l, q, i))
    }

    pub open spec fn ready_task(self, l: int) -> spec_fn(int) -> Seq<Line<N>> {
        |q: int| flat(self.horizon(), self.ready_interval(l, q))
    }

    pub open spec fn ready_lines(self) -> spec_fn(int) -> Seq<Line<N>> {
        |l: int| flat(self.order(l).len(), self.ready_task(l))
    }

    fn write_flags(&self, sheet: &mut Sheet<N>, ready: Column, flags: &Vec<Column>, weight: N, bound: N)
        ensures
            final(sheet)@ == old(sheet)@ + flat(flags@.len(), self.flag_line(ready, flags@, weight, bound)),
    {
        let ghost base = sheet@;
        let ghost line = self.flag_line(ready, flags@, weight, bound);
        assert(base + flat(0, line) =~= base);
        for r in 0..flags.len()
            invariant
                line == self.flag_line(ready, flags@, weight, bound),
                sheet@ == base + flat(r as nat, line),
        {
            sheet.geq(terms_of(ready, N::whole(1), flags[r], weight), bound);
            assert(sheet@ =~= base + (flat(r as nat, line) + line(r as int)));
        }
    }

    /// Adds a term of each column.
    pub fn add_flags(&self, terms: &mut Vec<(Column, N)>, flags: &Vec<Column>, weight: N)
        ensures
            final(terms)@ == old(terms)@ + self.flag_terms(flags@, weight),
    {
        let ghost base = terms@;
        let ghost all = self.flag_terms(flags@, weight);
        for r in 0..flags.len()
            invariant
                all == self.flag_terms(flags@, weight),
                terms@ =~= base + all.take(r as int),
        {
            terms.push((flags[r], weight));
        }
        assert(all.take(flags@.len() as int) =~= all);
    }

    fn does_any_hold(&self, sequence: &Vec<GroundId>) -> (r: bool)
        ensures
            r == self.any_holds(sequence@),
    {
        for x in 0..sequence.len()
            invariant
                forall|y: int| 0 <= y < x ==> !self.block_holds(#[trigger] sequence@[y]),
        {
            if let Some(g) = find_key(&self.input.ground, sequence[x].0) {
                if N::whole(0).is_below(self.input.ground[g].tonnes_t) {
                    assert(self.block_holds(sequence@[x as int]));
                    return true;
                }
            }
        }
        false
    }

    fn write_dig_ready(&self, sheet: &mut Sheet<N>, ready: Column, sequence: &Vec<GroundId>, position: usize)
        ensures
            final(sheet)@ == old(sheet)@ + self.dig_ready(ready, sequence@, position as int),
    {
        let ghost base = sheet@;
        if position == 0 {
            let held = if self.does_any_hold(sequence) {
                N::whole(1)
            } else {
                N::whole(0)
            };
            sheet.eq(term(ready, N::whole(1)), held);
        } else {
            let mut flags: Vec<Column> = Vec::new();
            let ghost f = self.dig_flag(sequence@, position - 1);
            for x in 0..sequence.len()
                invariant
                    position > 0,
                    f == self.dig_flag(sequence@, position - 1),
                    flags@ == flat(x as nat, f),
            {
                if let Some(g) = find_key(&self.input.ground, sequence[x].0) {
                    flags.push(Column::Exhausted { source: g, position: position - 1 });
                }
                assert(flags@ =~= flat(x as nat, f) + f(x as int));
            }
            if flags.len() == 0 {
                sheet.eq(term(ready, N::whole(1)), N::whole(0));
            } else {
                self.write_flags(sheet, ready, &flags, N::whole(1), N::whole(1));
                let mut terms = term(ready, N::whole(1));
                self.add_flags(&mut terms, &flags, N::whole(1));
                sheet.leq(terms, N::whole(flags.len() as u64));
            }
        }
        assert(sheet@ =~= base + self.dig_ready(ready, sequence@, position as int));
    }

    fn add_spent(&self, terms: &mut Vec<(Column, N)>, t: usize, i: usize, s: usize)
        requires
            t < self.input.tasks@.len(),
            i < self.horizon(),
        ensures
            final(terms)@ == old(terms)@ + self.spent_terms(t as int, i as int, s as int),
    {
        let horizon: usize = self.input.intervals.len();
        let ghost base = terms@;
        let ghost each = self.spent_candidate(t as int, i as int, s as int);
        assert(base + flat(0, each) =~= base);
        for c in 0..self.input.movements.len()
            invariant
                t < self.input.tasks@.len(),
                i < horizon,
                each == self.spent_candidate(t as int, i as int, s as int),
                terms@ == base + flat(c as nat, each),
        {
            let ghost inner = terms@;
            let ghost f = self.spent_interval(t as int, c as int, i as int, s as int);
            assert(inner + flat(0, f) =~= inner);
            let end: usize = i + 1;
            for e in 0..end
                invariant
                    t < self.input.tasks@.len(),
                    c < self.candidates(),
                    end == i + 1,
                    f == self.spent_interval(t as int, c as int, i as int, s as int),
                    terms@ == inner + flat(e as nat, f),
            {
                let n: usize = if e < i {
                    self.segments
                } else {
                    s
                };
                self.add_run_of(terms, Selector::Spent { task: t }, c, e, n);
                assert(terms@ =~= inner + (flat(e as nat, f) + f(e as int)));
            }
            assert(terms@ =~= base + (flat(c as nat, each) + each(c as int)));
        }
    }

    fn write_held(&self, sheet: &mut Sheet<N>, ready: Column, spent: Column, flags: &Vec<Column>)
        ensures
            final(sheet)@ == old(sheet)@ + flat(flags@.len(), self.stock_line(ready, spent, flags@)),
    {
        let ghost base = sheet@;
        let ghost line = self.stock_line(ready, spent, flags@);
        assert(base + flat(0, line) =~= base);
        for r in 0..flags.len()
            invariant
                line == self.stock_line(ready, spent, flags@),
                sheet@ == base + flat(r as nat, line),
        {
            sheet.geq(
                terms_of_three(ready, N::whole(1), flags[r], N::whole(1).neg(), spent, N::whole(1)),
                N::whole(0),
            );
            assert(sheet@ =~= base + (flat(r as nat, line) + line(r as int)));
        }
    }

    fn write_cap(&self, sheet: &mut Sheet<N>, l: usize, t: usize, i: usize, s: usize, maximum: N)
        requires
            self.ready_to_write(),
            t < self.input.tasks@.len(),
            i < self.horizon(),
            s < self.segments,
        ensures
            final(sheet)@ == old(sheet)@ + self.cap_lines(
                l as int,
                t as int,
                i as int,
                s as int,
                self.ready(l as int, t, i as int, s as int),
                maximum,
            ),
    {
        let ghost base = sheet@;
        let ready = Column::Ready { loader: l, task: t, interval: i, segment: s };
        let spent = Column::CapGone { loader: l, task: t, position: self.find_cell(i, s) };
        let mut used: Vec<(Column, N)> = Vec::new();
        self.add_spent(&mut used, t, i, s);
        assert(used@ =~= self.spent_terms(t as int, i as int, s as int));
        used.push((spent, maximum));
        sheet.leq(used, N::whole(0));
        sheet.leq(terms_of(ready, N::whole(1), spent, N::whole(1)), N::whole(1));
        assert(sheet@ =~= base + self.cap_lines(
            l as int,
            t as int,
            i as int,
            s as int,
            self.ready(l as int, t, i as int, s as int),
            maximum,
        ));
    }

    fn write_reclaim_ready(
        &self,
        sheet: &mut Sheet<N>,
        l: usize,
        t: usize,
        i: usize,
        s: usize,
        sources: &Vec<StockpileId>,
        maximum: Option<N>,
    )
        requires
            self.ready_to_write(),
            t < self.input.tasks@.len(),
            i < self.horizon(),
            s < self.segments,
        ensures
            final(sheet)@ == old(sheet)@ + self.reclaim_ready(
                l as int,
                t as int,
                i as int,
                s as int,
                self.ready(l as int, t, i as int, s as int),
                sources@,
                maximum,
            ),
    {
        let ghost base = sheet@;
        let ready = Column::Ready { loader: l, task: t, interval: i, segment: s };
        let mut flags: Vec<Column> = Vec::new();
        let ghost f = self.pile_flag(sources@, i as int);
        for x in 0..sources.len()
            invariant
                f == self.pile_flag(sources@, i as int),
                flags@ == flat(x as nat, f),
        {
            if find_key(&self.input.piles, sources[x].0).is_some() {
                flags.push(Column::Stock { pile: sources[x], interval: i });
            }
            assert(flags@ =~= flat(x as nat, f) + f(x as int));
        }
        if flags.len() == 0 {
            sheet.eq(term(ready, N::whole(1)), N::whole(0));
        } else {
            let spent = Column::CapGone { loader: l, task: t, position: self.find_cell(i, s) };
            match maximum {
                Some(_) => {
                    sheet.binary(spent);
                    self.write_held(sheet, ready, spent, &flags);
                },
                None => {
                    self.write_flags(sheet, ready, &flags, N::whole(1).neg(), N::whole(0));
                },
            }
            let mut terms = term(ready, N::whole(1));
            self.add_flags(&mut terms, &flags, N::whole(1).neg());
            sheet.leq(terms, N::whole(0));
            if let Some(most) = maximum {
                self.write_cap(sheet, l, t, i, s, most);
            }
        }
        assert(sheet@ =~= base + self.reclaim_ready(
            l as int,
            t as int,
            i as int,
            s as int,
            self.ready(l as int, t, i as int, s as int),
            sources@,
            maximum,
        ));
    }

    fn write_ready_cell(&self, sheet: &mut Sheet<N>, l: usize, q: usize, i: usize, s: usize, order: &Vec<usize>)
        requires
            self.ready_to_write(),
            l < self.input.loaders@.len(),
            i < self.horizon(),
            s < self.segments,
            order@ == self.order(l as int),
            q < order@.len(),
            order@[q as int] < self.input.tasks@.len(),
        ensures
            final(sheet)@ == old(sheet)@ + self.ready_cell(l as int, q as int, i as int)(s as int),
    {
        let ghost base = sheet@;
        let t: usize = order[q];
        if self.is_eligible(l, t, i) {
            match &self.input.tasks[t].kind {
                TaskKind::Dig { sequence } => {
                    let ready = Column::Ready { loader: l, task: t, interval: i, segment: s };
                    self.write_dig_ready(sheet, ready, sequence, self.find_cell(i, s));
                },
                TaskKind::Reclaim { approved_sources, maximum_t } => {
                    self.write_reclaim_ready(sheet, l, t, i, s, approved_sources, *maximum_t);
                },
            }
        }
        assert(sheet@ =~= base + self.ready_cell(l as int, q as int, i as int)(s as int));
    }

    fn write_ready_task(&self, sheet: &mut Sheet<N>, l: usize, q: usize, order: &Vec<usize>)
        requires
            self.ready_to_write(),
            l < self.input.loaders@.len(),
            order@ == self.order(l as int),
            q < order@.len(),
            order@[q as int] < self.input.tasks@.len(),
        ensures
            final(sheet)@ == old(sheet)@ + self.ready_task(l as int)(q as int),
    {
        let ghost base = sheet@;
        let ghost each = self.ready_interval(l as int, q as int);
        assert(base + flat(0, each) =~= base);
        for i in 0..self.input.intervals.len()
            invariant
                self.ready_to_write(),
                l < self.input.loaders@.len(),
                order@ == self.order(l as int),
                q < order@.len(),
                order@[q as int] < self.input.tasks@.len(),
                each == self.ready_interval(l as int, q as int),
                sheet@ == base + flat(i as nat, each),
        {
            let ghost inner = sheet@;
            let ghost line = self.ready_cell(l as int, q as int, i as int);
            assert(inner + flat(0, line) =~= inner);
            for s in 0..self.segments
                invariant
                    self.ready_to_write(),
                    l < self.input.loaders@.len(),
                    i < self.horizon(),
                    order@ == self.order(l as int),
                    q < order@.len(),
                    order@[q as int] < self.input.tasks@.len(),
                    line == self.ready_cell(l as int, q as int, i as int),
                    sheet@ == inner + flat(s as nat, line),
            {
                self.write_ready_cell(sheet, l, q, i, s, order);
                assert(sheet@ =~= inner + (flat(s as nat, line) + line(s as int)));
            }
            assert(sheet@ =~= base + (flat(i as nat, each) + each(i as int)));
        }
    }

    fn write_ready(&self, sheet: &mut Sheet<N>)
        requires
            self.ready_to_write(),
        ensures
            final(sheet)@ == old(sheet)@ + flat(self.input.loaders@.len(), self.ready_lines()),
    {
        let ghost base = sheet@;
        let ghost all = self.ready_lines();
        assert(base + flat(0, all) =~= base);
        for l in 0..self.input.loaders.len()
            invariant
                self.ready_to_write(),
                all == self.ready_lines(),
                sheet@ == base + flat(l as nat, all),
        {
            let order = authored_tasks(self.input, l);
            let ghost inner = sheet@;
            let ghost line = self.ready_task(l as int);
            assert(inner + flat(0, line) =~= inner);
            for q in 0..order.len()
                invariant
                    self.ready_to_write(),
                    l < self.input.loaders@.len(),
                    order@ == self.order(l as int),
                    forall|x: int| 0 <= x < order@.len() ==> (#[trigger] order@[x]) < self.input.tasks@.len(),
                    line == self.ready_task(l as int),
                    sheet@ == inner + flat(q as nat, line),
            {
                self.write_ready_task(sheet, l, q, &order);
                assert(sheet@ =~= inner + (flat(q as nat, line) + line(q as int)));
            }
            assert(sheet@ =~= base + (flat(l as nat, all) + all(l as int)));
        }
    }

    // Trucks.

    pub open spec fn truck_line(self, t: int, i: int) -> spec_fn(int) -> Seq<Line<N>> {
        |s: int|
            {
                let fleet = self.input.trucks@[t].hours@[i].over(self.length(i));
                let sum = self.cell_terms(Selector::Truck { truck: t as usize }, i, s);
                if sum.len() > 0 {
                    seq![at_most_row(seq![(self.duration(i, s), fleet.opposite())] + sum, nil::<N>())]
                } else {
                    Seq::empty()
                }
            }
    }

    pub open spec fn truck_interval(self, t: int) -> spec_fn(int) -> Seq<Line<N>> {
        |i: int|
            if i >= self.input.trucks@[t].hours@.len() || self.length(i).at_most(N::of_whole(0)) {
                Seq::empty()
            } else {
                flat(self.segments as nat, self.truck_line(t, i))
            }
    }

    pub open spec fn truck_lines(self) -> spec_fn(int) -> Seq<Line<N>> {
        |t: int| flat(self.horizon(), self.truck_interval(t))
    }

    fn write_truck_interval(&self, sheet: &mut Sheet<N>, t: usize, i: usize)
        requires
            t < self.input.trucks@.len(),
            i < self.horizon(),
        ensures
            final(sheet)@ == old(sheet)@ + self.truck_interval(t as int)(i as int),
    {
        let ghost base = sheet@;
        let truck = &self.input.trucks[t];
        let length = self.input.intervals[i].duration_h();
        if !(i >= truck.hours.len() || length.is_at_most(N::whole(0))) {
            let fleet = truck.hours[i].div(length);
            let ghost line = self.truck_line(t as int, i as int);
            assert(base + flat(0, line) =~= base);
            for s in 0..self.segments
                invariant
                    t < self.input.trucks@.len(),
                    fleet == self.input.trucks@[t as int].hours@[i as int].over(self.length(i as int)),
                    line == self.truck_line(t as int, i as int),
                    sheet@ == base + flat(s as nat, line),
            {
                let mut terms = term(Column::Duration { interval: i, segment: s }, fleet.neg());
                self.add_cell(&mut terms, Selector::Truck { truck: t }, i, s);
                if terms.len() > 1 {
                    sheet.leq(terms, N::whole(0));
                }
                assert(sheet@ =~= base + (flat(s as nat, line) + line(s as int)));
            }
        }
        assert(sheet@ =~= base + self.truck_interval(t as int)(i as int));
    }

    fn write_trucks(&self, sheet: &mut Sheet<N>)
        ensures
            final(sheet)@ == old(sheet)@ + flat(self.input.trucks@.len(), self.truck_lines()),
    {
        let ghost base = sheet@;
        let ghost all = self.truck_lines();
        assert(base + flat(0, all) =~= base);
        for t in 0..self.input.trucks.len()
            invariant
                all == self.truck_lines(),
                sheet@ == base + flat(t as nat, all),
        {
            let ghost inner = sheet@;
            let ghost line = self.truck_interval(t as int);
            assert(inner + flat(0, line) =~= inner);
            for i in 0..self.input.intervals.len()
                invariant
                    t < self.input.trucks@.len(),
                    line == self.truck_interval(t as int),
                    sheet@ == inner + flat(i as nat, line),
            {
                self.write_truck_interval(sheet, t, i);
                assert(sheet@ =~= inner + (flat(i as nat, line) + line(i as int)));
            }
            assert(sheet@ =~= base + (flat(t as nat, all) + all(t as int)));
        }
    }

    // Destinations.

    pub open spec fn day_terms(self, d: int, day: int) -> spec_fn(int) -> Seq<(Column, N)> {
        |i: int|
            if self.interval(i).calendar_day() == day {
                self.run_terms(Selector::Deliver { destination: d as usize }, i, self.segments as nat)
            } else {
                Seq::empty()
            }
    }

    pub open spec fn all_day_terms(self, d: int) -> spec_fn(int) -> Seq<(Column, N)> {
        |i: int| self.run_terms(Selector::Deliver { destination: d as usize }, i, self.segments as nat)
    }

    pub open spec fn crusher_line(self, d: int) -> spec_fn(int) -> Seq<Line<N>> {
        |day: int|
            match self.input.destinations@[d].crusher_daily_t@[day] {
                Some(budget) => seq![at_most_row(flat(self.horizon(), self.day_terms(d, day)), budget)],
                None => Seq::empty(),
            }
    }

    pub open spec fn destination_lines(self) -> spec_fn(int) -> Seq<Line<N>> {
        |d: int|
            {
                let destination = self.input.destinations@[d];
                if destination.kind is Crusher {
                    flat(destination.crusher_daily_t@.len(), self.crusher_line(d))
                } else {
                    match destination.capacity_t {
                        Some(capacity) => seq![at_most_row(flat(self.horizon(), self.all_day_terms(d)), capacity)],
                        None => Seq::empty(),
                    }
                }
            }
    }

    fn write_crusher_day(&self, sheet: &mut Sheet<N>, d: usize, day: usize)
        requires
            d < self.input.destinations@.len(),
            day < self.input.destinations@[d as int].crusher_daily_t@.len(),
        ensures
            final(sheet)@ == old(sheet)@ + self.crusher_line(d as int)(day as int),
    {
        let ghost base = sheet@;
        if let Some(budget) = self.input.destinations[d].crusher_daily_t[day] {
            let mut terms: Vec<(Column, N)> = Vec::new();
            let ghost f = self.day_terms(d as int, day as int);
            for i in 0..self.input.intervals.len()
                invariant
                    d < self.input.destinations@.len(),
                    f == self.day_terms(d as int, day as int),
                    terms@ == flat(i as nat, f),
            {
                if self.input.intervals[i].day() as u64 == day as u64 {
                    self.add_run(&mut terms, Selector::Deliver { destination: d }, i, self.segments);
                }
                assert(terms@ =~= flat(i as nat, f) + f(i as int));
            }
            sheet.leq(terms, budget);
        }
        assert(sheet@ =~= base + self.crusher_line(d as int)(day as int));
    }

    fn write_destination(&self, sheet: &mut Sheet<N>, d: usize)
        requires
            d < self.input.destinations@.len(),
        ensures
            final(sheet)@ == old(sheet)@ + self.destination_lines()(d as int),
    {
        let ghost base = sheet@;
        let destination = &self.input.destinations[d];
        let crusher: bool = match destination.kind {
            DestinationKind::Crusher => true,
            _ => false,
        };
        if crusher {
            let ghost line = self.crusher_line(d as int);
            assert(base + flat(0, line) =~= base);
            for day in 0..destination.crusher_daily_t.len()
                invariant
                    d < self.input.destinations@.len(),
                    destination == self.input.destinations@[d as int],
                    line == self.crusher_line(d as int),
                    sheet@ == base + flat(day as nat, line),
            {
                self.write_crusher_day(sheet, d, day);
                assert(sheet@ =~= base + (flat(day as nat, line) + line(day as int)));
            }
        } else if let Some(capacity) = destination.capacity_t {
            let mut terms: Vec<(Column, N)> = Vec::new();
            let ghost f = self.all_day_terms(d as int);
            for i in 0..self.input.intervals.len()
                invariant
                    d < self.input.destinations@.len(),
                    f == self.all_day_terms(d as int),
                    terms@ == flat(i as nat, f),
            {
                self.add_run(&mut terms, Selector::Deliver { destination: d }, i, self.segments);
                assert(terms@ =~= flat(i as nat, f) + f(i as int));
            }
            sheet.leq(terms, capacity);
        }
        assert(sheet@ =~= base + self.destination_lines()(d as int));
    }

    // Reclaim limits.

    pub open spec fn cap_interval(self, t: int, c: int) -> spec_fn(int) -> Seq<(Column, N)> {
        |i: int| self.run_of(Selector::Authorised { task: t as usize }, c, i, self.segments as nat)
    }

    pub open spec fn cap_candidate(self, t: int) -> spec_fn(int) -> Seq<(Column, N)> {
        |c: int| flat(self.horizon(), self.cap_interval(t, c))
    }

    pub open spec fn maximum_lines(self) -> spec_fn(int) -> Seq<Line<N>> {
        |t: int|
            match self.input.tasks@[t].kind {
                TaskKind::Reclaim { approved_sources, maximum_t: Some(maximum) } => seq![
                    at_most_row(flat(self.candidates(), self.cap_candidate(t)), maximum),
                ],
                _ => Seq::empty(),
            }
    }

    fn write_maximum(&self, sheet: &mut Sheet<N>, t: usize)
        requires
            t < self.input.tasks@.len(),
        ensures
            final(sheet)@ == old(sheet)@ + self.maximum_lines()(t as int),
    {
        let ghost base = sheet@;
        if let TaskKind::Reclaim { approved_sources: _, maximum_t: Some(maximum) } = &self.input.tasks[t].kind {
            let mut terms: Vec<(Column, N)> = Vec::new();
            let ghost each = self.cap_candidate(t as int);
            for c in 0..self.input.movements.len()
                invariant
                    t < self.input.tasks@.len(),
                    each == self.cap_candidate(t as int),
                    terms@ == flat(c as nat, each),
            {
                let ghost inner = terms@;
                let ghost f = self.cap_interval(t as int, c as int);
                assert(inner + flat(0, f) =~= inner);
                for i in 0..self.input.intervals.len()
                    invariant
                        t < self.input.tasks@.len(),
                        c < self.candidates(),
                        f == self.cap_interval(t as int, c as int),
                        terms@ == inner + flat(i as nat, f),
                {
                    self.add_run_of(&mut terms, Selector::Authorised { task: t }, c, i, self.segments);
                    assert(terms@ =~= inner + (flat(i as nat, f) + f(i as int)));
                }
                assert(terms@ =~= flat(c as nat, each) + each(c as int));
            }
            sheet.leq(terms, *maximum);
        }
        assert(sheet@ =~= base + self.maximum_lines()(t as int));
    }

    // One source at a time.

    /// The piles that a loader can reclaim from, among the first `n` candidates.
    pub open spec fn sources_to(self, l: int, n: nat) -> Seq<StockpileId>
        decreases n,
    {
        if n == 0 {
            Seq::empty()
        } else {
            let before = self.sources_to(l, (n - 1) as nat);
            let candidate = self.candidate(n - 1);
            match candidate.source {
                SourceId::Stockpile(pile) => if candidate.loader == self.input.loaders@[l].id
                    && candidate.activity is Reclaim && !before.contains(pile) {
                    before.push(pile)
                } else {
                    before
                },
                SourceId::Ground(_) => before,
            }
        }
    }

    pub open spec fn picked(self, l: int, pile: StockpileId, i: int, s: int) -> Column {
        Column::SourcePicked { loader: l as usize, pile, interval: i as usize, segment: s as usize }
    }

    pub open spec fn source_line(self, l: int, piles: Seq<StockpileId>, i: int, s: int, big: N) -> spec_fn(int) -> Seq<
        Line<N>,
    > {
        |x: int|
            {
                let sum = self.cell_terms(Selector::Reclaim { loader: l as usize, pile: piles[x] }, i, s);
                let flag = self.picked(l, piles[x], i, s);
                seq![binary(flag)] + (if sum.len() > 0 {
                    seq![at_most_row(seq![(flag, big.opposite())] + sum, nil::<N>())]
                } else {
                    Seq::empty()
                })
            }
    }

    pub open spec fn source_pick(self, l: int, piles: Seq<StockpileId>, i: int, s: int) -> spec_fn(int) -> Seq<(Column, N)> {
        |x: int|
            if self.cell_terms(Selector::Reclaim { loader: l as usize, pile: piles[x] }, i, s).len() > 0 {
                seq![(self.picked(l, piles[x], i, s), one::<N>())]
            } else {
                Seq::empty()
            }
    }

    pub open spec fn source_segment(self, l: int, i: int, big: N) -> spec_fn(int) -> Seq<Line<N>> {
        |s: int|
            {
                let piles = self.sources_to(l, self.candidates());
                let picks = flat(piles.len(), self.source_pick(l, piles, i, s));
                flat(piles.len(), self.source_line(l, piles, i, s, big)) + (if picks.len() > 1 {
                    seq![at_most_row(picks, one::<N>())]
                } else {
                    Seq::empty()
                })
            }
    }

    pub open spec fn source_interval(self, l: int) -> spec_fn(int) -> Seq<Line<N>> {
        |i: int|
            match rate_of(self.input.loaders@[l], i as usize) {
                Some(rate) => if N::of_whole(0).below(rate.reclaim_tph) {
                    flat(self.segments as nat, self.source_segment(l, i, rate.reclaim_tph.times(self.length(i))))
                } else {
                    Seq::empty()
                },
                None => Seq::empty(),
            }
    }

    pub open spec fn source_lines(self) -> spec_fn(int) -> Seq<Line<N>> {
        |l: int|
            if self.sources_to(l, self.candidates()).len() < 2 {
                Seq::empty()
            } else {
                flat(self.horizon(), self.source_interval(l))
            }
    }

    fn find_sources(&self, l: usize) -> (r: Vec<StockpileId>)
        requires
            l < self.input.loaders@.len(),
        ensures
            r@ == self.sources_to(l as int, self.candidates()),
    {
        let mut piles: Vec<StockpileId> = Vec::new();
        for c in 0..self.input.movements.len()
            invariant
                l < self.input.loaders@.len(),
                piles@ == self.sources_to(l as int, c as nat),
        {
            let candidate = &self.input.movements[c];
            if let SourceId::Stockpile(pile) = candidate.source {
                if candidate.loader == self.input.loaders[l].id && candidate.activity == Activity::Reclaim
                    && !holds_pile(&piles, pile) {
                    piles.push(pile);
                }
            }
        }
        piles
    }

    fn write_source_segment(&self, sheet: &mut Sheet<N>, l: usize, i: usize, s: usize, piles: &Vec<StockpileId>, big: N)
        requires
            l < self.input.loaders@.len(),
            piles@ == self.sources_to(l as int, self.candidates()),
        ensures
            final(sheet)@ == old(sheet)@ + self.source_segment(l as int, i as int, big)(s as int),
    {
        let ghost base = sheet@;
        let ghost line = self.source_line(l as int, piles@, i as int, s as int, big);
        let ghost pick = self.source_pick(l as int, piles@, i as int, s as int);
        let mut chosen: Vec<(Column, N)> = Vec::new();
        assert(base + flat(0, line) =~= base);
        for x in 0..piles.len()
            invariant
                l < self.input.loaders@.len(),
                line == self.source_line(l as int, piles@, i as int, s as int, big),
                pick == self.source_pick(l as int, piles@, i as int, s as int),
                chosen@ == flat(x as nat, pick),
                sheet@ == base + flat(x as nat, line),
        {
            let flag = Column::SourcePicked { loader: l, pile: piles[x], interval: i, segment: s };
            sheet.binary(flag);
            let mut terms = term(flag, big.neg());
            self.add_cell(&mut terms, Selector::Reclaim { loader: l, pile: piles[x] }, i, s);
            if terms.len() > 1 {
                sheet.leq(terms, N::whole(0));
                chosen.push((flag, N::whole(1)));
            }
            assert(chosen@ =~= flat(x as nat, pick) + pick(x as int));
            assert(sheet@ =~= base + (flat(x as nat, line) + line(x as int)));
        }
        if chosen.len() > 1 {
            sheet.leq(chosen, N::whole(1));
        }
        assert(sheet@ =~= base + self.source_segment(l as int, i as int, big)(s as int));
    }

    fn write_source_interval(&self, sheet: &mut Sheet<N>, l: usize, i: usize, piles: &Vec<StockpileId>)
        requires
            l < self.input.loaders@.len(),
            i < self.horizon(),
            piles@ == self.sources_to(l as int, self.candidates()),
        ensures
            final(sheet)@ == old(sheet)@ + self.source_interval(l as int)(i as int),
    {
        let ghost base = sheet@;
        if let Some(rate) = interval_rate(&self.input.loaders[l], i) {
            if N::whole(0).is_below(rate.reclaim_tph) {
                let big = rate.reclaim_tph.mul(self.input.intervals[i].duration_h());
                let ghost line = self.source_segment(l as int, i as int, big);
                assert(base + flat(0, line) =~= base);
                for s in 0..self.segments
                    invariant
                        l < self.input.loaders@.len(),
                        piles@ == self.sources_to(l as int, self.candidates()),
                        line == self.source_segment(l as int, i as int, big),
                        sheet@ == base + flat(s as nat, line),
                {
                    self.write_source_segment(sheet, l, i, s, piles, big);
                    assert(sheet@ =~= base + (flat(s as nat, line) + line(s as int)));
                }
            }
        }
        assert(sheet@ =~= base + self.source_interval(l as int)(i as int));
    }

    /// Writes that a loader reclaims from one pile at a time.
    pub fn write_sources(&self, sheet: &mut Sheet<N>)
        ensures
            final(sheet)@ == old(sheet)@ + flat(self.input.loaders@.len(), self.source_lines()),
    {
        let ghost base = sheet@;
        let ghost all = self.source_lines();
        assert(base + flat(0, all) =~= base);
        for l in 0..self.input.loaders.len()
            invariant
                all == self.source_lines(),
                sheet@ == base + flat(l as nat, all),
        {
            let piles = self.find_sources(l);
            if piles.len() >= 2 {
                let ghost inner = sheet@;
                let ghost line = self.source_interval(l as int);
                assert(inner + flat(0, line) =~= inner);
                for i in 0..self.input.intervals.len()
                    invariant
                        l < self.input.loaders@.len(),
                        piles@ == self.sources_to(l as int, self.candidates()),
                        line == self.source_interval(l as int),
                        sheet@ == inner + flat(i as nat, line),
                {
                    self.write_source_interval(sheet, l, i, &piles);
                    assert(sheet@ =~= inner + (flat(i as nat, line) + line(i as int)));
                }
            }
            assert(sheet@ =~= base + (flat(l as nat, all) + all(l as int)));
        }
    }

    /// The lines of readiness, trucks, destinations and reclaim limits.
    pub open spec fn rule_lines(self) -> Seq<Line<N>> {
        flat(self.input.piles@.len(), self.stock_lines()) + flat(self.input.loaders@.len(), self.ready_lines()) + flat(
            self.input.trucks@.len(),
            self.truck_lines(),
        ) + flat(self.input.destinations@.len(), self.destination_lines()) + flat(
            self.input.tasks@.len(),
            self.maximum_lines(),
        )
    }

    /// Writes the lines of readiness, trucks, destinations and reclaim limits.
    pub fn write_rules(&self, sheet: &mut Sheet<N>)
        requires
            self.ready_to_write(),
        ensures
            final(sheet)@ == old(sheet)@ + self.rule_lines(),
    {
        let ghost base = sheet@;
        self.write_stock(sheet);
        self.write_ready(sheet);
        self.write_trucks(sheet);
        let ghost middle = sheet@;
        let ghost each = self.destination_lines();
        assert(middle + flat(0, each) =~= middle);
        for d in 0..self.input.destinations.len()
            invariant
                each == self.destination_lines(),
                sheet@ == middle + flat(d as nat, each),
        {
            self.write_destination(sheet, d);
            assert(sheet@ =~= middle + (flat(d as nat, each) + each(d as int)));
        }
        let ghost later = sheet@;
        let ghost most = self.maximum_lines();
        assert(later + flat(0, most) =~= later);
        for t in 0..self.input.tasks.len()
            invariant
                most == self.maximum_lines(),
                sheet@ == later + flat(t as nat, most),
        {
            self.write_maximum(sheet, t);
            assert(sheet@ =~= later + (flat(t as nat, most) + most(t as int)));
        }
        assert(sheet@ =~= base + self.rule_lines());
    }
}

} // verus!
