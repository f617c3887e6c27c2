//! The rows that put loaders to work in the order of their tasks.
use vstd::prelude::*;

use crate::listing::{find_key, flat, keyed};
use crate::optimisation::ids::{GroundId, SourceId};
use crate::optimisation::input::{MaterialShare, TaskKind};
use crate::optimisation::parcel::base::{add_counts, added, Parcels};
use crate::optimisation::parcel::columns::{MoveVariable, ParcelColumn};
use crate::optimisation::parcel::declare::{Line, Sheet};
use crate::optimisation::parcel::lists::Lists;
use crate::optimisation::parcel::select::MoveSelector;
use crate::optimisation::sheet::{at_least_row, at_most_row, equal_row, less_one, nil, one, term, terms_of};
use crate::scalar::Scalar;

verus! {

impl<'a, N: Scalar> Parcels<'a, N> {
    pub open spec fn sequence(self, t: int) -> Seq<GroundId> {
        match self.task(t).kind {
            TaskKind::Dig { sequence } => sequence@,
            TaskKind::Reclaim { .. } => Seq::empty(),
        }
    }

    pub open spec fn block_done(self, ground: GroundId, i: int, s: int) -> ParcelColumn {
        ParcelColumn::GroundDone { ground, interval: i as usize, segment: s as usize }
    }

    pub open spec fn stage_route(self, t: int, i: int, s: int, stage: int, share: MaterialShare<N>) -> ParcelColumn {
        ParcelColumn::RouteAvailable {
            task: t as usize,
            interval: i as usize,
            segment: s as usize,
            stage: stage as usize,
            material: share.material,
        }
    }

    pub open spec fn after_line(self, pick: ParcelColumn, t: int, i: int, s: int) -> spec_fn(int) -> Seq<Line<N>> {
        |before: int|
            seq![
                at_most_row(
                    seq![(pick, one::<N>()), (self.block_done(self.sequence(t)[before], i, s), less_one::<N>())],
                    nil::<N>(),
                ),
            ]
    }

    pub open spec fn open_line(
        self,
        pick: ParcelColumn,
        t: int,
        i: int,
        s: int,
        stage: int,
        shares: Seq<MaterialShare<N>>,
    ) -> spec_fn(int) -> Seq<Line<N>> {
        |k: int|
            seq![
                at_most_row(
                    seq![(pick, one::<N>()), (self.stage_route(t, i, s, stage, shares[k]), less_one::<N>())],
                    nil::<N>(),
                ),
            ]
    }

    pub open spec fn done_terms(self, t: int, i: int, s: int, n: nat) -> Seq<(ParcelColumn, N)> {
        Seq::new(n, |before: int| (self.block_done(self.sequence(t)[before], i, s), less_one::<N>()))
    }

    pub open spec fn open_terms(self, t: int, i: int, s: int, stage: int, shares: Seq<MaterialShare<N>>) -> Seq<
        (ParcelColumn, N),
    > {
        Seq::new(shares.len(), |k: int| (self.stage_route(t, i, s, stage, shares[k]), less_one::<N>()))
    }

    /// A stage is picked where it is not used up, every stage before it is, and
    /// everything dug at it has somewhere to go.
    pub open spec fn pick_lines(self, t: int, i: int, s: int, stage: int) -> Seq<Line<N>> {
        let pick = self.picked(t, i, s, stage);
        let source = self.sequence(t)[stage];
        let shares = self.block_shares(source);
        let done = self.block_done(source, i, s);
        seq![at_most_row(seq![(pick, one::<N>()), (done, one::<N>())], one::<N>())] + flat(
            stage as nat,
            self.after_line(pick, t, i, s),
        ) + flat(shares.len(), self.open_line(pick, t, i, s, stage, shares)) + seq![
            at_least_row(
                seq![(pick, one::<N>())] + self.done_terms(t, i, s, stage as nat) + self.open_terms(
                    t,
                    i,
                    s,
                    stage,
                    shares,
                ) + seq![(done, one::<N>())],
                one::<N>().minus(N::of_whole(added(stage as usize, shares.len() as usize) as u64)),
            ),
        ]
    }

    pub open spec fn share_line(self, t: int, i: int, s: int, stage: int, shares: Seq<MaterialShare<N>>) -> spec_fn(
        int,
    ) -> Seq<Line<N>> {
        |k: int|
            seq![
                equal_row(
                    self.move_terms(
                        MoveSelector::Routed {
                            task: t as usize,
                            interval: i as usize,
                            segment: s as usize,
                            source: SourceId::Ground(self.sequence(t)[stage]),
                            material: shares[k].material,
                        },
                        one::<N>(),
                    ).push((self.dig(t, i, s, stage), shares[k].fraction.opposite())),
                    nil::<N>(),
                ),
            ]
    }

    /// What is dug at a stage stays within the loader's rate, and every share
    /// of it takes a route.
    pub open spec fn extraction_lines(self, l: int, t: int, i: int, s: int, stage: int) -> Seq<Line<N>> {
        let dig = self.dig(t, i, s, stage);
        let rate = self.dig_rate(l, i);
        let most = rate.times(self.length(i));
        let shares = self.block_shares(self.sequence(t)[stage]);
        seq![
            at_most_row(seq![(dig, one::<N>()), (self.picked(t, i, s, stage), most.opposite())], nil::<N>()),
            at_most_row(seq![(dig, one::<N>()), (self.selected(t, i, s), most.opposite())], nil::<N>()),
            at_most_row(seq![(dig, one::<N>()), (self.duration(i, s), rate.opposite())], nil::<N>()),
        ] + flat(shares.len(), self.share_line(t, i, s, stage, shares))
    }

    pub open spec fn stage_line(self, l: int, t: int, i: int, s: int) -> spec_fn(int) -> Seq<Line<N>> {
        |stage: int|
            if self.dig_stage(l, t, i, stage) {
                self.pick_lines(t, i, s, stage) + self.extraction_lines(l, t, i, s, stage)
            } else {
                seq![equal_row(seq![(self.picked(t, i, s, stage), one::<N>())], nil::<N>())]
            }
    }

    pub open spec fn stage_terms(self, t: int, i: int, s: int) -> Seq<(ParcelColumn, N)> {
        Seq::new(self.stages(t), |stage: int| (self.picked(t, i, s, stage), less_one::<N>()))
    }

    /// A dig task has work where a stage of it is picked; a reclaim task
    /// outside its window has none.
    pub open spec fn kind_lines(self, l: int, t: int, i: int, s: int) -> Seq<Line<N>> {
        let ready = self.task_ready(t, i, s);
        match self.task(t).kind {
            TaskKind::Dig { .. } => flat(self.stages(t), self.stage_line(l, t, i, s)) + seq![
                equal_row(seq![(ready, one::<N>())] + self.stage_terms(t, i, s), nil::<N>()),
            ],
            TaskKind::Reclaim { .. } => if !self.active(t, i) || self.reclaim_rate(l, i).at_most(N::of_whole(0)) {
                seq![equal_row(seq![(ready, one::<N>())], nil::<N>())]
            } else {
                Seq::empty()
            },
        }
    }

    pub open spec fn yield_line(self, l: int, t: int, i: int, s: int) -> spec_fn(int) -> Seq<Line<N>> {
        |q: int|
            seq![
                at_most_row(
                    seq![
                        (self.selected(t, i, s), one::<N>()),
                        (self.task_ready(self.order(l)[q] as int, i, s), one::<N>()),
                    ],
                    one::<N>(),
                ),
            ]
    }

    pub open spec fn earlier_terms(self, l: int, i: int, s: int, n: nat) -> Seq<(ParcelColumn, N)> {
        Seq::new(n, |q: int| (self.task_ready(self.order(l)[q] as int, i, s), one::<N>()))
    }

    /// A loader works on a task where it has work and no earlier one does.
    pub open spec fn task_line(self, l: int, i: int, s: int) -> spec_fn(int) -> Seq<Line<N>> {
        |q: int|
            {
                let t = self.order(l)[q] as int;
                let (selected, ready) = (self.selected(t, i, s), self.task_ready(t, i, s));
                self.kind_lines(l, t, i, s) + seq![
                    at_most_row(seq![(selected, one::<N>()), (ready, less_one::<N>())], nil::<N>()),
                ] + flat(q as nat, self.yield_line(l, t, i, s)) + seq![
                    at_least_row(
                        seq![(selected, one::<N>()), (ready, less_one::<N>())] + self.earlier_terms(l, i, s, q as nat),
                        nil::<N>(),
                    ),
                ]
            }
    }

    pub open spec fn selected_terms(self, l: int, i: int, s: int) -> Seq<(ParcelColumn, N)> {
        Seq::new(self.order(l).len(), |q: int| (self.selected(self.order(l)[q] as int, i, s), one::<N>()))
    }

    pub open spec fn loader_segment_lines(self, l: int, i: int) -> spec_fn(int) -> Seq<Line<N>> {
        |s: int|
            flat(self.order(l).len(), self.task_line(l, i, s)) + seq![
                at_most_row(self.selected_terms(l, i, s), one::<N>()),
            ]
    }

    pub open spec fn loader_interval_lines(self, l: int) -> spec_fn(int) -> Seq<Line<N>> {
        |i: int| flat(self.segments(i), self.loader_segment_lines(l, i))
    }

    pub open spec fn loader_lines(self) -> spec_fn(int) -> Seq<Line<N>> {
        |l: int| flat(self.horizon(), self.loader_interval_lines(l))
    }

    fn write_pick(&self, sheet: &mut Sheet<N>, t: usize, i: usize, s: usize, stage: usize, g: usize)
        requires
            t < self.input.tasks@.len(),
            stage < self.stages(t as int),
            keyed(self.input.ground@, self.sequence(t as int)[stage as int].0) == Some(g as int),
            g < self.input.ground@.len(),
        ensures
            final(sheet)@ == old(sheet)@ + self.pick_lines(t as int, i as int, s as int, stage as int),
    {
        let ghost base = sheet@;
        let pick = ParcelColumn::StagePicked { task: t, interval: i, segment: s, stage };
        let source = self.find_stage_source(t, stage);
        let shares = &self.input.ground[g].material;
        let done = ParcelColumn::GroundDone { ground: source, interval: i, segment: s };
        sheet.leq(terms_of(pick, N::whole(1), done, N::whole(1)), N::whole(1));
        let ghost first = sheet@;
        let ghost after = self.after_line(pick, t as int, i as int, s as int);
        let mut terms = term(pick, N::whole(1));
        let ghost all = self.done_terms(t as int, i as int, s as int, stage as nat);
        assert(first + flat(0, after) =~= first);
        for before in 0..stage
            invariant
                t < self.input.tasks@.len(),
                stage < self.stages(t as int),
                after == self.after_line(pick, t as int, i as int, s as int),
                all == self.done_terms(t as int, i as int, s as int, stage as nat),
                terms@ =~= seq![(pick, one::<N>())] + all.take(before as int),
                sheet@ == first + flat(before as nat, after),
        {
            let earlier = ParcelColumn::GroundDone {
                ground: self.find_stage_source(t, before),
                interval: i,
                segment: s,
            };
            sheet.leq(terms_of(pick, N::whole(1), earlier, N::whole(1).neg()), N::whole(0));
            terms.push((earlier, N::whole(1).neg()));
            assert(sheet@ =~= first + (flat(before as nat, after) + after(before as int)));
        }
        assert(all.take(stage as int) =~= all);
        let ghost second = sheet@;
        let ghost open = self.open_line(pick, t as int, i as int, s as int, stage as int, shares@);
        let ghost routes = self.open_terms(t as int, i as int, s as int, stage as int, shares@);
        assert(second + flat(0, open) =~= second);
        for k in 0..shares.len()
            invariant
                open == self.open_line(pick, t as int, i as int, s as int, stage as int, shares@),
                routes == self.open_terms(t as int, i as int, s as int, stage as int, shares@),
                terms@ =~= seq![(pick, one::<N>())] + all + routes.take(k as int),
                sheet@ == second + flat(k as nat, open),
        {
            let route = ParcelColumn::RouteAvailable {
                task: t,
                interval: i,
                segment: s,
                stage,
                material: shares[k].material,
            };
            sheet.leq(terms_of(pick, N::whole(1), route, N::whole(1).neg()), N::whole(0));
            terms.push((route, N::whole(1).neg()));
            assert(sheet@ =~= second + (flat(k as nat, open) + open(k as int)));
        }
        assert(routes.take(shares@.len() as int) =~= routes);
        terms.push((done, N::whole(1)));
        let count: usize = add_counts(stage, shares.len());
        assert(terms@ =~= seq![(pick, one::<N>())] + all + routes + seq![(done, one::<N>())]);
        sheet.geq(terms, N::whole(1).sub(N::whole(count as u64)));
        assert(sheet@ =~= base + self.pick_lines(t as int, i as int, s as int, stage as int));
    }

    fn write_extraction(
        &self,
        sheet: &mut Sheet<N>,
        l: usize,
        t: usize,
        i: usize,
        s: usize,
        stage: usize,
        g: usize,
        moves: &Vec<MoveVariable>,
    )
        requires
            l < self.input.loaders@.len(),
            t < self.input.tasks@.len(),
            i < self.horizon(),
            stage < self.stages(t as int),
            keyed(self.input.ground@, self.sequence(t as int)[stage as int].0) == Some(g as int),
            g < self.input.ground@.len(),
            moves@ == self.moves(),
            forall|x: int| 0 <= x < moves@.len() ==> self.move_stands(#[trigger] moves@[x]),
        ensures
            final(sheet)@ == old(sheet)@ + self.extraction_lines(
                l as int,
                t as int,
                i as int,
                s as int,
                stage as int,
            ),
    {
        let ghost base = sheet@;
        let dig = ParcelColumn::Dig { task: t, interval: i, segment: s, stage };
        let rate = self.find_dig_rate(l, i);
        let most = rate.mul(self.input.intervals[i].duration_h());
        let source = self.find_stage_source(t, stage);
        let shares = &self.input.ground[g].material;
        let pick = ParcelColumn::StagePicked { task: t, interval: i, segment: s, stage };
        let selected = ParcelColumn::TaskSelected { task: t, interval: i, segment: s };
        let duration = ParcelColumn::Duration { interval: i, segment: s };
        sheet.leq(terms_of(dig, N::whole(1), pick, most.neg()), N::whole(0));
        sheet.leq(terms_of(dig, N::whole(1), selected, most.neg()), N::whole(0));
        sheet.leq(terms_of(dig, N::whole(1), duration, rate.neg()), N::whole(0));
        let ghost inner = sheet@;
        let ghost f = self.share_line(t as int, i as int, s as int, stage as int, shares@);
        assert(inner + flat(0, f) =~= inner);
        for k in 0..shares.len()
            invariant
                t < self.input.tasks@.len(),
                stage < self.stages(t as int),
                source == self.sequence(t as int)[stage as int],
                dig == self.dig(t as int, i as int, s as int, stage as int),
                moves@ == self.moves(),
                forall|x: int| 0 <= x < moves@.len() ==> self.move_stands(#[trigger] moves@[x]),
                f == self.share_line(t as int, i as int, s as int, stage as int, shares@),
                sheet@ == inner + flat(k as nat, f),
        {
            let sel = MoveSelector::Routed {
                task: t,
                interval: i,
                segment: s,
                source: SourceId::Ground(source),
                material: shares[k].material,
            };
            let mut terms: Vec<(ParcelColumn, N)> = Vec::new();
            self.add_moves(&mut terms, moves, sel, N::whole(1));
            assert(terms@ =~= self.move_terms(sel, one::<N>()));
            terms.push((dig, shares[k].fraction.neg()));
            sheet.eq(terms, N::whole(0));
            assert(sheet@ =~= inner + (flat(k as nat, f) + f(k as int)));
        }
        assert(sheet@ =~= base + self.extraction_lines(l as int, t as int, i as int, s as int, stage as int));
    }

    fn write_stages(&self, sheet: &mut Sheet<N>, l: usize, t: usize, i: usize, s: usize, moves: &Vec<MoveVariable>)
        requires
            l < self.input.loaders@.len(),
            t < self.input.tasks@.len(),
            i < self.horizon(),
            moves@ == self.moves(),
            forall|x: int| 0 <= x < moves@.len() ==> self.move_stands(#[trigger] moves@[x]),
        ensures
            final(sheet)@ == old(sheet)@ + flat(
                self.stages(t as int),
                self.stage_line(l as int, t as int, i as int, s as int),
            ),
    {
        let stages: usize = self.find_stages(t);
        let ghost base = sheet@;
        let ghost f = self.stage_line(l as int, t as int, i as int, s as int);
        assert(base + flat(0, f) =~= base);
        for stage in 0..stages
            invariant
                l < self.input.loaders@.len(),
                t < self.input.tasks@.len(),
                i < self.horizon(),
                stages == self.stages(t as int),
                moves@ == self.moves(),
                forall|x: int| 0 <= x < moves@.len() ==> self.move_stands(#[trigger] moves@[x]),
                f == self.stage_line(l as int, t as int, i as int, s as int),
                sheet@ == base + flat(stage as nat, f),
        {
            if self.can_dig_stage(l, t, i, stage) {
                let source = self.find_stage_source(t, stage);
                if let Some(g) = find_key(&self.input.ground, source.0) {
                    self.write_pick(sheet, t, i, s, stage, g);
                    self.write_extraction(sheet, l, t, i, s, stage, g, moves);
                }
            } else {
                let pick = ParcelColumn::StagePicked { task: t, interval: i, segment: s, stage };
                sheet.eq(term(pick, N::whole(1)), N::whole(0));
            }
            assert(sheet@ =~= base + (flat(stage as nat, f) + f(stage as int)));
        }
    }

    fn write_kind(&self, sheet: &mut Sheet<N>, l: usize, t: usize, i: usize, s: usize, moves: &Vec<MoveVariable>)
        requires
            l < self.input.loaders@.len(),
            t < self.input.tasks@.len(),
            i < self.horizon(),
            moves@ == self.moves(),
            forall|x: int| 0 <= x < moves@.len() ==> self.move_stands(#[trigger] moves@[x]),
        ensures
            final(sheet)@ == old(sheet)@ + self.kind_lines(l as int, t as int, i as int, s as int),
    {
        let ghost base = sheet@;
        let ready = ParcelColumn::TaskReady { task: t, interval: i, segment: s };
        match &self.input.tasks[t].kind {
            TaskKind::Dig { sequence } => {
                self.write_stages(sheet, l, t, i, s, moves);
                let mut terms = term(ready, N::whole(1));
                let ghost all = self.stage_terms(t as int, i as int, s as int);
                for stage in 0..sequence.len()
                    invariant
                        sequence@.len() == self.stages(t as int),
                        all == self.stage_terms(t as int, i as int, s as int),
                        terms@ =~= seq![(ready, one::<N>())] + all.take(stage as int),
                {
                    terms.push(
                        (ParcelColumn::StagePicked { task: t, interval: i, segment: s, stage }, N::whole(1).neg()),
                    );
                }
                assert(all.take(sequence@.len() as int) =~= all);
                sheet.eq(terms, N::whole(0));
            },
            TaskKind::Reclaim { .. } => {
                if !self.is_active(t, i) || self.find_reclaim_rate(l, i).is_at_most(N::whole(0)) {
                    sheet.eq(term(ready, N::whole(1)), N::whole(0));
                }
            },
        }
        assert(sheet@ =~= base + self.kind_lines(l as int, t as int, i as int, s as int));
    }

    fn write_task(
        &self,
        sheet: &mut Sheet<N>,
        l: usize,
        i: usize,
        s: usize,
        q: usize,
        order: &Vec<usize>,
        moves: &Vec<MoveVariable>,
    )
        requires
            l < self.input.loaders@.len(),
            i < self.horizon(),
            order@ == self.order(l as int),
            forall|q: int| 0 <= q < order@.len() ==> (#[trigger] order@[q]) < self.input.tasks@.len(),
            q < order@.len(),
            moves@ == self.moves(),
            forall|x: int| 0 <= x < moves@.len() ==> self.move_stands(#[trigger] moves@[x]),
        ensures
            final(sheet)@ == old(sheet)@ + self.task_line(l as int, i as int, s as int)(q as int),
    {
        let ghost base = sheet@;
        let t: usize = order[q];
        let selected = ParcelColumn::TaskSelected { task: t, interval: i, segment: s };
        let ready = ParcelColumn::TaskReady { task: t, interval: i, segment: s };
        self.write_kind(sheet, l, t, i, s, moves);
        sheet.leq(terms_of(selected, N::whole(1), ready, N::whole(1).neg()), N::whole(0));
        let ghost inner = sheet@;
        let ghost f = self.yield_line(l as int, t as int, i as int, s as int);
        let mut terms = terms_of(selected, N::whole(1), ready, N::whole(1).neg());
        let ghost start = terms@;
        let ghost all = self.earlier_terms(l as int, i as int, s as int, q as nat);
        assert(inner + flat(0, f) =~= inner);
        for e in 0..q
            invariant
                order@ == self.order(l as int),
                q < order@.len(),
                selected == self.selected(t as int, i as int, s as int),
                f == self.yield_line(l as int, t as int, i as int, s as int),
                all == self.earlier_terms(l as int, i as int, s as int, q as nat),
                terms@ =~= start + all.take(e as int),
                sheet@ == inner + flat(e as nat, f),
        {
            let earlier = ParcelColumn::TaskReady { task: order[e], interval: i, segment: s };
            sheet.leq(terms_of(selected, N::whole(1), earlier, N::whole(1)), N::whole(1));
            terms.push((earlier, N::whole(1)));
            assert(sheet@ =~= inner + (flat(e as nat, f) + f(e as int)));
        }
        assert(all.take(q as int) =~= all);
        sheet.geq(terms, N::whole(0));
        assert(sheet@ =~= base + self.task_line(l as int, i as int, s as int)(q as int));
    }

    fn write_loader_segment(
        &self,
        sheet: &mut Sheet<N>,
        l: usize,
        i: usize,
        s: usize,
        order: &Vec<usize>,
        moves: &Vec<MoveVariable>,
    )
        requires
            l < self.input.loaders@.len(),
            i < self.horizon(),
            order@ == self.order(l as int),
            forall|q: int| 0 <= q < order@.len() ==> (#[trigger] order@[q]) < self.input.tasks@.len(),
            moves@ == self.moves(),
            forall|x: int| 0 <= x < moves@.len() ==> self.move_stands(#[trigger] moves@[x]),
        ensures
            final(sheet)@ == old(sheet)@ + self.loader_segment_lines(l as int, i as int)(s as int),
    {
        let ghost base = sheet@;
        let ghost f = self.task_line(l as int, i as int, s as int);
        let mut terms: Vec<(ParcelColumn, N)> = Vec::new();
        let ghost all = self.selected_terms(l as int, i as int, s as int);
        assert(base + flat(0, f) =~= base);
        for q in 0..order.len()
            invariant
                l < self.input.loaders@.len(),
                i < self.horizon(),
                order@ == self.order(l as int),
                forall|q: int| 0 <= q < order@.len() ==> (#[trigger] order@[q]) < self.input.tasks@.len(),
                moves@ == self.moves(),
                forall|x: int| 0 <= x < moves@.len() ==> self.move_stands(#[trigger] moves@[x]),
                f == self.task_line(l as int, i as int, s as int),
                all == self.selected_terms(l as int, i as int, s as int),
                terms@ =~= all.take(q as int),
                sheet@ == base + flat(q as nat, f),
        {
            self.write_task(sheet, l, i, s, q, order, moves);
            terms.push((ParcelColumn::TaskSelected { task: order[q], interval: i, segment: s }, N::whole(1)));
            assert(sheet@ =~= base + (flat(q as nat, f) + f(q as int)));
        }
        assert(terms@ =~= all);
        sheet.leq(terms, N::whole(1));
        assert(sheet@ =~= base + self.loader_segment_lines(l as int, i as int)(s as int));
    }

    fn write_loader(&self, sheet: &mut Sheet<N>, l: usize, moves: &Vec<MoveVariable>)
        requires
            self.ready(),
            l < self.input.loaders@.len(),
            moves@ == self.moves(),
            forall|x: int| 0 <= x < moves@.len() ==> self.move_stands(#[trigger] moves@[x]),
        ensures
            final(sheet)@ == old(sheet)@ + self.loader_lines()(l as int),
    {
        let order = self.find_order(l);
        let ghost base = sheet@;
        let ghost each = self.loader_interval_lines(l as int);
        assert(base + flat(0, each) =~= base);
        for i in 0..self.input.intervals.len()
            invariant
                self.ready(),
                l < self.input.loaders@.len(),
                order@ == self.order(l as int),
                forall|q: int| 0 <= q < order@.len() ==> (#[trigger] order@[q]) < self.input.tasks@.len(),
                moves@ == self.moves(),
                forall|x: int| 0 <= x < moves@.len() ==> self.move_stands(#[trigger] moves@[x]),
                each == self.loader_interval_lines(l as int),
                sheet@ == base + flat(i as nat, each),
        {
            let segments: usize = self.budgets[i];
            let ghost inner = sheet@;
            let ghost f = self.loader_segment_lines(l as int, i as int);
            assert(inner + flat(0, f) =~= inner);
            for s in 0..segments
                invariant
                    l < self.input.loaders@.len(),
                    i < self.horizon(),
                    order@ == self.order(l as int),
                    forall|q: int| 0 <= q < order@.len() ==> (#[trigger] order@[q]) < self.input.tasks@.len(),
                    moves@ == self.moves(),
                    forall|x: int| 0 <= x < moves@.len() ==> self.move_stands(#[trigger] moves@[x]),
                    f == self.loader_segment_lines(l as int, i as int),
                    sheet@ == inner + flat(s as nat, f),
            {
                self.write_loader_segment(sheet, l, i, s, &order, moves);
                assert(sheet@ =~= inner + (flat(s as nat, f) + f(s as int)));
            }
            assert(sheet@ =~= base + (flat(i as nat, each) + each(i as int)));
        }
    }

    /// Writes the rows of every loader's tasks.
    pub fn write_tasks(&self, sheet: &mut Sheet<N>, lists: &Lists<N>)
        requires
            self.ready(),
            self.listed(*lists),
        ensures
            final(sheet)@ == old(sheet)@ + flat(self.input.loaders@.len(), self.loader_lines()),
    {
        let ghost base = sheet@;
        let ghost all = self.loader_lines();
        assert(base + flat(0, all) =~= base);
        for l in 0..self.input.loaders.len()
            invariant
                self.ready(),
                self.listed(*lists),
                all == self.loader_lines(),
                sheet@ == base + flat(l as nat, all),
        {
            self.write_loader(sheet, l, &lists.moves);
            assert(sheet@ =~= base + (flat(l as nat, all) + all(l as int)));
        }
    }
}

} // verus!
