//! The columns that a parcel model is written with, in order.
use vstd::prelude::*;

use crate::listing::{find_key, flat, keyed};
use crate::optimisation::ids::{DestinationKind, StockpileId};
use crate::optimisation::input::{daily_limit, limit_on, Destination};
use crate::optimisation::parcel::base::Parcels;
use crate::optimisation::parcel::columns::{DigVariable, Group, ParcelColumn, ParcelVariable, ReclaimVariable, UnitKey};
use crate::optimisation::parcel::lists::Lists;
use crate::optimisation::sheet::{binary, continuous};
use crate::scalar::Scalar;

verus! {

pub type Line<N> = crate::optimisation::sheet::Line<ParcelColumn, N>;

pub type Sheet<N> = crate::optimisation::sheet::Sheet<ParcelColumn, N>;

impl<'a, N: Scalar> Parcels<'a, N> {
    pub open spec fn duration(self, i: int, s: int) -> ParcelColumn {
        ParcelColumn::Duration { interval: i as usize, segment: s as usize }
    }

    pub open spec fn duration_column(self, i: int) -> spec_fn(int) -> Seq<Line<N>> {
        |s: int| seq![continuous(self.duration(i, s), self.length(i))]
    }

    pub open spec fn duration_columns(self) -> spec_fn(int) -> Seq<Line<N>> {
        |i: int| flat(self.segments(i), self.duration_column(i))
    }

    fn declare_durations(&self, sheet: &mut Sheet<N>)
        requires
            self.ready(),
        ensures
            final(sheet)@ == old(sheet)@ + flat(self.horizon(), self.duration_columns()),
    {
        let ghost base = sheet@;
        let ghost each = self.duration_columns();
        assert(base + flat(0, each) =~= base);
        for i in 0..self.input.intervals.len()
            invariant
                self.ready(),
                each == self.duration_columns(),
                sheet@ == base + flat(i as nat, each),
        {
            let segments: usize = self.budgets[i];
            let length = self.input.intervals[i].duration_h();
            let ghost inner = sheet@;
            let ghost f = self.duration_column(i as int);
            assert(inner + flat(0, f) =~= inner);
            for s in 0..segments
                invariant
                    length == self.length(i as int),
                    f == self.duration_column(i as int),
                    sheet@ == inner + flat(s as nat, f),
            {
                sheet.cont(ParcelColumn::Duration { interval: i, segment: s }, length);
                assert(sheet@ =~= inner + (flat(s as nat, f) + f(s as int)));
            }
            assert(sheet@ =~= base + (flat(i as nat, each) + each(i as int)));
        }
    }

    pub open spec fn remaining(self, g: int, i: int, s: int) -> ParcelColumn {
        ParcelColumn::GroundRemaining { ground: self.input.ground@[g].id, interval: i as usize, segment: s as usize }
    }

    pub open spec fn done(self, g: int, i: int, s: int) -> ParcelColumn {
        ParcelColumn::GroundDone { ground: self.input.ground@[g].id, interval: i as usize, segment: s as usize }
    }

    pub open spec fn ground_column(self, g: int, i: int) -> spec_fn(int) -> Seq<Line<N>> {
        |s: int|
            seq![
                continuous(self.remaining(g, i, s), self.input.ground@[g].tonnes_t),
                binary(self.done(g, i, s)),
            ]
    }

    pub open spec fn ground_interval_columns(self, g: int) -> spec_fn(int) -> Seq<Line<N>> {
        |i: int| flat(self.segments(i), self.ground_column(g, i))
    }

    pub open spec fn ground_columns(self) -> spec_fn(int) -> Seq<Line<N>> {
        |g: int| flat(self.horizon(), self.ground_interval_columns(g))
    }

    fn declare_ground(&self, sheet: &mut Sheet<N>)
        requires
            self.ready(),
        ensures
            final(sheet)@ == old(sheet)@ + flat(self.input.ground@.len(), self.ground_columns()),
    {
        let ghost base = sheet@;
        let ghost all = self.ground_columns();
        assert(base + flat(0, all) =~= base);
        for g in 0..self.input.ground.len()
            invariant
                self.ready(),
                all == self.ground_columns(),
                sheet@ == base + flat(g as nat, all),
        {
            let ghost outer = sheet@;
            let ghost each = self.ground_interval_columns(g as int);
            assert(outer + flat(0, each) =~= outer);
            for i in 0..self.input.intervals.len()
                invariant
                    self.ready(),
                    g < self.input.ground@.len(),
                    each == self.ground_interval_columns(g as int),
                    sheet@ == outer + flat(i as nat, each),
            {
                let segments: usize = self.budgets[i];
                let ghost inner = sheet@;
                let ghost f = self.ground_column(g as int, i as int);
                assert(inner + flat(0, f) =~= inner);
                for s in 0..segments
                    invariant
                        g < self.input.ground@.len(),
                        f == self.ground_column(g as int, i as int),
                        sheet@ == inner + flat(s as nat, f),
                {
                    let ground = self.input.ground[g].id;
                    sheet.cont(
                        ParcelColumn::GroundRemaining { ground, interval: i, segment: s },
                        self.input.ground[g].tonnes_t,
                    );
                    sheet.binary(ParcelColumn::GroundDone { ground, interval: i, segment: s });
                    assert(sheet@ =~= inner + (flat(s as nat, f) + f(s as int)));
                }
                assert(sheet@ =~= outer + (flat(i as nat, each) + each(i as int)));
            }
            assert(sheet@ =~= base + (flat(g as nat, all) + all(g as int)));
        }
    }

    pub open spec fn selected(self, t: int, i: int, s: int) -> ParcelColumn {
        ParcelColumn::TaskSelected { task: t as usize, interval: i as usize, segment: s as usize }
    }

    pub open spec fn task_ready(self, t: int, i: int, s: int) -> ParcelColumn {
        ParcelColumn::TaskReady { task: t as usize, interval: i as usize, segment: s as usize }
    }

    pub open spec fn picked(self, t: int, i: int, s: int, stage: int) -> ParcelColumn {
        ParcelColumn::StagePicked {
            task: t as usize,
            interval: i as usize,
            segment: s as usize,
            stage: stage as usize,
        }
    }

    pub open spec fn dig(self, t: int, i: int, s: int, stage: int) -> ParcelColumn {
        ParcelColumn::Dig { task: t as usize, interval: i as usize, segment: s as usize, stage: stage as usize }
    }

    pub open spec fn stage_column(self, l: int, i: int, t: int, s: int) -> spec_fn(int) -> Seq<Line<N>> {
        |stage: int|
            seq![binary(self.picked(t, i, s, stage))] + (if self.dig_stage(l, t, i, stage) {
                seq![
                    continuous(
                        self.dig(t, i, s, stage),
                        self.dig_rate(l, i).times(self.length(i)).lower(
                            self.block_tonnes(self.task(t).kind->sequence@[stage]),
                        ),
                    ),
                ]
            } else {
                Seq::empty()
            })
    }

    pub open spec fn task_column(self, l: int, i: int, t: int) -> spec_fn(int) -> Seq<Line<N>> {
        |s: int|
            seq![binary(self.selected(t, i, s)), binary(self.task_ready(t, i, s))] + flat(
                self.stages(t),
                self.stage_column(l, i, t, s),
            )
    }

    pub open spec fn task_columns(self, l: int, i: int) -> spec_fn(int) -> Seq<Line<N>> {
        |q: int| flat(self.segments(i), self.task_column(l, i, self.order(l)[q] as int))
    }

    pub open spec fn loader_interval_columns(self, l: int) -> spec_fn(int) -> Seq<Line<N>> {
        |i: int| flat(self.order(l).len(), self.task_columns(l, i))
    }

    pub open spec fn loader_columns(self) -> spec_fn(int) -> Seq<Line<N>> {
        |l: int| flat(self.horizon(), self.loader_interval_columns(l))
    }

    fn declare_task(&self, sheet: &mut Sheet<N>, l: usize, i: usize, t: usize, s: usize)
        requires
            l < self.input.loaders@.len(),
            i < self.horizon(),
            t < self.input.tasks@.len(),
        ensures
            final(sheet)@ == old(sheet)@ + self.task_column(l as int, i as int, t as int)(s as int),
    {
        let ghost base = sheet@;
        sheet.binary(ParcelColumn::TaskSelected { task: t, interval: i, segment: s });
        sheet.binary(ParcelColumn::TaskReady { task: t, interval: i, segment: s });
        let stages: usize = self.find_stages(t);
        let ghost inner = sheet@;
        let ghost f = self.stage_column(l as int, i as int, t as int, s as int);
        assert(inner + flat(0, f) =~= inner);
        for stage in 0..stages
            invariant
                l < self.input.loaders@.len(),
                i < self.horizon(),
                t < self.input.tasks@.len(),
                stages == self.stages(t as int),
                f == self.stage_column(l as int, i as int, t as int, s as int),
                sheet@ == inner + flat(stage as nat, f),
        {
            sheet.binary(ParcelColumn::StagePicked { task: t, interval: i, segment: s, stage });
            if self.can_dig_stage(l, t, i, stage) {
                let source = self.find_stage_source(t, stage);
                let upper = self.find_dig_rate(l, i).mul(self.input.intervals[i].duration_h()).smaller(
                    self.find_block_tonnes(source),
                );
                sheet.cont(ParcelColumn::Dig { task: t, interval: i, segment: s, stage }, upper);
            }
            assert(sheet@ =~= inner + (flat(stage as nat, f) + f(stage as int)));
        }
        assert(sheet@ =~= base + self.task_column(l as int, i as int, t as int)(s as int));
    }

    fn declare_loader(&self, sheet: &mut Sheet<N>, l: usize)
        requires
            self.ready(),
            l < self.input.loaders@.len(),
        ensures
            final(sheet)@ == old(sheet)@ + self.loader_columns()(l as int),
    {
        let order = self.find_order(l);
        let ghost base = sheet@;
        let ghost all = self.loader_interval_columns(l as int);
        assert(base + flat(0, all) =~= base);
        for i in 0..self.input.intervals.len()
            invariant
                self.ready(),
                l < self.input.loaders@.len(),
                order@ == self.order(l as int),
                forall|q: int| 0 <= q < order@.len() ==> (#[trigger] order@[q]) < self.input.tasks@.len(),
                all == self.loader_interval_columns(l as int),
                sheet@ == base + flat(i as nat, all),
        {
            let segments: usize = self.budgets[i];
            let ghost outer = sheet@;
            let ghost each = self.task_columns(l as int, i as int);
            assert(outer + flat(0, each) =~= outer);
            for q in 0..order.len()
                invariant
                    l < self.input.loaders@.len(),
                    i < self.horizon(),
                    segments == self.segments(i as int),
                    order@ == self.order(l as int),
                    forall|q: int| 0 <= q < order@.len() ==> (#[trigger] order@[q]) < self.input.tasks@.len(),
                    each == self.task_columns(l as int, i as int),
                    sheet@ == outer + flat(q as nat, each),
            {
                let t: usize = order[q];
                let ghost inner = sheet@;
                let ghost f = self.task_column(l as int, i as int, t as int);
                assert(inner + flat(0, f) =~= inner);
                for s in 0..segments
                    invariant
                        l < self.input.loaders@.len(),
                        i < self.horizon(),
                        t < self.input.tasks@.len(),
                        f == self.task_column(l as int, i as int, t as int),
                        sheet@ == inner + flat(s as nat, f),
                {
                    self.declare_task(sheet, l, i, t, s);
                    assert(sheet@ =~= inner + (flat(s as nat, f) + f(s as int)));
                }
                assert(sheet@ =~= outer + (flat(q as nat, each) + each(q as int)));
            }
            assert(sheet@ =~= base + (flat(i as nat, all) + all(i as int)));
        }
    }

    pub fn find_stage_source(&self, t: usize, stage: usize) -> (r: crate::optimisation::ids::GroundId)
        requires
            t < self.input.tasks@.len(),
            stage < self.stages(t as int),
        ensures
            r == self.task(t as int).kind->sequence@[stage as int],
    {
        match &self.input.tasks[t].kind {
            crate::optimisation::input::TaskKind::Dig { sequence } => sequence[stage],
            crate::optimisation::input::TaskKind::Reclaim { .. } => crate::optimisation::ids::GroundId(0),
        }
    }

    pub fn find_block_tonnes(&self, ground: crate::optimisation::ids::GroundId) -> (r: N)
        ensures
            r == self.block_tonnes(ground),
    {
        match find_key(&self.input.ground, ground.0) {
            Some(g) => self.input.ground[g].tonnes_t,
            None => N::whole(0),
        }
    }

    // Routes, parcels and reclaiming.

    pub open spec fn dig_move_column(self) -> spec_fn(int) -> Seq<Line<N>> {
        |x: int|
            {
                let movement = self.dig_moves()[x];
                let ground = movement.source->Ground_0;
                let share = movement.column->DigMove_share as int;
                seq![
                    continuous(
                        movement.column,
                        self.block_tonnes(ground).times(self.block_shares(ground)[share].fraction),
                    ),
                ]
            }
    }

    pub open spec fn parcel_column(self) -> spec_fn(int) -> Seq<Line<N>> {
        |x: int|
            {
                let (stream, position) = (self.parcels()[x].stream, self.parcels()[x].position);
                seq![
                    continuous(ParcelColumn::Quantity { stream, position }, self.target()),
                    binary(ParcelColumn::Assigned { stream, position }),
                    binary(ParcelColumn::Remainder { stream, position }),
                ]
            }
    }

    /// What a unit can give up at once.
    pub open spec fn unit_tonnes(self, unit: UnitKey) -> N {
        match unit {
            UnitKey::Opening { pile, opening } => match keyed(self.input.stockpiles@, pile.0) {
                Some(p) => if opening < self.input.stockpiles@[p].opening@.len() {
                    self.input.stockpiles@[p].opening@[opening as int].tonnes_t
                } else {
                    N::of_whole(0)
                },
                None => N::of_whole(0),
            },
            UnitKey::Receipt { .. } => self.target(),
        }
    }

    pub open spec fn reclaim_column(self) -> spec_fn(int) -> Seq<Line<N>> {
        |x: int|
            {
                let reclaim = self.reclaims()[x];
                let (t, i) = (reclaim.task as int, reclaim.interval as int);
                if reclaim.share == 0 {
                    seq![
                        continuous(
                            reclaim.column,
                            self.unit_tonnes(reclaim.unit).lower(
                                self.task_reclaim_rate(t, i).times(self.length(i)),
                            ),
                        ),
                    ]
                } else {
                    Seq::empty()
                }
            }
    }

    pub open spec fn way_column(self, x: int) -> spec_fn(int) -> Seq<Line<N>> {
        |y: int|
            {
                let reclaim = self.reclaims()[x];
                seq![
                    continuous(
                        ParcelColumn::ReclaimMove { reclaim: x as usize, candidate: self.ways_out(reclaim)[y] },
                        self.capacity(reclaim.source),
                    ),
                ]
            }
    }

    pub open spec fn way_columns(self) -> spec_fn(int) -> Seq<Line<N>> {
        |x: int|
            {
                let reclaim = self.reclaims()[x];
                if self.is_shared(reclaim) {
                    Seq::empty()
                } else {
                    flat(self.ways_out(reclaim).len(), self.way_column(x))
                }
            }
    }

    fn declare_dig_moves(&self, sheet: &mut Sheet<N>, digs: &Vec<DigVariable>)
        requires
            digs@ == self.digs(),
            forall|x: int| 0 <= x < digs@.len() ==> self.dig_stands(#[trigger] digs@[x]),
        ensures
            final(sheet)@ == old(sheet)@ + flat(self.dig_moves().len(), self.dig_move_column()),
    {
        let moves = self.list_dig_moves(digs);
        let ghost base = sheet@;
        let ghost each = self.dig_move_column();
        assert(base + flat(0, each) =~= base);
        for x in 0..moves.len()
            invariant
                moves@ == self.dig_moves(),
                each == self.dig_move_column(),
                sheet@ == base + flat(x as nat, each),
        {
            let movement = moves[x];
            proof {
                self.dig_moves_are_digs(x as int);
            }
            if let crate::optimisation::ids::SourceId::Ground(ground) = movement.source {
                if let ParcelColumn::DigMove { task: _, interval: _, segment: _, stage: _, share, candidate: _ } =
                    movement.column {
                    if let Some(g) = find_key(&self.input.ground, ground.0) {
                        sheet.cont(
                            movement.column,
                            self.input.ground[g].tonnes_t.mul(self.input.ground[g].material[share].fraction),
                        );
                    }
                }
            }
            assert(sheet@ =~= base + (flat(x as nat, each) + each(x as int)));
        }
    }

    /// A listed route of what is dug names the share of a known block.
    proof fn dig_moves_are_digs(self, x: int)
        requires
            0 <= x < self.dig_moves().len(),
        ensures
            self.dig_moves()[x].source is Ground,
            self.dig_moves()[x].column is DigMove,
            keyed(self.input.ground@, self.dig_moves()[x].source->Ground_0.0) is Some,
            self.dig_moves()[x].column->DigMove_share < self.block_shares(self.dig_moves()[x].source->Ground_0).len(),
    {
        self.dig_moves_known(self.digs().len(), x);
    }

    proof fn dig_moves_known(self, n: nat, x: int)
        requires
            0 <= x < flat(n, self.dig_move()).len(),
        ensures
            self.names_share(flat(n, self.dig_move())[x]),
        decreases n,
    {
        let before = flat((n - 1) as nat, self.dig_move());
        if x < before.len() {
            self.dig_moves_known((n - 1) as nat, x);
        } else {
            let d = self.digs()[n - 1];
            self.shares_known(d, self.block_shares(d.source).len(), x - before.len());
        }
    }

    proof fn shares_known(self, d: DigVariable, n: nat, x: int)
        requires
            n <= self.block_shares(d.source).len(),
            0 <= x < flat(n, self.dig_share(d)).len(),
        ensures
            self.names_share(flat(n, self.dig_share(d))[x]),
        decreases n,
    {
        let before = flat((n - 1) as nat, self.dig_share(d));
        if x < before.len() {
            self.shares_known(d, (n - 1) as nat, x);
        } else {
            self.routes_known(d, n - 1, self.input.movements@.len(), x - before.len());
        }
    }

    proof fn routes_known(self, d: DigVariable, k: int, n: nat, x: int)
        requires
            0 <= k < self.block_shares(d.source).len(),
            0 <= x < flat(n, self.dig_route(d, k)).len(),
        ensures
            self.names_share(flat(n, self.dig_route(d, k))[x]),
        decreases n,
    {
        let before = flat((n - 1) as nat, self.dig_route(d, k));
        if x < before.len() {
            self.routes_known(d, k, (n - 1) as nat, x);
        } else {
            assert(self.block_shares(d.source).len() <= usize::MAX) by {
                let g = keyed(self.input.ground@, d.source.0)->0;
                assert(self.input.ground@[g].material.len() <= usize::MAX);
            }
        }
    }

    pub open spec fn names_share(self, movement: crate::optimisation::parcel::columns::MoveVariable) -> bool {
        &&& movement.source is Ground
        &&& movement.column is DigMove
        &&& keyed(self.input.ground@, movement.source->Ground_0.0) is Some
        &&& movement.column->DigMove_share < self.block_shares(movement.source->Ground_0).len()
    }

    fn declare_parcels(&self, sheet: &mut Sheet<N>, parcels: &Vec<ParcelVariable>)
        requires
            parcels@ == self.parcels(),
        ensures
            final(sheet)@ == old(sheet)@ + flat(self.parcels().len(), self.parcel_column()),
    {
        let ghost base = sheet@;
        let ghost each = self.parcel_column();
        assert(base + flat(0, each) =~= base);
        for x in 0..parcels.len()
            invariant
                parcels@ == self.parcels(),
                each == self.parcel_column(),
                sheet@ == base + flat(x as nat, each),
        {
            let stream = parcels[x].stream;
            let position: usize = parcels[x].position;
            sheet.cont(ParcelColumn::Quantity { stream, position }, self.input.horizon.parcel_target_t);
            sheet.binary(ParcelColumn::Assigned { stream, position });
            sheet.binary(ParcelColumn::Remainder { stream, position });
            assert(sheet@ =~= base + (flat(x as nat, each) + each(x as int)));
        }
    }

    pub fn find_unit_tonnes(&self, unit: UnitKey) -> (r: N)
        ensures
            r == self.unit_tonnes(unit),
    {
        match unit {
            UnitKey::Opening { pile, opening } => match find_key(&self.input.stockpiles, pile.0) {
                Some(p) => if opening < self.input.stockpiles[p].opening.len() {
                    self.input.stockpiles[p].opening[opening].tonnes_t
                } else {
                    N::whole(0)
                },
                None => N::whole(0),
            },
            UnitKey::Receipt { .. } => self.input.horizon.parcel_target_t,
        }
    }

    fn declare_reclaims(&self, sheet: &mut Sheet<N>, reclaims: &Vec<ReclaimVariable<N>>)
        requires
            reclaims@ == self.reclaims(),
            forall|x: int| 0 <= x < reclaims@.len() ==> self.reclaim_stands(#[trigger] reclaims@[x]),
        ensures
            final(sheet)@ == old(sheet)@ + flat(self.reclaims().len(), self.reclaim_column()) + flat(
                self.reclaims().len(),
                self.way_columns(),
            ),
    {
        let ghost base = sheet@;
        let ghost each = self.reclaim_column();
        assert(base + flat(0, each) =~= base);
        for x in 0..reclaims.len()
            invariant
                reclaims@ == self.reclaims(),
                forall|x: int| 0 <= x < reclaims@.len() ==> self.reclaim_stands(#[trigger] reclaims@[x]),
                each == self.reclaim_column(),
                sheet@ == base + flat(x as nat, each),
        {
            let reclaim = reclaims[x];
            if reclaim.share == 0 {
                let most = self.find_task_reclaim_rate(reclaim.task, reclaim.interval).mul(
                    self.input.intervals[reclaim.interval].duration_h(),
                );
                sheet.cont(reclaim.column, self.find_unit_tonnes(reclaim.unit).smaller(most));
            }
            assert(sheet@ =~= base + (flat(x as nat, each) + each(x as int)));
        }
        let ghost middle = sheet@;
        let ghost all = self.way_columns();
        assert(middle + flat(0, all) =~= middle);
        for x in 0..reclaims.len()
            invariant
                reclaims@ == self.reclaims(),
                forall|x: int| 0 <= x < reclaims@.len() ==> self.reclaim_stands(#[trigger] reclaims@[x]),
                all == self.way_columns(),
                sheet@ == middle + flat(x as nat, all),
        {
            let reclaim = reclaims[x];
            let ways = self.find_ways_out(reclaim);
            if !(ways.len() == 1 && reclaim.fraction.is_same(N::whole(1))) {
                let upper = self.find_capacity(reclaim.source);
                let ghost inner = sheet@;
                let ghost f = self.way_column(x as int);
                assert(inner + flat(0, f) =~= inner);
                for y in 0..ways.len()
                    invariant
                        reclaims@ == self.reclaims(),
                        x < reclaims@.len(),
                        reclaim == reclaims@[x as int],
                        ways@ == self.ways_out(reclaim),
                        upper == self.capacity(reclaim.source),
                        f == self.way_column(x as int),
                        sheet@ == inner + flat(y as nat, f),
                {
                    sheet.cont(ParcelColumn::ReclaimMove { reclaim: x, candidate: ways[y] }, upper);
                    assert(sheet@ =~= inner + (flat(y as nat, f) + f(y as int)));
                }
            }
            assert(sheet@ =~= middle + (flat(x as nat, all) + all(x as int)));
        }
    }

    // Positions filled, units, piles.

    pub open spec fn occupied(self, group: Group, count: int) -> ParcelColumn {
        ParcelColumn::OccupiedCount {
            pile: group.pile,
            interval: group.interval,
            segment: group.segment,
            count: count as usize,
        }
    }

    pub open spec fn occupied_column(self, group: Group) -> spec_fn(int) -> Seq<Line<N>> {
        |count: int| seq![binary(self.occupied(group, count))]
    }

    pub open spec fn occupied_columns(self) -> spec_fn(int) -> Seq<Line<N>> {
        |x: int| flat(self.groups()[x].positions as nat + 1, self.occupied_column(self.groups()[x]))
    }

    pub open spec fn unit_start(self, unit: UnitKey, i: int, s: int) -> ParcelColumn {
        ParcelColumn::UnitStart { unit, interval: i as usize, segment: s as usize }
    }

    pub open spec fn unit_empty(self, unit: UnitKey, i: int, s: int) -> ParcelColumn {
        ParcelColumn::UnitEmpty { unit, interval: i as usize, segment: s as usize }
    }

    pub open spec fn unit_chain(self, unit: UnitKey, i: int, s: int) -> ParcelColumn {
        ParcelColumn::UnitChain { unit, interval: i as usize, segment: s as usize }
    }

    pub open spec fn closing(self, pile: StockpileId, i: int, s: int) -> ParcelColumn {
        ParcelColumn::PileClosing { pile, interval: i as usize, segment: s as usize }
    }

    pub open spec fn pile_available(self, pile: StockpileId, i: int, s: int) -> ParcelColumn {
        ParcelColumn::PileAvailable { pile, interval: i as usize, segment: s as usize }
    }

    pub open spec fn chain_end(self, pile: StockpileId, i: int, s: int) -> ParcelColumn {
        ParcelColumn::ChainEnd { pile, interval: i as usize, segment: s as usize }
    }

    pub open spec fn unit_cell_column(self, unit: UnitKey, bound: N, i: int) -> spec_fn(int) -> Seq<Line<N>> {
        |s: int|
            seq![
                continuous(self.unit_start(unit, i, s), bound),
                binary(self.unit_empty(unit, i, s)),
                binary(self.unit_chain(unit, i, s)),
            ]
    }

    pub open spec fn unit_interval_columns(self, unit: UnitKey, bound: N) -> spec_fn(int) -> Seq<Line<N>> {
        |i: int|
            if self.released(unit, i) {
                flat(self.segments(i), self.unit_cell_column(unit, bound, i))
            } else {
                Seq::empty()
            }
    }

    pub open spec fn unit_columns(self, p: int) -> spec_fn(int) -> Seq<Line<N>> {
        |u: int|
            {
                let unit = self.units(p)[u];
                flat(self.horizon(), self.unit_interval_columns(unit, self.unit_bound(p, unit)))
            }
    }

    pub open spec fn pile_cell_column(self, p: int, i: int) -> spec_fn(int) -> Seq<Line<N>> {
        |s: int|
            {
                let pile = self.input.stockpiles@[p];
                seq![
                    continuous(self.closing(pile.id, i, s), pile.capacity_t),
                    binary(self.pile_available(pile.id, i, s)),
                    binary(self.chain_end(pile.id, i, s)),
                ]
            }
    }

    pub open spec fn pile_interval_columns(self, p: int) -> spec_fn(int) -> Seq<Line<N>> {
        |i: int| flat(self.segments(i), self.pile_cell_column(p, i))
    }

    pub open spec fn pile_columns(self) -> spec_fn(int) -> Seq<Line<N>> {
        |p: int|
            (if self.reclaimable(self.input.stockpiles@[p].id) {
                flat(self.units(p).len(), self.unit_columns(p))
            } else {
                Seq::empty()
            }) + flat(self.horizon(), self.pile_interval_columns(p))
    }

    fn declare_occupied(&self, sheet: &mut Sheet<N>, groups: &Vec<Group>)
        requires
            groups@ == self.groups(),
        ensures
            final(sheet)@ == old(sheet)@ + flat(self.groups().len(), self.occupied_columns()),
    {
        let ghost base = sheet@;
        let ghost all = self.occupied_columns();
        assert(base + flat(0, all) =~= base);
        for x in 0..groups.len()
            invariant
                groups@ == self.groups(),
                all == self.occupied_columns(),
                sheet@ == base + flat(x as nat, all),
        {
            let group = groups[x];
            let ghost inner = sheet@;
            let ghost f = self.occupied_column(group);
            assert(inner + flat(0, f) =~= inner);
            for count in 0..group.positions
                invariant
                    f == self.occupied_column(group),
                    sheet@ == inner + flat(count as nat, f),
            {
                sheet.binary(
                    ParcelColumn::OccupiedCount {
                        pile: group.pile,
                        interval: group.interval,
                        segment: group.segment,
                        count,
                    },
                );
                assert(sheet@ =~= inner + (flat(count as nat, f) + f(count as int)));
            }
            sheet.binary(
                ParcelColumn::OccupiedCount {
                    pile: group.pile,
                    interval: group.interval,
                    segment: group.segment,
                    count: group.positions,
                },
            );
            assert(flat(group.positions as nat + 1, f) == flat(group.positions as nat, f) + f(group.positions as int));
            assert(sheet@ =~= base + (flat(x as nat, all) + all(x as int)));
        }
    }

    fn declare_unit(&self, sheet: &mut Sheet<N>, unit: UnitKey, bound: N)
        requires
            self.ready(),
        ensures
            final(sheet)@ == old(sheet)@ + flat(self.horizon(), self.unit_interval_columns(unit, bound)),
    {
        let ghost base = sheet@;
        let ghost each = self.unit_interval_columns(unit, bound);
        assert(base + flat(0, each) =~= base);
        for i in 0..self.input.intervals.len()
            invariant
                self.ready(),
                each == self.unit_interval_columns(unit, bound),
                sheet@ == base + flat(i as nat, each),
        {
            if self.is_released(unit, i) {
                let segments: usize = self.budgets[i];
                let ghost inner = sheet@;
                let ghost f = self.unit_cell_column(unit, bound, i as int);
                assert(inner + flat(0, f) =~= inner);
                for s in 0..segments
                    invariant
                        f == self.unit_cell_column(unit, bound, i as int),
                        sheet@ == inner + flat(s as nat, f),
                {
                    sheet.cont(ParcelColumn::UnitStart { unit, interval: i, segment: s }, bound);
                    sheet.binary(ParcelColumn::UnitEmpty { unit, interval: i, segment: s });
                    sheet.binary(ParcelColumn::UnitChain { unit, interval: i, segment: s });
                    assert(sheet@ =~= inner + (flat(s as nat, f) + f(s as int)));
                }
            }
            assert(sheet@ =~= base + (flat(i as nat, each) + each(i as int)));
        }
    }

    fn declare_pile(&self, sheet: &mut Sheet<N>, p: usize, lists: &Lists<N>)
        requires
            self.ready(),
            self.listed(*lists),
            p < self.input.stockpiles@.len(),
        ensures
            final(sheet)@ == old(sheet)@ + self.pile_columns()(p as int),
    {
        let pile = &self.input.stockpiles[p];
        let ghost base = sheet@;
        if self.is_reclaimable(&lists.reclaims, pile.id) {
            let units = self.find_units(&lists.groups, p);
            let ghost each = self.unit_columns(p as int);
            assert(base + flat(0, each) =~= base);
            for u in 0..units.len()
                invariant
                    self.ready(),
                    p < self.input.stockpiles@.len(),
                    units@ == self.units(p as int),
                    forall|x: int| 0 <= x < units@.len() ==> self.unit_stands(p as int, #[trigger] units@[x]),
                    each == self.unit_columns(p as int),
                    sheet@ == base + flat(u as nat, each),
            {
                let bound = self.find_unit_bound(p, units[u]);
                self.declare_unit(sheet, units[u], bound);
                assert(sheet@ =~= base + (flat(u as nat, each) + each(u as int)));
            }
        }
        let ghost middle = sheet@;
        let ghost all = self.pile_interval_columns(p as int);
        assert(middle + flat(0, all) =~= middle);
        for i in 0..self.input.intervals.len()
            invariant
                self.ready(),
                p < self.input.stockpiles@.len(),
                pile == self.input.stockpiles@[p as int],
                all == self.pile_interval_columns(p as int),
                sheet@ == middle + flat(i as nat, all),
        {
            let segments: usize = self.budgets[i];
            let ghost inner = sheet@;
            let ghost f = self.pile_cell_column(p as int, i as int);
            assert(inner + flat(0, f) =~= inner);
            for s in 0..segments
                invariant
                    p < self.input.stockpiles@.len(),
                    pile == self.input.stockpiles@[p as int],
                    f == self.pile_cell_column(p as int, i as int),
                    sheet@ == inner + flat(s as nat, f),
            {
                sheet.cont(ParcelColumn::PileClosing { pile: pile.id, interval: i, segment: s }, pile.capacity_t);
                sheet.binary(ParcelColumn::PileAvailable { pile: pile.id, interval: i, segment: s });
                sheet.binary(ParcelColumn::ChainEnd { pile: pile.id, interval: i, segment: s });
                assert(sheet@ =~= inner + (flat(s as nat, f) + f(s as int)));
            }
            assert(sheet@ =~= middle + (flat(i as nat, all) + all(i as int)));
        }
        assert(sheet@ =~= base + self.pile_columns()(p as int));
    }

    // Destinations and somewhere to go.

    pub open spec fn room(self, d: int, i: int, s: int) -> ParcelColumn {
        ParcelColumn::DestinationRemaining {
            destination: self.input.destinations@[d].id,
            interval: i as usize,
            segment: s as usize,
        }
    }

    pub open spec fn takes(self, d: int, i: int, s: int) -> ParcelColumn {
        ParcelColumn::DestinationAvailable {
            destination: self.input.destinations@[d].id,
            interval: i as usize,
            segment: s as usize,
        }
    }

    /// The most that a destination can take from an interval on.
    pub open spec fn most_taken(self, destination: Destination<N>, i: int) -> N {
        match (match destination.kind {
            DestinationKind::Crusher => daily_limit(destination, self.interval(i).calendar_day()),
            _ => destination.capacity_t,
        }) {
            Some(limit) => limit,
            None => self.material_bound(),
        }
    }

    pub fn find_most_taken(&self, d: usize, i: usize, bound: N) -> (r: N)
        requires
            d < self.input.destinations@.len(),
            i < self.horizon(),
            bound == self.material_bound(),
        ensures
            r == self.most_taken(self.input.destinations@[d as int], i as int),
    {
        let destination = &self.input.destinations[d];
        let limit: Option<N> = match destination.kind {
            DestinationKind::Crusher => limit_on(destination, self.input.intervals[i].day()),
            _ => destination.capacity_t,
        };
        match limit {
            Some(limit) => limit,
            None => bound,
        }
    }

    pub open spec fn destination_cell_column(self, d: int, i: int) -> spec_fn(int) -> Seq<Line<N>> {
        |s: int|
            seq![
                continuous(self.room(d, i, s), self.most_taken(self.input.destinations@[d], i)),
                binary(self.takes(d, i, s)),
            ]
    }

    pub open spec fn destination_interval_columns(self, d: int) -> spec_fn(int) -> Seq<Line<N>> {
        |i: int| flat(self.segments(i), self.destination_cell_column(d, i))
    }

    pub open spec fn destination_columns(self) -> spec_fn(int) -> Seq<Line<N>> {
        |d: int| flat(self.horizon(), self.destination_interval_columns(d))
    }

    fn declare_destination(&self, sheet: &mut Sheet<N>, d: usize, bound: N)
        requires
            self.ready(),
            d < self.input.destinations@.len(),
            bound == self.material_bound(),
        ensures
            final(sheet)@ == old(sheet)@ + self.destination_columns()(d as int),
    {
        let destination = self.input.destinations[d].id;
        let ghost base = sheet@;
        let ghost each = self.destination_interval_columns(d as int);
        assert(base + flat(0, each) =~= base);
        for i in 0..self.input.intervals.len()
            invariant
                self.ready(),
                d < self.input.destinations@.len(),
                destination == self.input.destinations@[d as int].id,
                bound == self.material_bound(),
                each == self.destination_interval_columns(d as int),
                sheet@ == base + flat(i as nat, each),
        {
            let segments: usize = self.budgets[i];
            let upper = self.find_most_taken(d, i, bound);
            let ghost inner = sheet@;
            let ghost f = self.destination_cell_column(d as int, i as int);
            assert(inner + flat(0, f) =~= inner);
            for s in 0..segments
                invariant
                    destination == self.input.destinations@[d as int].id,
                    upper == self.most_taken(self.input.destinations@[d as int], i as int),
                    f == self.destination_cell_column(d as int, i as int),
                    sheet@ == inner + flat(s as nat, f),
            {
                sheet.cont(ParcelColumn::DestinationRemaining { destination, interval: i, segment: s }, upper);
                sheet.binary(ParcelColumn::DestinationAvailable { destination, interval: i, segment: s });
                assert(sheet@ =~= inner + (flat(s as nat, f) + f(s as int)));
            }
            assert(sheet@ =~= base + (flat(i as nat, each) + each(i as int)));
        }
    }

    pub open spec fn route_available(self, dig: DigVariable, k: int) -> ParcelColumn {
        ParcelColumn::RouteAvailable {
            task: dig.task,
            interval: dig.interval,
            segment: dig.segment,
            stage: dig.stage,
            material: self.block_shares(dig.source)[k].material,
        }
    }

    pub open spec fn route_column(self, dig: DigVariable) -> spec_fn(int) -> Seq<Line<N>> {
        |k: int| seq![binary(self.route_available(dig, k))]
    }

    pub open spec fn route_columns(self) -> spec_fn(int) -> Seq<Line<N>> {
        |x: int| flat(self.block_shares(self.digs()[x].source).len(), self.route_column(self.digs()[x]))
    }

    fn declare_routes(&self, sheet: &mut Sheet<N>, digs: &Vec<DigVariable>)
        requires
            digs@ == self.digs(),
        ensures
            final(sheet)@ == old(sheet)@ + flat(self.digs().len(), self.route_columns()),
    {
        let ghost base = sheet@;
        let ghost all = self.route_columns();
        assert(base + flat(0, all) =~= base);
        for x in 0..digs.len()
            invariant
                digs@ == self.digs(),
                all == self.route_columns(),
                sheet@ == base + flat(x as nat, all),
        {
            let dig = digs[x];
            let ghost inner = sheet@;
            let ghost f = self.route_column(dig);
            assert(inner + flat(0, f) =~= inner);
            if let Some(g) = find_key(&self.input.ground, dig.source.0) {
                let shares = &self.input.ground[g].material;
                for k in 0..shares.len()
                    invariant
                        shares@ == self.block_shares(dig.source),
                        f == self.route_column(dig),
                        sheet@ == inner + flat(k as nat, f),
                {
                    sheet.binary(
                        ParcelColumn::RouteAvailable {
                            task: dig.task,
                            interval: dig.interval,
                            segment: dig.segment,
                            stage: dig.stage,
                            material: shares[k].material,
                        },
                    );
                    assert(sheet@ =~= inner + (flat(k as nat, f) + f(k as int)));
                }
            }
            assert(sheet@ =~= base + (flat(x as nat, all) + all(x as int)));
        }
    }

    /// Every column.
    pub open spec fn column_lines(self) -> Seq<Line<N>> {
        flat(self.horizon(), self.duration_columns()) + flat(self.input.ground@.len(), self.ground_columns()) + flat(
            self.input.loaders@.len(),
            self.loader_columns(),
        ) + flat(self.dig_moves().len(), self.dig_move_column()) + flat(self.parcels().len(), self.parcel_column())
            + flat(self.reclaims().len(), self.reclaim_column()) + flat(self.reclaims().len(), self.way_columns())
            + flat(self.groups().len(), self.occupied_columns()) + flat(
            self.input.stockpiles@.len(),
            self.pile_columns(),
        ) + flat(self.input.destinations@.len(), self.destination_columns()) + flat(
            self.digs().len(),
            self.route_columns(),
        )
    }

    /// Declares every column.
    #[verifier::rlimit(60)]
    pub fn declare(&self, sheet: &mut Sheet<N>, lists: &Lists<N>)
        requires
            self.ready(),
            self.listed(*lists),
        ensures
            final(sheet)@ == old(sheet)@ + self.column_lines(),
    {
        let ghost base = sheet@;
        self.declare_durations(sheet);
        self.declare_ground(sheet);
        let ghost first = sheet@;
        let ghost loaders = self.loader_columns();
        assert(first + flat(0, loaders) =~= first);
        for l in 0..self.input.loaders.len()
            invariant
                self.ready(),
                loaders == self.loader_columns(),
                sheet@ == first + flat(l as nat, loaders),
        {
            self.declare_loader(sheet, l);
            assert(sheet@ =~= first + (flat(l as nat, loaders) + loaders(l as int)));
        }
        self.declare_dig_moves(sheet, &lists.digs);
        self.declare_parcels(sheet, &lists.parcels);
        self.declare_reclaims(sheet, &lists.reclaims);
        self.declare_occupied(sheet, &lists.groups);
        let ghost second = sheet@;
        let ghost piles = self.pile_columns();
        assert(second + flat(0, piles) =~= second);
        for p in 0..self.input.stockpiles.len()
            invariant
                self.ready(),
                self.listed(*lists),
                piles == self.pile_columns(),
                sheet@ == second + flat(p as nat, piles),
        {
            self.declare_pile(sheet, p, lists);
            assert(sheet@ =~= second + (flat(p as nat, piles) + piles(p as int)));
        }
        let bound = self.find_material_bound();
        let ghost third = sheet@;
        let ghost ends = self.destination_columns();
        assert(third + flat(0, ends) =~= third);
        for d in 0..self.input.destinations.len()
            invariant
                self.ready(),
                bound == self.material_bound(),
                ends == self.destination_columns(),
                sheet@ == third + flat(d as nat, ends),
        {
            self.declare_destination(sheet, d, bound);
            assert(sheet@ =~= third + (flat(d as nat, ends) + ends(d as int)));
        }
        self.declare_routes(sheet, &lists.digs);
        assert(sheet@ =~= base + self.column_lines());
    }
}

} // verus!
