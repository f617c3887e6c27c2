//! The rows of time, blocks, destinations and routes.
use vstd::prelude::*;

use crate::ledger::{put_under, Ledger};
use crate::listing::{find_key, flat, folded, keyed};
use crate::optimisation::ids::{Activity, DestinationId, DestinationKind, LoaderId, MaterialId, SourceId, StockpileId};
use crate::optimisation::input::{daily_limit, limit_on, opening_total, total_opening, Destination, MaterialShare};
use crate::optimisation::parcel::base::{dust, find_dust, Parcels};
use crate::optimisation::parcel::columns::{DigVariable, MoveVariable, ParcelColumn};
use crate::optimisation::parcel::declare::{Line, Sheet};
use crate::optimisation::parcel::lists::Lists;
use crate::optimisation::parcel::select::{DigSelector, MoveSelector};
use crate::optimisation::sheet::{
    at_least_row, at_most_row, equal_row, less_one, nil, one, term, terms_of,
};
use crate::scalar::Scalar;

verus! {

impl<'a, N: Scalar> Parcels<'a, N> {
    // Time.

    pub open spec fn clock_terms(self, i: int) -> Seq<(ParcelColumn, N)> {
        Seq::new(self.segments(i), |s: int| (self.duration(i, s), one::<N>()))
    }

    pub open spec fn clock_line(self) -> spec_fn(int) -> Seq<Line<N>> {
        |i: int| seq![equal_row(self.clock_terms(i), self.length(i))]
    }

    fn write_clock(&self, sheet: &mut Sheet<N>)
        requires
            self.ready(),
        ensures
            final(sheet)@ == old(sheet)@ + flat(self.horizon(), self.clock_line()),
    {
        let ghost base = sheet@;
        let ghost each = self.clock_line();
        assert(base + flat(0, each) =~= base);
        for i in 0..self.input.intervals.len()
            invariant
                self.ready(),
                each == self.clock_line(),
                sheet@ == base + flat(i as nat, each),
        {
            let segments: usize = self.budgets[i];
            let mut terms: Vec<(ParcelColumn, N)> = Vec::new();
            for s in 0..segments
                invariant
                    segments == self.segments(i as int),
                    terms@ =~= self.clock_terms(i as int).take(s as int),
            {
                terms.push((ParcelColumn::Duration { interval: i, segment: s }, N::whole(1)));
            }
            assert(terms@ =~= self.clock_terms(i as int));
            sheet.eq(terms, self.input.intervals[i].duration_h());
            assert(sheet@ =~= base + (flat(i as nat, each) + each(i as int)));
        }
    }

    // Blocks.

    /// How much of a block must be dug before it is used up.
    pub open spec fn used_up(self, g: int) -> N {
        self.input.ground@[g].tonnes_t.minus(dust(*self.input)).upper(N::of_whole(0))
    }

    /// How much of a block must be left while it is not used up.
    pub open spec fn still_there(self, g: int) -> N {
        dust(*self.input).lower(self.input.ground@[g].tonnes_t.over(N::of_whole(2))).upper(
            self.input.horizon.tolerances.tonnes_t,
        )
    }

    pub open spec fn ground_line(self, g: int, i: int) -> spec_fn(int) -> Seq<Line<N>> {
        |s: int|
            {
                let ground = self.input.ground@[g];
                let left = self.remaining(g, i, s);
                let done = self.done(g, i, s);
                let here = self.dig_terms(
                    DigSelector::OfCell { ground: ground.id, interval: i as usize, segment: s as usize },
                    one::<N>(),
                );
                match self.cell_before(i, s) {
                    None => seq![
                        equal_row(seq![(left, one::<N>())] + here, ground.tonnes_t),
                        at_least_row(
                            seq![(done, self.used_up(g).opposite())],
                            ground.tonnes_t.minus(ground.tonnes_t),
                        ),
                        at_least_row(
                            seq![(done, self.still_there(g))],
                            self.still_there(g).minus(ground.tonnes_t),
                        ),
                    ],
                    Some(cell) => {
                        let prior = self.remaining(g, cell.0, cell.1);
                        seq![
                            equal_row(seq![(left, one::<N>()), (prior, less_one::<N>())] + here, nil::<N>()),
                            at_least_row(
                                seq![(prior, less_one::<N>()), (done, self.used_up(g).opposite())],
                                ground.tonnes_t.opposite(),
                            ),
                            at_least_row(
                                seq![(prior, one::<N>()), (done, self.still_there(g))],
                                self.still_there(g),
                            ),
                        ]
                    },
                }
            }
    }

    pub open spec fn ground_interval_lines(self, g: int) -> spec_fn(int) -> Seq<Line<N>> {
        |i: int| flat(self.segments(i), self.ground_line(g, i))
    }

    pub open spec fn ground_lines(self) -> spec_fn(int) -> Seq<Line<N>> {
        |g: int|
            {
                let ground = self.input.ground@[g];
                flat(self.horizon(), self.ground_interval_lines(g)) + seq![
                    at_most_row(
                        self.dig_terms(DigSelector::OfGround { ground: ground.id }, one::<N>()),
                        ground.tonnes_t,
                    ),
                ]
            }
    }

    fn write_ground_cell(&self, sheet: &mut Sheet<N>, g: usize, i: usize, s: usize, digs: &Vec<DigVariable>)
        requires
            self.ready(),
            g < self.input.ground@.len(),
            i < self.horizon(),
            s < self.segments(i as int),
            digs@ == self.digs(),
        ensures
            final(sheet)@ == old(sheet)@ + self.ground_line(g as int, i as int)(s as int),
    {
        let ghost base = sheet@;
        let ground = &self.input.ground[g];
        let dust = find_dust(self.input);
        let used_up = ground.tonnes_t.sub(dust).larger(N::whole(0));
        let still_there = dust.smaller(ground.tonnes_t.div(N::whole(2))).larger(
            self.input.horizon.tolerances.tonnes_t,
        );
        let left = ParcelColumn::GroundRemaining { ground: ground.id, interval: i, segment: s };
        let done = ParcelColumn::GroundDone { ground: ground.id, interval: i, segment: s };
        let here = DigSelector::OfCell { ground: ground.id, interval: i, segment: s };
        match self.find_cell_before(i, s) {
            None => {
                let mut terms = term(left, N::whole(1));
                self.add_digs(&mut terms, digs, here, N::whole(1));
                sheet.eq(terms, ground.tonnes_t);
                sheet.geq(term(done, used_up.neg()), ground.tonnes_t.sub(ground.tonnes_t));
                sheet.geq(term(done, still_there), still_there.sub(ground.tonnes_t));
            },
            Some(cell) => {
                let prior = ParcelColumn::GroundRemaining { ground: ground.id, interval: cell.0, segment: cell.1 };
                let mut terms = terms_of(left, N::whole(1), prior, N::whole(1).neg());
                self.add_digs(&mut terms, digs, here, N::whole(1));
                sheet.eq(terms, N::whole(0));
                sheet.geq(terms_of(prior, N::whole(1).neg(), done, used_up.neg()), ground.tonnes_t.neg());
                sheet.geq(terms_of(prior, N::whole(1), done, still_there), still_there);
            },
        }
        assert(sheet@ =~= base + self.ground_line(g as int, i as int)(s as int));
    }

    fn write_ground(&self, sheet: &mut Sheet<N>, g: usize, digs: &Vec<DigVariable>)
        requires
            self.ready(),
            g < self.input.ground@.len(),
            digs@ == self.digs(),
        ensures
            final(sheet)@ == old(sheet)@ + self.ground_lines()(g as int),
    {
        let ghost base = sheet@;
        let ghost each = self.ground_interval_lines(g as int);
        assert(base + flat(0, each) =~= base);
        for i in 0..self.input.intervals.len()
            invariant
                self.ready(),
                g < self.input.ground@.len(),
                digs@ == self.digs(),
                each == self.ground_interval_lines(g as int),
                sheet@ == base + flat(i as nat, each),
        {
            let segments: usize = self.budgets[i];
            let ghost inner = sheet@;
            let ghost f = self.ground_line(g as int, i as int);
            assert(inner + flat(0, f) =~= inner);
            for s in 0..segments
                invariant
                    self.ready(),
                    g < self.input.ground@.len(),
                    i < self.horizon(),
                    segments == self.segments(i as int),
                    digs@ == self.digs(),
                    f == self.ground_line(g as int, i as int),
                    sheet@ == inner + flat(s as nat, f),
            {
                self.write_ground_cell(sheet, g, i, s, digs);
                assert(sheet@ =~= inner + (flat(s as nat, f) + f(s as int)));
            }
            assert(sheet@ =~= base + (flat(i as nat, each) + each(i as int)));
        }
        let mut terms: Vec<(ParcelColumn, N)> = Vec::new();
        self.add_digs(&mut terms, digs, DigSelector::OfGround { ground: self.input.ground[g].id }, N::whole(1));
        assert(terms@ =~= self.dig_terms(
            DigSelector::OfGround { ground: self.input.ground@[g as int].id },
            one::<N>(),
        ));
        sheet.leq(terms, self.input.ground[g].tonnes_t);
        assert(sheet@ =~= base + self.ground_lines()(g as int));
    }

    // Destinations.

    /// A destination takes any amount in an interval.
    pub open spec fn unlimited(self, destination: Destination<N>, i: int) -> bool {
        match destination.kind {
            DestinationKind::Crusher => daily_limit(destination, self.interval(i).calendar_day()) is None,
            DestinationKind::Dump => destination.capacity_t is None,
            DestinationKind::Stockpile(_) => false,
        }
    }

    /// What a destination holds when it takes no more.
    pub open spec fn full(self, destination: Destination<N>, i: int) -> N {
        match destination.kind {
            DestinationKind::Stockpile(pile) => self.capacity(pile),
            _ => self.most_taken(destination, i),
        }
    }

    pub open spec fn pile_opening(self, pile: StockpileId) -> N {
        match keyed(self.input.stockpiles@, pile.0) {
            Some(p) => opening_total(self.input.stockpiles@[p].opening@),
            None => N::of_whole(0),
        }
    }

    /// What a crusher or a dump has left carries over from a cell.
    pub open spec fn carries(self, destination: Destination<N>, from: int, to: int) -> bool {
        destination.kind is Crusher ==> self.interval(from).calendar_day() == self.interval(to).calendar_day()
    }

    /// The room that a destination has left.
    pub open spec fn room_line(self, d: int, i: int, s: int) -> Line<N> {
        let destination = self.input.destinations@[d];
        let full = self.full(destination, i);
        let room = self.room(d, i, s);
        match destination.kind {
            DestinationKind::Stockpile(pile) => match self.cell_before(i, s) {
                None => equal_row(seq![(room, one::<N>())], full.minus(self.pile_opening(pile))),
                Some(cell) => equal_row(
                    seq![(room, one::<N>()), (self.closing(pile, cell.0, cell.1), one::<N>())],
                    full,
                ),
            },
            _ => match self.cell_before(i, s) {
                Some(cell) => if self.carries(destination, cell.0, i) {
                    equal_row(
                        seq![(room, one::<N>()), (self.room(d, cell.0, cell.1), less_one::<N>())] + self.move_terms(
                            MoveSelector::To {
                                destination: destination.id,
                                interval: cell.0 as usize,
                                segment: cell.1 as usize,
                            },
                            one::<N>(),
                        ),
                        nil::<N>(),
                    )
                } else {
                    equal_row(seq![(room, one::<N>())], full)
                },
                None => equal_row(seq![(room, one::<N>())], full),
            },
        }
    }

    pub open spec fn destination_line(self, d: int, i: int) -> spec_fn(int) -> Seq<Line<N>> {
        |s: int|
            {
                let destination = self.input.destinations@[d];
                let full = self.full(destination, i);
                let (room, takes) = (self.room(d, i, s), self.takes(d, i, s));
                if self.unlimited(destination, i) {
                    seq![
                        equal_row(seq![(takes, one::<N>())], one::<N>()),
                        equal_row(seq![(room, one::<N>())], full),
                    ]
                } else {
                    seq![
                        self.room_line(d, i, s),
                        at_most_row(seq![(room, one::<N>()), (takes, full.opposite())], nil::<N>()),
                        at_least_row(
                            seq![
                                (room, one::<N>()),
                                (takes, self.input.horizon.tolerances.tonnes_t.opposite()),
                            ],
                            nil::<N>(),
                        ),
                    ]
                }
            }
    }

    pub open spec fn destination_interval_lines(self, d: int) -> spec_fn(int) -> Seq<Line<N>> {
        |i: int| flat(self.segments(i), self.destination_line(d, i))
    }

    pub open spec fn destination_lines(self) -> spec_fn(int) -> Seq<Line<N>> {
        |d: int| flat(self.horizon(), self.destination_interval_lines(d))
    }

    pub fn is_unlimited(&self, d: usize, i: usize) -> (r: bool)
        requires
            d < self.input.destinations@.len(),
            i < self.horizon(),
        ensures
            r == self.unlimited(self.input.destinations@[d as int], i as int),
    {
        let destination = &self.input.destinations[d];
        match destination.kind {
            DestinationKind::Crusher => limit_on(destination, self.input.intervals[i].day()).is_none(),
            DestinationKind::Dump => destination.capacity_t.is_none(),
            DestinationKind::Stockpile(_) => false,
        }
    }

    fn find_full(&self, d: usize, i: usize, bound: N) -> (r: N)
        requires
            d < self.input.destinations@.len(),
            i < self.horizon(),
            bound == self.material_bound(),
        ensures
            r == self.full(self.input.destinations@[d as int], i as int),
    {
        match self.input.destinations[d].kind {
            DestinationKind::Stockpile(pile) => self.find_capacity(pile),
            _ => self.find_most_taken(d, i, bound),
        }
    }

    pub fn find_pile_opening(&self, pile: StockpileId) -> (r: N)
        ensures
            r == self.pile_opening(pile),
    {
        match find_key(&self.input.stockpiles, pile.0) {
            Some(p) => total_opening(&self.input.stockpiles[p].opening),
            None => N::whole(0),
        }
    }

    fn does_carry(&self, d: usize, from: usize, to: usize) -> (r: bool)
        requires
            d < self.input.destinations@.len(),
            from < self.horizon(),
            to < self.horizon(),
        ensures
            r == self.carries(self.input.destinations@[d as int], from as int, to as int),
    {
        match self.input.destinations[d].kind {
            DestinationKind::Crusher => self.input.intervals[from].day() == self.input.intervals[to].day(),
            _ => true,
        }
    }

    fn write_room(&self, sheet: &mut Sheet<N>, d: usize, i: usize, s: usize, full: N, moves: &Vec<MoveVariable>)
        requires
            self.ready(),
            d < self.input.destinations@.len(),
            i < self.horizon(),
            s < self.segments(i as int),
            full == self.full(self.input.destinations@[d as int], i as int),
            moves@ == self.moves(),
            forall|x: int| 0 <= x < moves@.len() ==> self.move_stands(#[trigger] moves@[x]),
        ensures
            final(sheet)@ == old(sheet)@.push(self.room_line(d as int, i as int, s as int)),
    {
        let destination = self.input.destinations[d].id;
        let room = ParcelColumn::DestinationRemaining { destination, interval: i, segment: s };
        let before = self.find_cell_before(i, s);
        match self.input.destinations[d].kind {
            DestinationKind::Stockpile(pile) => match before {
                None => {
                    sheet.eq(term(room, N::whole(1)), full.sub(self.find_pile_opening(pile)));
                },
                Some(cell) => {
                    let closing = ParcelColumn::PileClosing { pile, interval: cell.0, segment: cell.1 };
                    sheet.eq(terms_of(room, N::whole(1), closing, N::whole(1)), full);
                },
            },
            _ => match before {
                Some(cell) => {
                    if self.does_carry(d, cell.0, i) {
                        let prior = ParcelColumn::DestinationRemaining {
                            destination,
                            interval: cell.0,
                            segment: cell.1,
                        };
                        let mut terms = terms_of(room, N::whole(1), prior, N::whole(1).neg());
                        self.add_moves(
                            &mut terms,
                            moves,
                            MoveSelector::To { destination, interval: cell.0, segment: cell.1 },
                            N::whole(1),
                        );
                        sheet.eq(terms, N::whole(0));
                    } else {
                        sheet.eq(term(room, N::whole(1)), full);
                    }
                },
                None => {
                    sheet.eq(term(room, N::whole(1)), full);
                },
            },
        }
    }

    fn write_destination_cell(&self, sheet: &mut Sheet<N>, d: usize, i: usize, s: usize, bound: N, moves: &Vec<MoveVariable>)
        requires
            self.ready(),
            d < self.input.destinations@.len(),
            i < self.horizon(),
            s < self.segments(i as int),
            bound == self.material_bound(),
            moves@ == self.moves(),
            forall|x: int| 0 <= x < moves@.len() ==> self.move_stands(#[trigger] moves@[x]),
        ensures
            final(sheet)@ == old(sheet)@ + self.destination_line(d as int, i as int)(s as int),
    {
        let ghost base = sheet@;
        let destination = self.input.destinations[d].id;
        let room = ParcelColumn::DestinationRemaining { destination, interval: i, segment: s };
        let takes = ParcelColumn::DestinationAvailable { destination, interval: i, segment: s };
        let full = self.find_full(d, i, bound);
        if self.is_unlimited(d, i) {
            sheet.eq(term(takes, N::whole(1)), N::whole(1));
            sheet.eq(term(room, N::whole(1)), full);
        } else {
            self.write_room(sheet, d, i, s, full, moves);
            sheet.leq(terms_of(room, N::whole(1), takes, full.neg()), N::whole(0));
            sheet.geq(
                terms_of(room, N::whole(1), takes, self.input.horizon.tolerances.tonnes_t.neg()),
                N::whole(0),
            );
        }
        assert(sheet@ =~= base + self.destination_line(d as int, i as int)(s as int));
    }

    fn write_destination(&self, sheet: &mut Sheet<N>, d: usize, bound: N, moves: &Vec<MoveVariable>)
        requires
            self.ready(),
            d < self.input.destinations@.len(),
            bound == self.material_bound(),
            moves@ == self.moves(),
            forall|x: int| 0 <= x < moves@.len() ==> self.move_stands(#[trigger] moves@[x]),
        ensures
            final(sheet)@ == old(sheet)@ + self.destination_lines()(d as int),
    {
        let ghost base = sheet@;
        let ghost each = self.destination_interval_lines(d as int);
        assert(base + flat(0, each) =~= base);
        for i in 0..self.input.intervals.len()
            invariant
                self.ready(),
                d < self.input.destinations@.len(),
                bound == self.material_bound(),
                moves@ == self.moves(),
                forall|x: int| 0 <= x < moves@.len() ==> self.move_stands(#[trigger] moves@[x]),
                each == self.destination_interval_lines(d as int),
                sheet@ == base + flat(i as nat, each),
        {
            let segments: usize = self.budgets[i];
            let ghost inner = sheet@;
            let ghost f = self.destination_line(d as int, i as int);
            assert(inner + flat(0, f) =~= inner);
            for s in 0..segments
                invariant
                    self.ready(),
                    d < self.input.destinations@.len(),
                    i < self.horizon(),
                    segments == self.segments(i as int),
                    bound == self.material_bound(),
                    moves@ == self.moves(),
                    forall|x: int| 0 <= x < moves@.len() ==> self.move_stands(#[trigger] moves@[x]),
                    f == self.destination_line(d as int, i as int),
                    sheet@ == inner + flat(s as nat, f),
            {
                self.write_destination_cell(sheet, d, i, s, bound, moves);
                assert(sheet@ =~= inner + (flat(s as nat, f) + f(s as int)));
            }
            assert(sheet@ =~= base + (flat(i as nat, each) + each(i as int)));
        }
    }

    // Somewhere to go.

    /// A stage of a task can be dug by the task's loader in an interval.
    pub open spec fn stage_dug(self, t: int, i: int, stage: int) -> bool {
        match self.loader_of(t) {
            Some(l) => self.dig_stage(l, t, i, stage),
            None => false,
        }
    }

    pub open spec fn share_step(self, shares: Seq<MaterialShare<N>>) -> spec_fn(Seq<(MaterialId, ())>, int) -> Seq<
        (MaterialId, ()),
    > {
        |found: Seq<(MaterialId, ())>, k: int| put_under(found, shares[k].material, ())
    }

    /// The materials of a source, in order.
    pub open spec fn share_materials(self, shares: Seq<MaterialShare<N>>) -> Seq<(MaterialId, ())> {
        folded(shares.len(), Seq::empty(), self.share_step(shares))
    }

    pub open spec fn end_step(self, loader: LoaderId, source: SourceId, material: MaterialId, i: int) -> spec_fn(
        Seq<(DestinationId, ())>,
        int,
    ) -> Seq<(DestinationId, ())> {
        |found: Seq<(DestinationId, ())>, c: int|
            if self.routed(c, loader, Activity::Dig, source, material, i) {
                put_under(found, self.candidate(c).destination, ())
            } else {
                found
            }
    }

    /// Where a material that is dug can go, in order.
    pub open spec fn ends(self, loader: LoaderId, source: SourceId, material: MaterialId, i: int) -> Seq<
        (DestinationId, ()),
    > {
        folded(self.input.movements@.len(), Seq::empty(), self.end_step(loader, source, material, i))
    }

    pub open spec fn end_takes(self, destination: DestinationId, i: int, s: int) -> ParcelColumn {
        ParcelColumn::DestinationAvailable { destination, interval: i as usize, segment: s as usize }
    }

    pub open spec fn end_terms(self, ends: Seq<(DestinationId, ())>, i: int, s: int) -> Seq<(ParcelColumn, N)> {
        Seq::new(ends.len(), |x: int| (self.end_takes(ends[x].0, i, s), less_one::<N>()))
    }

    pub open spec fn end_line(self, route: ParcelColumn, ends: Seq<(DestinationId, ())>, i: int, s: int) -> spec_fn(
        int,
    ) -> Seq<Line<N>> {
        |x: int|
            seq![
                at_least_row(
                    seq![(route, one::<N>()), (self.end_takes(ends[x].0, i, s), less_one::<N>())],
                    nil::<N>(),
                ),
            ]
    }

    /// A material has somewhere to go where some destination takes it.
    pub open spec fn route_line(self, t: int, i: int, s: int, stage: int) -> spec_fn(int) -> Seq<Line<N>> {
        |m: int|
            {
                let ground = self.task(t).kind->sequence@[stage];
                let material = self.share_materials(self.block_shares(ground))[m].0;
                let route = ParcelColumn::RouteAvailable {
                    task: t as usize,
                    interval: i as usize,
                    segment: s as usize,
                    stage: stage as usize,
                    material,
                };
                let ends = self.ends(self.task(t).loader, SourceId::Ground(ground), material, i);
                seq![at_most_row(seq![(route, one::<N>())] + self.end_terms(ends, i, s), nil::<N>())] + flat(
                    ends.len(),
                    self.end_line(route, ends, i, s),
                )
            }
    }

    pub open spec fn route_stage_lines(self, t: int, i: int, s: int) -> spec_fn(int) -> Seq<Line<N>> {
        |stage: int|
            if self.stage_dug(t, i, stage) {
                let ground = self.task(t).kind->sequence@[stage];
                flat(self.share_materials(self.block_shares(ground)).len(), self.route_line(t, i, s, stage))
            } else {
                Seq::empty()
            }
    }

    pub open spec fn route_segment_lines(self, t: int, i: int) -> spec_fn(int) -> Seq<Line<N>> {
        |s: int| flat(self.stages(t), self.route_stage_lines(t, i, s))
    }

    pub open spec fn route_interval_lines(self, t: int) -> spec_fn(int) -> Seq<Line<N>> {
        |i: int| flat(self.segments(i), self.route_segment_lines(t, i))
    }

    pub open spec fn route_lines(self) -> spec_fn(int) -> Seq<Line<N>> {
        |t: int| flat(self.horizon(), self.route_interval_lines(t))
    }

    pub fn is_stage_dug(&self, t: usize, i: usize, stage: usize) -> (r: bool)
        requires
            t < self.input.tasks@.len(),
            i < self.horizon(),
            stage < self.stages(t as int),
        ensures
            r == self.stage_dug(t as int, i as int, stage as int),
    {
        match find_key(&self.input.loaders, self.input.tasks[t].loader.0) {
            Some(l) => self.can_dig_stage(l, t, i, stage),
            None => false,
        }
    }

    fn find_ends(&self, loader: LoaderId, source: SourceId, material: MaterialId, i: usize) -> (r: Ledger<
        DestinationId,
        (),
    >)
        requires
            i < self.horizon(),
        ensures
            r@ == self.ends(loader, source, material, i as int),
    {
        let mut found: Ledger<DestinationId, ()> = Ledger::new();
        let ghost step = self.end_step(loader, source, material, i as int);
        for c in 0..self.input.movements.len()
            invariant
                i < self.horizon(),
                step == self.end_step(loader, source, material, i as int),
                found@ == folded(c as nat, Seq::empty(), step),
        {
            if self.is_routed(c, loader, Activity::Dig, source, material, i) {
                found.put(self.input.movements[c].destination, ());
            }
        }
        found
    }

    fn find_share_materials(&self, shares: &Vec<MaterialShare<N>>) -> (r: Ledger<MaterialId, ()>)
        ensures
            r@ == self.share_materials(shares@),
    {
        let mut found: Ledger<MaterialId, ()> = Ledger::new();
        let ghost step = self.share_step(shares@);
        for k in 0..shares.len()
            invariant
                step == self.share_step(shares@),
                found@ == folded(k as nat, Seq::empty(), step),
        {
            found.put(shares[k].material, ());
        }
        found
    }

    fn write_route(&self, sheet: &mut Sheet<N>, route: ParcelColumn, ends: &Ledger<DestinationId, ()>, i: usize, s: usize)
        ensures
            final(sheet)@ == old(sheet)@ + (seq![
                at_most_row(seq![(route, one::<N>())] + self.end_terms(ends@, i as int, s as int), nil::<N>()),
            ] + flat(ends@.len(), self.end_line(route, ends@, i as int, s as int))),
    {
        let ghost base = sheet@;
        let ghost all = self.end_terms(ends@, i as int, s as int);
        let mut terms = term(route, N::whole(1));
        for x in 0..ends.entries.len()
            invariant
                all == self.end_terms(ends@, i as int, s as int),
                terms@ =~= seq![(route, one::<N>())] + all.take(x as int),
        {
            let destination = ends.entries[x].0;
            assert(destination == ends@[x as int].0);
            terms.push(
                (ParcelColumn::DestinationAvailable { destination, interval: i, segment: s }, N::whole(1).neg()),
            );
        }
        assert(all.take(ends@.len() as int) =~= all);
        sheet.leq(terms, N::whole(0));
        let ghost inner = sheet@;
        let ghost f = self.end_line(route, ends@, i as int, s as int);
        assert(inner + flat(0, f) =~= inner);
        for x in 0..ends.entries.len()
            invariant
                f == self.end_line(route, ends@, i as int, s as int),
                sheet@ == inner + flat(x as nat, f),
        {
            let destination = ends.entries[x].0;
            assert(destination == ends@[x as int].0);
            let takes = ParcelColumn::DestinationAvailable { destination, interval: i, segment: s };
            sheet.geq(terms_of(route, N::whole(1), takes, N::whole(1).neg()), N::whole(0));
            assert(sheet@ =~= inner + (flat(x as nat, f) + f(x as int)));
        }
        assert(sheet@ =~= base + (seq![
            at_most_row(seq![(route, one::<N>())] + self.end_terms(ends@, i as int, s as int), nil::<N>()),
        ] + flat(ends@.len(), self.end_line(route, ends@, i as int, s as int))));
    }

    fn write_route_stage(&self, sheet: &mut Sheet<N>, t: usize, i: usize, s: usize, stage: usize)
        requires
            t < self.input.tasks@.len(),
            i < self.horizon(),
            stage < self.stages(t as int),
        ensures
            final(sheet)@ == old(sheet)@ + self.route_stage_lines(t as int, i as int, s as int)(stage as int),
    {
        let ghost base = sheet@;
        if self.is_stage_dug(t, i, stage) {
            let ground = self.find_stage_source(t, stage);
            let loader = self.input.tasks[t].loader;
            if let Some(g) = find_key(&self.input.ground, ground.0) {
                let materials = self.find_share_materials(&self.input.ground[g].material);
                let ghost f = self.route_line(t as int, i as int, s as int, stage as int);
                assert(base + flat(0, f) =~= base);
                for m in 0..materials.entries.len()
                    invariant
                        t < self.input.tasks@.len(),
                        i < self.horizon(),
                        ground == self.task(t as int).kind->sequence@[stage as int],
                        loader == self.task(t as int).loader,
                        materials@ == self.share_materials(self.block_shares(ground)),
                        f == self.route_line(t as int, i as int, s as int, stage as int),
                        sheet@ == base + flat(m as nat, f),
                {
                    let material = materials.entries[m].0;
                    assert(material == materials@[m as int].0);
                    let route = ParcelColumn::RouteAvailable { task: t, interval: i, segment: s, stage, material };
                    let ends = self.find_ends(loader, SourceId::Ground(ground), material, i);
                    self.write_route(sheet, route, &ends, i, s);
                    assert(sheet@ =~= base + (flat(m as nat, f) + f(m as int)));
                }
            }
        }
        assert(sheet@ =~= base + self.route_stage_lines(t as int, i as int, s as int)(stage as int));
    }

    fn write_route_task(&self, sheet: &mut Sheet<N>, t: usize)
        requires
            self.ready(),
            t < self.input.tasks@.len(),
        ensures
            final(sheet)@ == old(sheet)@ + self.route_lines()(t as int),
    {
        let stages: usize = self.find_stages(t);
        let ghost base = sheet@;
        let ghost all = self.route_interval_lines(t as int);
        assert(base + flat(0, all) =~= base);
        for i in 0..self.input.intervals.len()
            invariant
                self.ready(),
                t < self.input.tasks@.len(),
                stages == self.stages(t as int),
                all == self.route_interval_lines(t as int),
                sheet@ == base + flat(i as nat, all),
        {
            let segments: usize = self.budgets[i];
            let ghost outer = sheet@;
            let ghost each = self.route_segment_lines(t as int, i as int);
            assert(outer + flat(0, each) =~= outer);
            for s in 0..segments
                invariant
                    t < self.input.tasks@.len(),
                    i < self.horizon(),
                    stages == self.stages(t as int),
                    each == self.route_segment_lines(t as int, i as int),
                    sheet@ == outer + flat(s as nat, each),
            {
                let ghost inner = sheet@;
                let ghost f = self.route_stage_lines(t as int, i as int, s as int);
                assert(inner + flat(0, f) =~= inner);
                for stage in 0..stages
                    invariant
                        t < self.input.tasks@.len(),
                        i < self.horizon(),
                        stages == self.stages(t as int),
                        f == self.route_stage_lines(t as int, i as int, s as int),
                        sheet@ == inner + flat(stage as nat, f),
                {
                    self.write_route_stage(sheet, t, i, s, stage);
                    assert(sheet@ =~= inner + (flat(stage as nat, f) + f(stage as int)));
                }
                assert(sheet@ =~= outer + (flat(s as nat, each) + each(s as int)));
            }
            assert(sheet@ =~= base + (flat(i as nat, all) + all(i as int)));
        }
    }

    /// The rows of time, blocks, destinations and routes.
    pub open spec fn supply_lines(self) -> Seq<Line<N>> {
        flat(self.horizon(), self.clock_line()) + flat(self.input.ground@.len(), self.ground_lines()) + flat(
            self.input.destinations@.len(),
            self.destination_lines(),
        ) + flat(self.input.tasks@.len(), self.route_lines())
    }

    /// Writes the rows of time, blocks, destinations and routes.
    pub fn write_supply(&self, sheet: &mut Sheet<N>, lists: &Lists<N>)
        requires
            self.ready(),
            self.listed(*lists),
        ensures
            final(sheet)@ == old(sheet)@ + self.supply_lines(),
    {
        let ghost base = sheet@;
        self.write_clock(sheet);
        let ghost first = sheet@;
        let ghost blocks = self.ground_lines();
        assert(first + flat(0, blocks) =~= first);
        for g in 0..self.input.ground.len()
            invariant
                self.ready(),
                self.listed(*lists),
                blocks == self.ground_lines(),
                sheet@ == first + flat(g as nat, blocks),
        {
            self.write_ground(sheet, g, &lists.digs);
            assert(sheet@ =~= first + (flat(g as nat, blocks) + blocks(g as int)));
        }
        let bound = self.find_material_bound();
        let ghost second = sheet@;
        let ghost ends = self.destination_lines();
        assert(second + flat(0, ends) =~= second);
        for d in 0..self.input.destinations.len()
            invariant
                self.ready(),
                self.listed(*lists),
                bound == self.material_bound(),
                ends == self.destination_lines(),
                sheet@ == second + flat(d as nat, ends),
        {
            self.write_destination(sheet, d, bound, &lists.moves);
            assert(sheet@ =~= second + (flat(d as nat, ends) + ends(d as int)));
        }
        let ghost third = sheet@;
        let ghost routes = self.route_lines();
        assert(third + flat(0, routes) =~= third);
        for t in 0..self.input.tasks.len()
            invariant
                self.ready(),
                routes == self.route_lines(),
                sheet@ == third + flat(t as nat, routes),
        {
            self.write_route_task(sheet, t);
            assert(sheet@ =~= third + (flat(t as nat, routes) + routes(t as int)));
        }
        assert(sheet@ =~= base + self.supply_lines());
    }
}

} // verus!
