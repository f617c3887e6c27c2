//! What can be dug, moved, received and reclaimed, cell by cell.
use vstd::prelude::*;

use crate::ledger::{put_adds_key, raised_by, Ledger};
use crate::listing::{count_to, find_key, flat, folded, keyed, sum_to};
use crate::optimisation::ids::{
    Activity, DestinationKind, GroundId, MaterialId, SourceId, StockpileId, TruckClassId,
};
use crate::optimisation::input::{MaterialShare, TaskKind};
use crate::optimisation::parcel::base::{
    add_counts, added, as_count, find_hours, hours_at, to_count, Parcels,
};
use crate::optimisation::parcel::columns::{
    DigVariable, Group, MoveVariable, ParcelColumn, ParcelVariable, ReclaimVariable, StreamKey,
};
use crate::scalar::Scalar;

verus! {

/// Everything listed for a model.
pub struct Lists<N> {
    pub digs: Vec<DigVariable>,
    /// Routes of what is dug, then of what is reclaimed.
    pub moves: Vec<MoveVariable>,
    /// The most that each stream can bring.
    pub streams: Ledger<StreamKey, N>,
    pub groups: Vec<Group>,
    pub parcels: Vec<ParcelVariable>,
    pub reclaims: Vec<ReclaimVariable<N>>,
}

pub open spec fn in_group(key: StreamKey, group: Group) -> bool {
    key.pile == group.pile && key.interval == group.interval && key.segment == group.segment
}

pub fn is_in_group(key: StreamKey, group: Group) -> (r: bool)
    ensures
        r == in_group(key, group),
{
    key.pile == group.pile && key.interval == group.interval && key.segment == group.segment
}

impl<'a, N: Scalar> Parcels<'a, N> {
    // Digging.

    pub open spec fn dig_at(self, l: int, i: int, t: int, s: int) -> spec_fn(int) -> Seq<DigVariable> {
        |stage: int|
            if self.dig_stage(l, t, i, stage) {
                seq![
                    DigVariable {
                        interval: i as usize,
                        segment: s as usize,
                        task: t as usize,
                        stage: stage as usize,
                        source: self.task(t).kind->sequence@[stage],
                    },
                ]
            } else {
                Seq::empty()
            }
    }

    pub open spec fn dig_segment(self, l: int, i: int, t: int) -> spec_fn(int) -> Seq<DigVariable> {
        |s: int| flat(self.stages(t), self.dig_at(l, i, t, s))
    }

    pub open spec fn dig_task(self, l: int, i: int) -> spec_fn(int) -> Seq<DigVariable> {
        |q: int| flat(self.segments(i), self.dig_segment(l, i, self.order(l)[q] as int))
    }

    pub open spec fn dig_interval(self, l: int) -> spec_fn(int) -> Seq<DigVariable> {
        |i: int| flat(self.order(l).len(), self.dig_task(l, i))
    }

    pub open spec fn dig_loader(self) -> spec_fn(int) -> Seq<DigVariable> {
        |l: int| flat(self.horizon(), self.dig_interval(l))
    }

    /// All digging.
    pub open spec fn digs(self) -> Seq<DigVariable> {
        flat(self.input.loaders@.len(), self.dig_loader())
    }

    /// A dig variable belongs to the input.
    pub open spec fn dig_stands(self, dig: DigVariable) -> bool {
        dig.task < self.input.tasks@.len() && dig.interval < self.horizon() && dig.stage < self.stages(dig.task as int)
    }

    fn list_dig_task(&self, digs: &mut Vec<DigVariable>, l: usize, i: usize, t: usize)
        requires
            self.ready(),
            l < self.input.loaders@.len(),
            i < self.horizon(),
            t < self.input.tasks@.len(),
            forall|x: int| 0 <= x < old(digs)@.len() ==> self.dig_stands(#[trigger] old(digs)@[x]),
        ensures
            final(digs)@ == old(digs)@ + flat(self.segments(i as int), self.dig_segment(l as int, i as int, t as int)),
            forall|x: int| 0 <= x < final(digs)@.len() ==> self.dig_stands(#[trigger] final(digs)@[x]),
    {
        let segments: usize = self.budgets[i];
        let stages: usize = self.find_stages(t);
        let ghost base = digs@;
        let ghost each = self.dig_segment(l as int, i as int, t as int);
        assert(base + flat(0, each) =~= base);
        for s in 0..segments
            invariant
                l < self.input.loaders@.len(),
                i < self.horizon(),
                t < self.input.tasks@.len(),
                stages == self.stages(t as int),
                each == self.dig_segment(l as int, i as int, t as int),
                digs@ == base + flat(s as nat, each),
                forall|x: int| 0 <= x < digs@.len() ==> self.dig_stands(#[trigger] digs@[x]),
        {
            let ghost inner = digs@;
            let ghost f = self.dig_at(l as int, i as int, t as int, s as int);
            assert(inner + flat(0, f) =~= inner);
            for stage in 0..stages
                invariant
                    l < self.input.loaders@.len(),
                    i < self.horizon(),
                    t < self.input.tasks@.len(),
                    stages == self.stages(t as int),
                    f == self.dig_at(l as int, i as int, t as int, s as int),
                    digs@ == inner + flat(stage as nat, f),
                    forall|x: int| 0 <= x < digs@.len() ==> self.dig_stands(#[trigger] digs@[x]),
            {
                if self.can_dig_stage(l, t, i, stage) {
                    if let TaskKind::Dig { sequence } = &self.input.tasks[t].kind {
                        digs.push(DigVariable { interval: i, segment: s, task: t, stage, source: sequence[stage] });
                    }
                }
                assert(digs@ =~= inner + (flat(stage as nat, f) + f(stage as int)));
            }
            assert(digs@ =~= base + (flat(s as nat, each) + each(s as int)));
        }
    }

    fn list_dig_loader(&self, digs: &mut Vec<DigVariable>, l: usize)
        requires
            self.ready(),
            l < self.input.loaders@.len(),
            forall|x: int| 0 <= x < old(digs)@.len() ==> self.dig_stands(#[trigger] old(digs)@[x]),
        ensures
            final(digs)@ == old(digs)@ + self.dig_loader()(l as int),
            forall|x: int| 0 <= x < final(digs)@.len() ==> self.dig_stands(#[trigger] final(digs)@[x]),
    {
        let order = self.find_order(l);
        let ghost base = digs@;
        let ghost each = self.dig_interval(l as int);
        assert(base + flat(0, each) =~= base);
        for i in 0..self.input.intervals.len()
            invariant
                self.ready(),
                l < self.input.loaders@.len(),
                order@ == self.order(l as int),
                forall|q: int| 0 <= q < order@.len() ==> (#[trigger] order@[q]) < self.input.tasks@.len(),
                each == self.dig_interval(l as int),
                digs@ == base + flat(i as nat, each),
                forall|x: int| 0 <= x < digs@.len() ==> self.dig_stands(#[trigger] digs@[x]),
        {
            let ghost inner = digs@;
            let ghost f = self.dig_task(l as int, i as int);
            assert(inner + flat(0, f) =~= inner);
            for q in 0..order.len()
                invariant
                    self.ready(),
                    l < self.input.loaders@.len(),
                    i < self.horizon(),
                    order@ == self.order(l as int),
                    forall|q: int| 0 <= q < order@.len() ==> (#[trigger] order@[q]) < self.input.tasks@.len(),
                    f == self.dig_task(l as int, i as int),
                    digs@ == inner + flat(q as nat, f),
                    forall|x: int| 0 <= x < digs@.len() ==> self.dig_stands(#[trigger] digs@[x]),
            {
                self.list_dig_task(digs, l, i, order[q]);
                assert(digs@ =~= inner + (flat(q as nat, f) + f(q as int)));
            }
            assert(digs@ =~= base + (flat(i as nat, each) + each(i as int)));
        }
    }

    pub fn list_digs(&self) -> (digs: Vec<DigVariable>)
        requires
            self.ready(),
        ensures
            digs@ == self.digs(),
            forall|x: int| 0 <= x < digs@.len() ==> self.dig_stands(#[trigger] digs@[x]),
    {
        let mut digs: Vec<DigVariable> = Vec::new();
        let ghost each = self.dig_loader();
        for l in 0..self.input.loaders.len()
            invariant
                self.ready(),
                each == self.dig_loader(),
                digs@ == flat(l as nat, each),
                forall|x: int| 0 <= x < digs@.len() ==> self.dig_stands(#[trigger] digs@[x]),
        {
            self.list_dig_loader(&mut digs, l);
            assert(digs@ =~= flat(l as nat, each) + each(l as int));
        }
        digs
    }

    // Routes of what is dug.

    /// What a block is made of.
    pub open spec fn block_shares(self, ground: GroundId) -> Seq<MaterialShare<N>> {
        match keyed(self.input.ground@, ground.0) {
            Some(g) => self.input.ground@[g].material@,
            None => Seq::empty(),
        }
    }

    pub open spec fn block_tonnes(self, ground: GroundId) -> N {
        match keyed(self.input.ground@, ground.0) {
            Some(g) => self.input.ground@[g].tonnes_t,
            None => N::of_whole(0),
        }
    }

    pub open spec fn dig_route(self, dig: DigVariable, k: int) -> spec_fn(int) -> Seq<MoveVariable> {
        |c: int|
            {
                let source = SourceId::Ground(dig.source);
                let material = self.block_shares(dig.source)[k].material;
                if self.routed(c, self.task(dig.task as int).loader, Activity::Dig, source, material, dig.interval as int) {
                    seq![
                        MoveVariable {
                            interval: dig.interval,
                            segment: dig.segment,
                            task: dig.task,
                            candidate: c as usize,
                            source,
                            material,
                            unit: None,
                            column: ParcelColumn::DigMove {
                                task: dig.task,
                                interval: dig.interval,
                                segment: dig.segment,
                                stage: dig.stage,
                                share: k as usize,
                                candidate: c as usize,
                            },
                        },
                    ]
                } else {
                    Seq::empty()
                }
            }
    }

    pub open spec fn dig_share(self, dig: DigVariable) -> spec_fn(int) -> Seq<MoveVariable> {
        |k: int| flat(self.input.movements@.len(), self.dig_route(dig, k))
    }

    pub open spec fn dig_move(self) -> spec_fn(int) -> Seq<MoveVariable> {
        |x: int| flat(self.block_shares(self.digs()[x].source).len(), self.dig_share(self.digs()[x]))
    }

    /// The routes of everything that is dug.
    pub open spec fn dig_moves(self) -> Seq<MoveVariable> {
        flat(self.digs().len(), self.dig_move())
    }

    pub open spec fn move_stands(self, movement: MoveVariable) -> bool {
        movement.task < self.input.tasks@.len() && movement.candidate < self.input.movements@.len() && movement.interval
            < self.horizon()
    }

    fn list_dig_share(&self, moves: &mut Vec<MoveVariable>, dig: DigVariable, k: usize, material: MaterialId)
        requires
            self.dig_stands(dig),
            k < self.block_shares(dig.source).len(),
            material == self.block_shares(dig.source)[k as int].material,
            forall|x: int| 0 <= x < old(moves)@.len() ==> self.move_stands(#[trigger] old(moves)@[x]),
        ensures
            final(moves)@ == old(moves)@ + self.dig_share(dig)(k as int),
            forall|x: int| 0 <= x < final(moves)@.len() ==> self.move_stands(#[trigger] final(moves)@[x]),
    {
        let loader = self.input.tasks[dig.task].loader;
        let source = SourceId::Ground(dig.source);
        let ghost base = moves@;
        let ghost f = self.dig_route(dig, k as int);
        assert(base + flat(0, f) =~= base);
        for c in 0..self.input.movements.len()
            invariant
                self.dig_stands(dig),
                loader == self.task(dig.task as int).loader,
                source == SourceId::Ground(dig.source),
                material == self.block_shares(dig.source)[k as int].material,
                f == self.dig_route(dig, k as int),
                moves@ == base + flat(c as nat, f),
                forall|x: int| 0 <= x < moves@.len() ==> self.move_stands(#[trigger] moves@[x]),
        {
            if self.is_routed(c, loader, Activity::Dig, source, material, dig.interval) {
                moves.push(
                    MoveVariable {
                        interval: dig.interval,
                        segment: dig.segment,
                        task: dig.task,
                        candidate: c,
                        source,
                        material,
                        unit: None,
                        column: ParcelColumn::DigMove {
                            task: dig.task,
                            interval: dig.interval,
                            segment: dig.segment,
                            stage: dig.stage,
                            share: k,
                            candidate: c,
                        },
                    },
                );
            }
            assert(moves@ =~= base + (flat(c as nat, f) + f(c as int)));
        }
    }

    pub fn list_dig_moves(&self, digs: &Vec<DigVariable>) -> (moves: Vec<MoveVariable>)
        requires
            digs@ == self.digs(),
            forall|x: int| 0 <= x < digs@.len() ==> self.dig_stands(#[trigger] digs@[x]),
        ensures
            moves@ == self.dig_moves(),
            forall|x: int| 0 <= x < moves@.len() ==> self.move_stands(#[trigger] moves@[x]),
    {
        let mut moves: Vec<MoveVariable> = Vec::new();
        let ghost each = self.dig_move();
        for x in 0..digs.len()
            invariant
                digs@ == self.digs(),
                forall|x: int| 0 <= x < digs@.len() ==> self.dig_stands(#[trigger] digs@[x]),
                each == self.dig_move(),
                moves@ == flat(x as nat, each),
                forall|x: int| 0 <= x < moves@.len() ==> self.move_stands(#[trigger] moves@[x]),
        {
            let dig = digs[x];
            let ghost inner = moves@;
            let ghost f = self.dig_share(dig);
            assert(inner + flat(0, f) =~= inner);
            if let Some(g) = find_key(&self.input.ground, dig.source.0) {
                let shares: usize = self.input.ground[g].material.len();
                for k in 0..shares
                    invariant
                        self.dig_stands(dig),
                        keyed(self.input.ground@, dig.source.0) == Some(g as int),
                        g < self.input.ground@.len(),
                        shares == self.block_shares(dig.source).len(),
                        f == self.dig_share(dig),
                        moves@ == inner + flat(k as nat, f),
                        forall|x: int| 0 <= x < moves@.len() ==> self.move_stands(#[trigger] moves@[x]),
                {
                    self.list_dig_share(&mut moves, dig, k, self.input.ground[g].material[k].material);
                    assert(moves@ =~= inner + (flat(k as nat, f) + f(k as int)));
                }
            }
            assert(moves@ =~= flat(x as nat, each) + each(x as int));
        }
        moves
    }

    // What piles receive.

    pub open spec fn stream_of(self, movement: MoveVariable, pile: StockpileId) -> StreamKey {
        StreamKey {
            pile,
            interval: movement.interval,
            segment: movement.segment,
            source: movement.source,
            material: movement.material,
        }
    }

    /// The most that a source can give.
    pub open spec fn source_bound(self, source: SourceId) -> N {
        match source {
            SourceId::Ground(ground) => self.block_tonnes(ground),
            SourceId::Stockpile(pile) => self.capacity(pile),
        }
    }

    pub open spec fn stream_step(self) -> spec_fn(Seq<(StreamKey, N)>, int) -> Seq<(StreamKey, N)> {
        |streams: Seq<(StreamKey, N)>, x: int|
            {
                let movement = self.dig_moves()[x];
                match keyed(self.input.destinations@, self.candidate(movement.candidate as int).destination.0) {
                    Some(d) => match self.input.destinations@[d].kind {
                        DestinationKind::Stockpile(pile) => raised_by(
                            streams,
                            self.stream_of(movement, pile),
                            self.source_bound(movement.source),
                        ),
                        _ => streams,
                    },
                    None => streams,
                }
            }
    }

    /// Every stream to a pile, with the most that it can bring.
    pub open spec fn streams(self) -> Seq<(StreamKey, N)> {
        folded(self.dig_moves().len(), Seq::empty(), self.stream_step())
    }

    pub fn find_source_bound(&self, source: SourceId) -> (r: N)
        ensures
            r == self.source_bound(source),
    {
        match source {
            SourceId::Ground(ground) => match find_key(&self.input.ground, ground.0) {
                Some(g) => self.input.ground[g].tonnes_t,
                None => N::whole(0),
            },
            SourceId::Stockpile(pile) => self.find_capacity(pile),
        }
    }

    pub fn list_streams(&self, moves: &Vec<MoveVariable>) -> (streams: Ledger<StreamKey, N>)
        requires
            moves@ == self.dig_moves(),
            forall|x: int| 0 <= x < moves@.len() ==> self.move_stands(#[trigger] moves@[x]),
        ensures
            streams@ == self.streams(),
            forall|x: int| 0 <= x < streams@.len() ==> self.stream_stands((#[trigger] streams@[x]).0),
    {
        let mut streams: Ledger<StreamKey, N> = Ledger::new();
        let ghost step = self.stream_step();
        for x in 0..moves.len()
            invariant
                moves@ == self.dig_moves(),
                forall|x: int| 0 <= x < moves@.len() ==> self.move_stands(#[trigger] moves@[x]),
                step == self.stream_step(),
                streams@ == folded(x as nat, Seq::empty(), step),
                forall|x: int| 0 <= x < streams@.len() ==> self.stream_stands((#[trigger] streams@[x]).0),
        {
            let movement = moves[x];
            if let Some(d) = find_key(&self.input.destinations, self.input.movements[movement.candidate].destination.0) {
                if let DestinationKind::Stockpile(pile) = self.input.destinations[d].kind {
                    let key = StreamKey {
                        pile,
                        interval: movement.interval,
                        segment: movement.segment,
                        source: movement.source,
                        material: movement.material,
                    };
                    let bound = self.find_source_bound(movement.source);
                    let ghost before = streams@;
                    streams.raise(key, bound);
                    proof {
                        let held = crate::ledger::amount(before, key).plus(bound);
                        assert forall|x: int| 0 <= x < streams@.len() implies self.stream_stands(
                            (#[trigger] streams@[x]).0,
                        ) by {
                            put_adds_key(before, key, held, x);
                        }
                    }
                }
            }
        }
        streams
    }

    /// A loader brings what it digs to a pile.
    pub open spec fn fills(self, l: int, pile: StockpileId, i: int) -> bool {
        let loader = self.input.loaders@[l].id;
        &&& exists|t: int|
            0 <= t < self.input.tasks@.len() && (#[trigger] self.input.tasks@[t]).loader == loader && self.task(
                t,
            ).kind is Dig && self.active(t, i)
        &&& exists|c: int|
            0 <= c < self.input.movements@.len() && (#[trigger] self.input.movements@[c]).loader == loader
                && self.candidate(c).activity is Dig && self.ends_on(self.candidate(c).destination, pile)
    }

    pub open spec fn fill_part(self, pile: StockpileId, i: int) -> spec_fn(int) -> Option<N> {
        |l: int|
            if self.fills(l, pile, i) {
                Some(self.dig_rate(l, i).times(self.length(i)))
            } else {
                None
            }
    }

    /// The most that loaders can bring to a pile in an interval.
    pub open spec fn pile_dig_bound(self, pile: StockpileId, i: int) -> N {
        sum_to(self.input.loaders@.len(), self.fill_part(pile, i))
    }

    fn does_fill(&self, l: usize, pile: StockpileId, i: usize) -> (r: bool)
        requires
            l < self.input.loaders@.len(),
            i < self.horizon(),
        ensures
            r == self.fills(l as int, pile, i as int),
    {
        let loader = self.input.loaders[l].id;
        let mut works: bool = false;
        for t in 0..self.input.tasks.len()
            invariant
                i < self.horizon(),
                works <==> exists|q: int|
                    0 <= q < t && (#[trigger] self.input.tasks@[q]).loader == loader && self.task(q).kind is Dig
                        && self.active(q, i as int),
        {
            let task = &self.input.tasks[t];
            let digs: bool = match &task.kind {
                TaskKind::Dig { .. } => true,
                TaskKind::Reclaim { .. } => false,
            };
            if task.loader == loader && digs && self.is_active(t, i) {
                assert(self.input.tasks@[t as int].loader == loader);
                works = true;
            }
        }
        let mut brings: bool = false;
        for c in 0..self.input.movements.len()
            invariant
                brings <==> exists|q: int|
                    0 <= q < c && (#[trigger] self.input.movements@[q]).loader == loader && self.candidate(
                        q,
                    ).activity is Dig && self.ends_on(self.candidate(q).destination, pile),
        {
            let candidate = &self.input.movements[c];
            if candidate.loader == loader && candidate.activity == Activity::Dig && self.does_end_on(
                candidate.destination,
                pile,
            ) {
                assert(self.input.movements@[c as int].loader == loader);
                brings = true;
            }
        }
        works && brings
    }

    pub fn find_pile_dig_bound(&self, pile: StockpileId, i: usize) -> (r: N)
        requires
            i < self.horizon(),
        ensures
            r == self.pile_dig_bound(pile, i as int),
    {
        let length = self.input.intervals[i].duration_h();
        let mut total = N::whole(0);
        for l in 0..self.input.loaders.len()
            invariant
                i < self.horizon(),
                length == self.length(i as int),
                total == sum_to(l as nat, self.fill_part(pile, i as int)),
        {
            if self.does_fill(l, pile, i) {
                total = total.add(self.find_dig_rate(l, i).mul(length));
            }
        }
        total
    }

    /// A candidate brings material to a pile by a truck class from elsewhere.
    pub open spec fn hauls(self, c: int, pile: StockpileId, truck: TruckClassId) -> bool {
        self.candidate(c).source != SourceId::Stockpile(pile) && self.ends_on(self.candidate(c).destination, pile)
            && self.candidate(c).truck == truck
    }

    pub open spec fn haul_step(self, pile: StockpileId, truck: TruckClassId) -> spec_fn(Option<N>, int) -> Option<N> {
        |least: Option<N>, c: int|
            if self.hauls(c, pile, truck) {
                Some(
                    match least {
                        Some(hours) => hours.lower(self.candidate(c).truck_hours_per_tonne),
                        None => self.candidate(c).truck_hours_per_tonne,
                    },
                )
            } else {
                least
            }
    }

    /// The fewest hours that a truck class takes to bring a tonne to a pile.
    pub open spec fn haul_hours(self, pile: StockpileId, truck: TruckClassId) -> N {
        match folded(self.input.movements@.len(), None, self.haul_step(pile, truck)) {
            Some(hours) => hours,
            None => N::of_infinity(),
        }
    }

    pub open spec fn fleet_part(self, pile: StockpileId, i: int) -> spec_fn(int) -> Option<N> {
        |k: int|
            Some(
                hours_at(self.input.trucks@[k].hours@, i).over(self.haul_hours(pile, self.input.trucks@[k].id)),
            )
    }

    /// The most that trucks can bring to a pile in an interval.
    pub open spec fn fleet_bound(self, pile: StockpileId, i: int) -> N {
        sum_to(self.input.trucks@.len(), self.fleet_part(pile, i))
    }

    fn find_haul_hours(&self, pile: StockpileId, truck: TruckClassId) -> (r: N)
        ensures
            r == self.haul_hours(pile, truck),
    {
        let mut least: Option<N> = None;
        let ghost step = self.haul_step(pile, truck);
        for c in 0..self.input.movements.len()
            invariant
                step == self.haul_step(pile, truck),
                least == folded(c as nat, None, step),
        {
            let candidate = &self.input.movements[c];
            if candidate.source != SourceId::Stockpile(pile) && self.does_end_on(candidate.destination, pile)
                && candidate.truck == truck {
                least = Some(
                    match least {
                        Some(hours) => hours.smaller(candidate.truck_hours_per_tonne),
                        None => candidate.truck_hours_per_tonne,
                    },
                );
            }
        }
        match least {
            Some(hours) => hours,
            None => N::infinity(),
        }
    }

    fn find_fleet_bound(&self, pile: StockpileId, i: usize) -> (r: N)
        ensures
            r == self.fleet_bound(pile, i as int),
    {
        let mut total = N::whole(0);
        for k in 0..self.input.trucks.len()
            invariant
                total == sum_to(k as nat, self.fleet_part(pile, i as int)),
        {
            let truck = &self.input.trucks[k];
            total = total.add(find_hours(&truck.hours, i).div(self.find_haul_hours(pile, truck.id)));
        }
        total
    }

    // Positions.

    pub open spec fn group_key(self, x: int) -> Group {
        let key = self.streams()[x].0;
        Group { pile: key.pile, interval: key.interval, segment: key.segment, positions: 0 }
    }

    /// The cells of piles that the first `n` streams go to.
    pub open spec fn group_keys(self, n: nat) -> Seq<Group>
        decreases n,
    {
        if n == 0 {
            Seq::empty()
        } else {
            let before = self.group_keys((n - 1) as nat);
            if before.contains(self.group_key(n - 1)) {
                before
            } else {
                before.push(self.group_key(n - 1))
            }
        }
    }

    pub open spec fn of_group(self, group: Group) -> spec_fn(int) -> bool {
        |x: int| in_group(self.streams()[x].0, group)
    }

    pub open spec fn group_part(self, group: Group) -> spec_fn(int) -> Option<N> {
        |x: int|
            if in_group(self.streams()[x].0, group) {
                Some(self.streams()[x].1)
            } else {
                None
            }
    }

    /// The most that the streams of a cell can bring, and its pile can hold.
    pub open spec fn group_bound(self, group: Group) -> N {
        sum_to(self.streams().len(), self.group_part(group)).lower(self.capacity(group.pile))
    }

    /// How many positions a cell of a pile gets: what fills it, and one for
    /// what is left of each stream.
    pub open spec fn positions(self, group: Group) -> usize {
        let bound = self.group_bound(group).lower(self.fleet_bound(group.pile, group.interval as int)).lower(
            self.pile_dig_bound(group.pile, group.interval as int),
        );
        added(
            as_count(bound.over(self.target()).raised()),
            count_to(self.streams().len(), self.of_group(group)) as usize,
        )
    }

    /// The cells of piles that streams go to, with their positions.
    pub open spec fn groups(self) -> Seq<Group> {
        let keys = self.group_keys(self.streams().len());
        Seq::new(keys.len(), |x: int| Group { positions: self.positions(keys[x]), ..keys[x] })
    }

    pub fn find_group_bound(&self, streams: &Ledger<StreamKey, N>, group: Group) -> (r: N)
        requires
            streams@ == self.streams(),
        ensures
            r == self.group_bound(group),
    {
        let mut total = N::whole(0);
        for x in 0..streams.entries.len()
            invariant
                streams@ == self.streams(),
                total == sum_to(x as nat, self.group_part(group)),
        {
            let (key, bound) = streams.entries[x];
            assert((key, bound) == streams@[x as int]);
            if is_in_group(key, group) {
                total = total.add(bound);
            }
        }
        total.smaller(self.find_capacity(group.pile))
    }

    fn find_positions(&self, streams: &Ledger<StreamKey, N>, group: Group) -> (r: usize)
        requires
            streams@ == self.streams(),
            group.interval < self.horizon(),
        ensures
            r == self.positions(group),
    {
        let mut count: usize = 0;
        for x in 0..streams.entries.len()
            invariant
                streams@ == self.streams(),
                count == count_to(x as nat, self.of_group(group)),
                count <= x,
        {
            assert(streams.entries@[x as int] == streams@[x as int]);
            if is_in_group(streams.entries[x].0, group) {
                count = count + 1;
            }
        }
        let bound = self.find_group_bound(streams, group).smaller(
            self.find_fleet_bound(group.pile, group.interval),
        ).smaller(self.find_pile_dig_bound(group.pile, group.interval));
        add_counts(to_count(bound.div(self.input.horizon.parcel_target_t).ceil()), count)
    }

    /// Every stream is in the horizon.
    pub open spec fn stream_stands(self, key: StreamKey) -> bool {
        key.interval < self.horizon()
    }

    pub fn list_groups(&self, streams: &Ledger<StreamKey, N>) -> (groups: Vec<Group>)
        requires
            streams@ == self.streams(),
            forall|x: int| 0 <= x < streams@.len() ==> self.stream_stands((#[trigger] streams@[x]).0),
        ensures
            groups@ == self.groups(),
            forall|x: int| 0 <= x < groups@.len() ==> (#[trigger] groups@[x]).interval < self.horizon(),
    {
        let mut keys: Vec<Group> = Vec::new();
        for x in 0..streams.entries.len()
            invariant
                streams@ == self.streams(),
                forall|x: int| 0 <= x < streams@.len() ==> self.stream_stands((#[trigger] streams@[x]).0),
                keys@ == self.group_keys(x as nat),
                forall|x: int| 0 <= x < keys@.len() ==> (#[trigger] keys@[x]).interval < self.horizon(),
        {
            assert(streams.entries@[x as int] == streams@[x as int]);
            let key = streams.entries[x].0;
            let group = Group { pile: key.pile, interval: key.interval, segment: key.segment, positions: 0 };
            if !holds_group(&keys, group) {
                keys.push(group);
            }
        }
        let mut groups: Vec<Group> = Vec::new();
        for x in 0..keys.len()
            invariant
                streams@ == self.streams(),
                keys@ == self.group_keys(self.streams().len()),
                forall|x: int| 0 <= x < keys@.len() ==> (#[trigger] keys@[x]).interval < self.horizon(),
                groups@ =~= self.groups().take(x as int),
                forall|x: int| 0 <= x < groups@.len() ==> (#[trigger] groups@[x]).interval < self.horizon(),
        {
            let key = keys[x];
            let positions: usize = self.find_positions(streams, key);
            groups.push(Group { pile: key.pile, interval: key.interval, segment: key.segment, positions });
        }
        assert(groups@ =~= self.groups());
        groups
    }
}

fn holds_group(groups: &Vec<Group>, group: Group) -> (r: bool)
    ensures
        r == groups@.contains(group),
{
    for x in 0..groups.len()
        invariant
            forall|q: int| 0 <= q < x ==> (#[trigger] groups@[q]) != group,
    {
        if groups[x] == group {
            return true;
        }
    }
    false
}

} // verus!
