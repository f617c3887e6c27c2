//! What a parcel model is written from: which routes can be used when, and how
//! finely material is told apart.
use vstd::prelude::*;

use crate::listing::{find_key, folded, keyed, sum_to};
use crate::optimisation::authored::{authored, authored_order, windows_compare};
use crate::optimisation::ids::{Activity, DestinationId, DestinationKind, LoaderId, MaterialId, SourceId, StockpileId};
use crate::optimisation::input::{
    destination_receiving, in_window, receiving, task_active, Interval, MaterialShare, MovementCandidate,
    OptimisationInput, Stockpile, Task, TaskKind,
};
use crate::scalar::Scalar;

verus! {

/// An input with the number of segments that each interval is split into.
pub struct Parcels<'a, N> {
    pub input: &'a OptimisationInput<N>,
    pub budgets: &'a Vec<usize>,
}

/// A number held to the range of counts.
pub open spec fn as_count(value: u64) -> usize {
    if value <= usize::MAX {
        value as usize
    } else {
        usize::MAX
    }
}

/// A number held to the range of counts.
pub fn to_count(value: u64) -> (r: usize)
    ensures
        r == as_count(value),
{
    if value <= usize::MAX as u64 {
        value as usize
    } else {
        usize::MAX
    }
}

/// A sum held to the range of counts.
pub open spec fn added(a: usize, b: usize) -> usize {
    if a + b <= usize::MAX {
        (a + b) as usize
    } else {
        usize::MAX
    }
}

/// A sum held to the range of counts.
pub fn add_counts(a: usize, b: usize) -> (r: usize)
    ensures
        r == added(a, b),
{
    match a.checked_add(b) {
        Some(sum) => sum,
        None => usize::MAX,
    }
}

/// The hours of a truck class in an interval, zero where none are given.
pub open spec fn hours_at<N: Scalar>(hours: Seq<N>, i: int) -> N {
    if i < hours.len() {
        hours[i]
    } else {
        N::of_whole(0)
    }
}

pub fn find_hours<N: Scalar>(hours: &Vec<N>, i: usize) -> (r: N)
    ensures
        r == hours_at(hours@, i as int),
{
    if i < hours.len() {
        hours[i]
    } else {
        N::whole(0)
    }
}

/// A candidate is the movement of a material by a loader from a source.
pub open spec fn is_route<N>(
    candidate: MovementCandidate<N>,
    loader: LoaderId,
    activity: Activity,
    source: SourceId,
    material: MaterialId,
) -> bool {
    candidate.loader == loader && candidate.activity == activity && candidate.source == source && candidate.material
        == material
}

/// What a loader does at a source.
pub open spec fn work_at(source: SourceId) -> Activity {
    match source {
        SourceId::Ground(_) => Activity::Dig,
        SourceId::Stockpile(_) => Activity::Reclaim,
    }
}

pub fn find_work(source: SourceId) -> (r: Activity)
    ensures
        r == work_at(source),
{
    match source {
        SourceId::Ground(_) => Activity::Dig,
        SourceId::Stockpile(_) => Activity::Reclaim,
    }
}

/// What is too little of a source to be told from nothing.
pub open spec fn dust<N: Scalar>(input: OptimisationInput<N>) -> N {
    input.horizon.tolerances.tonnes_t.upper(input.horizon.parcel_target_t.times(N::of_decimal(1, 6)))
}

/// What is too little of a source to be told from nothing.
pub fn find_dust<N: Scalar>(input: &OptimisationInput<N>) -> (r: N)
    ensures
        r == dust(*input),
{
    input.horizon.tolerances.tonnes_t.larger(input.horizon.parcel_target_t.mul(N::decimal(1, 6)))
}

pub open spec fn lot_bound_step<N: Scalar>(pile: Stockpile<N>) -> spec_fn(N, int) -> N {
    |most: N, o: int| most.upper(pile.opening@[o].tonnes_t.lower(pile.capacity_t))
}

pub open spec fn pile_bound_step<N: Scalar>(input: OptimisationInput<N>) -> spec_fn(N, int) -> N {
    |most: N, p: int|
        {
            let pile = input.stockpiles@[p];
            folded(pile.opening@.len(), most, lot_bound_step(pile)).upper(
                input.horizon.parcel_target_t.lower(pile.capacity_t),
            )
        }
}

/// The most that any lot or parcel can hold.
pub open spec fn largest_unit<N: Scalar>(input: OptimisationInput<N>) -> N {
    folded(input.stockpiles@.len(), N::of_whole(0), pile_bound_step(input))
}

/// What is too little of a lot or a parcel to be told from nothing: what the
/// solver may leave behind of the largest one.
pub open spec fn unit_dust<N: Scalar>(input: OptimisationInput<N>) -> N {
    dust(input).upper(input.horizon.tolerances.parcel_occupancy_t).upper(
        largest_unit(input).times(N::of_decimal(1, 7)).times(N::of_whole(10)),
    )
}

/// What is too little of a lot or a parcel to be told from nothing.
pub fn inventory_dust<N: Scalar>(input: &OptimisationInput<N>) -> (r: N)
    ensures
        r == unit_dust(*input),
{
    let mut most = N::whole(0);
    let ghost step = pile_bound_step(*input);
    for p in 0..input.stockpiles.len()
        invariant
            step == pile_bound_step(*input),
            most == folded(p as nat, N::of_whole(0), step),
    {
        let pile = &input.stockpiles[p];
        let ghost before = most;
        let ghost inner = lot_bound_step(*pile);
        for o in 0..pile.opening.len()
            invariant
                inner == lot_bound_step(*pile),
                most == folded(o as nat, before, inner),
        {
            most = most.larger(pile.opening[o].tonnes_t.smaller(pile.capacity_t));
        }
        most = most.larger(input.horizon.parcel_target_t.smaller(pile.capacity_t));
        assert(most == step(before, p as int));
    }
    find_dust(input).larger(input.horizon.tolerances.parcel_occupancy_t).larger(
        most.mul(N::decimal(1, 7)).mul(N::whole(10)),
    )
}

impl<'a, N: Scalar> Parcels<'a, N> {
    /// Every interval has segments, and tasks can be put in order.
    pub open spec fn ready(self) -> bool {
        &&& self.budgets@.len() == self.horizon()
        &&& forall|i: int| 0 <= i < self.budgets@.len() ==> 1 <= #[trigger] self.budgets@[i]
        &&& windows_compare(self.input.tasks@)
    }

    pub open spec fn horizon(self) -> nat {
        self.input.intervals@.len()
    }

    pub open spec fn segments(self, i: int) -> nat {
        self.budgets@[i] as nat
    }

    pub open spec fn interval(self, i: int) -> Interval<N> {
        self.input.intervals@[i]
    }

    pub open spec fn length(self, i: int) -> N {
        self.interval(i).length()
    }

    pub open spec fn task(self, t: int) -> Task<N> {
        self.input.tasks@[t]
    }

    pub open spec fn candidate(self, c: int) -> MovementCandidate<N> {
        self.input.movements@[c]
    }

    pub open spec fn target(self) -> N {
        self.input.horizon.parcel_target_t
    }

    pub open spec fn order(self, l: int) -> Seq<usize> {
        authored(self.input.tasks@, self.input.loaders@[l].id)
    }

    pub fn find_order(&self, l: usize) -> (r: Vec<usize>)
        requires
            self.ready(),
            l < self.input.loaders@.len(),
        ensures
            r@ == self.order(l as int),
            forall|q: int| 0 <= q < r@.len() ==> (#[trigger] r@[q]) < self.input.tasks@.len(),
    {
        authored_order(&self.input.tasks, self.input.loaders[l].id)
    }

    pub open spec fn dig_rate(self, l: int, i: int) -> N {
        if i < self.input.loaders@[l].rates@.len() {
            self.input.loaders@[l].rates@[i].dig_tph
        } else {
            N::of_whole(0)
        }
    }

    pub open spec fn reclaim_rate(self, l: int, i: int) -> N {
        if i < self.input.loaders@[l].rates@.len() {
            self.input.loaders@[l].rates@[i].reclaim_tph
        } else {
            N::of_whole(0)
        }
    }

    pub fn find_dig_rate(&self, l: usize, i: usize) -> (r: N)
        requires
            l < self.input.loaders@.len(),
        ensures
            r == self.dig_rate(l as int, i as int),
    {
        if i < self.input.loaders[l].rates.len() {
            self.input.loaders[l].rates[i].dig_tph
        } else {
            N::whole(0)
        }
    }

    pub fn find_reclaim_rate(&self, l: usize, i: usize) -> (r: N)
        requires
            l < self.input.loaders@.len(),
        ensures
            r == self.reclaim_rate(l as int, i as int),
    {
        if i < self.input.loaders[l].rates.len() {
            self.input.loaders[l].rates[i].reclaim_tph
        } else {
            N::whole(0)
        }
    }

    pub open spec fn active(self, t: int, i: int) -> bool {
        in_window(self.task(t), self.interval(i))
    }

    pub fn is_active(&self, t: usize, i: usize) -> (r: bool)
        requires
            t < self.input.tasks@.len(),
            i < self.horizon(),
        ensures
            r == self.active(t as int, i as int),
    {
        task_active(&self.input.tasks[t], self.input.intervals[i])
    }

    /// A candidate's destination takes material in an interval and its truck
    /// class has hours.
    pub open spec fn usable(self, c: int, i: int) -> bool {
        receiving(*self.input, self.candidate(c), i) && match keyed(
            self.input.trucks@,
            self.candidate(c).truck.0,
        ) {
            Some(k) => N::of_whole(0).below(hours_at(self.input.trucks@[k].hours@, i)),
            None => false,
        }
    }

    /// Whether a candidate can be used at all in an interval.
    pub fn candidate_is_fixed_operable(&self, c: usize, i: usize) -> (r: bool)
        requires
            c < self.input.movements@.len(),
            i < self.horizon(),
        ensures
            r == self.usable(c as int, i as int),
    {
        let candidate = &self.input.movements[c];
        let receiving: bool = destination_receiving(self.input, candidate, i);
        let truck: bool = match find_key(&self.input.trucks, candidate.truck.0) {
            Some(k) => N::whole(0).is_below(find_hours(&self.input.trucks[k].hours, i)),
            None => false,
        };
        receiving && truck
    }

    /// A candidate is a route that can be used in an interval.
    pub open spec fn routed(
        self,
        c: int,
        loader: LoaderId,
        activity: Activity,
        source: SourceId,
        material: MaterialId,
        i: int,
    ) -> bool {
        is_route(self.candidate(c), loader, activity, source, material) && self.usable(c, i)
    }

    pub fn is_routed(
        &self,
        c: usize,
        loader: LoaderId,
        activity: Activity,
        source: SourceId,
        material: MaterialId,
        i: usize,
    ) -> (r: bool)
        requires
            c < self.input.movements@.len(),
            i < self.horizon(),
        ensures
            r == self.routed(c as int, loader, activity, source, material, i as int),
    {
        let candidate = &self.input.movements[c];
        candidate.loader == loader && candidate.activity == activity && candidate.source == source
            && candidate.material == material && self.candidate_is_fixed_operable(c, i)
    }

    pub open spec fn routes(
        self,
        loader: LoaderId,
        activity: Activity,
        source: SourceId,
        material: MaterialId,
        i: int,
    ) -> spec_fn(int) -> Seq<usize> {
        |c: int|
            if self.routed(c, loader, activity, source, material, i) {
                seq![c as usize]
            } else {
                Seq::empty()
            }
    }

    /// The routes of a material from a source that can be used in an interval.
    pub fn routes_for(
        &self,
        loader: LoaderId,
        activity: Activity,
        source: SourceId,
        material: MaterialId,
        i: usize,
    ) -> (r: Vec<usize>)
        requires
            i < self.horizon(),
        ensures
            r@ == crate::listing::flat(
                self.input.movements@.len(),
                self.routes(loader, activity, source, material, i as int),
            ),
            forall|q: int| 0 <= q < r@.len() ==> (#[trigger] r@[q]) < self.input.movements@.len(),
    {
        let mut out: Vec<usize> = Vec::new();
        let ghost f = self.routes(loader, activity, source, material, i as int);
        for c in 0..self.input.movements.len()
            invariant
                i < self.horizon(),
                f == self.routes(loader, activity, source, material, i as int),
                out@ == crate::listing::flat(c as nat, f),
                forall|q: int| 0 <= q < out@.len() ==> (#[trigger] out@[q]) < self.input.movements@.len(),
        {
            if self.is_routed(c, loader, activity, source, material, i) {
                out.push(c);
            }
            assert(out@ =~= crate::listing::flat(c as nat, f) + f(c as int));
        }
        out
    }

    /// Some route can take a material from a source in an interval.
    pub open spec fn has_route(
        self,
        loader: LoaderId,
        activity: Activity,
        source: SourceId,
        material: MaterialId,
        i: int,
    ) -> bool {
        exists|c: int|
            0 <= c < self.input.movements@.len() && #[trigger] self.routed(c, loader, activity, source, material, i)
    }

    pub fn find_route(
        &self,
        loader: LoaderId,
        activity: Activity,
        source: SourceId,
        material: MaterialId,
        i: usize,
    ) -> (r: bool)
        requires
            i < self.horizon(),
        ensures
            r == self.has_route(loader, activity, source, material, i as int),
    {
        for c in 0..self.input.movements.len()
            invariant
                i < self.horizon(),
                forall|q: int|
                    0 <= q < c ==> !#[trigger] self.routed(q, loader, activity, source, material, i as int),
        {
            if self.is_routed(c, loader, activity, source, material, i) {
                assert(self.routed(c as int, loader, activity, source, material, i as int));
                return true;
            }
        }
        false
    }

    /// Every material of a source has a route in an interval.
    pub open spec fn operable(self, loader: LoaderId, source: SourceId, shares: Seq<MaterialShare<N>>, i: int) -> bool {
        forall|k: int|
            0 <= k < shares.len() ==> self.has_route(
                loader,
                work_at(source),
                source,
                (#[trigger] shares[k]).material,
                i,
            )
    }

    /// Whether every material of a source has a route in an interval.
    pub fn source_operable(&self, loader: LoaderId, source: SourceId, shares: &Vec<MaterialShare<N>>, i: usize) -> (r: bool)
        requires
            i < self.horizon(),
        ensures
            r == self.operable(loader, source, shares@, i as int),
    {
        let activity = find_work(source);
        for k in 0..shares.len()
            invariant
                i < self.horizon(),
                activity == work_at(source),
                forall|q: int|
                    0 <= q < k ==> self.has_route(loader, activity, source, (#[trigger] shares@[q]).material, i as int),
        {
            if !self.find_route(loader, activity, source, shares[k].material, i) {
                assert(!self.has_route(loader, activity, source, shares@[k as int].material, i as int));
                return false;
            }
        }
        true
    }

    /// The index of a task's loader.
    pub open spec fn loader_of(self, t: int) -> Option<int> {
        keyed(self.input.loaders@, self.task(t).loader.0)
    }

    /// A loader can dig a stage of a task in an interval.
    pub open spec fn dig_stage(self, l: int, t: int, i: int, stage: int) -> bool {
        match self.task(t).kind {
            TaskKind::Dig { sequence } => match keyed(self.input.ground@, sequence@[stage].0) {
                Some(g) => self.active(t, i) && N::of_whole(0).below(self.dig_rate(l, i)) && self.operable(
                    self.task(t).loader,
                    SourceId::Ground(sequence@[stage]),
                    self.input.ground@[g].material@,
                    i,
                ),
                None => false,
            },
            TaskKind::Reclaim { .. } => false,
        }
    }

    pub open spec fn stages(self, t: int) -> nat {
        match self.task(t).kind {
            TaskKind::Dig { sequence } => sequence@.len(),
            TaskKind::Reclaim { .. } => 0,
        }
    }

    pub fn can_dig_stage(&self, l: usize, t: usize, i: usize, stage: usize) -> (r: bool)
        requires
            l < self.input.loaders@.len(),
            t < self.input.tasks@.len(),
            i < self.horizon(),
            stage < self.stages(t as int),
        ensures
            r == self.dig_stage(l as int, t as int, i as int, stage as int),
    {
        match &self.input.tasks[t].kind {
            TaskKind::Dig { sequence } => match find_key(&self.input.ground, sequence[stage].0) {
                Some(g) => self.is_active(t, i) && N::whole(0).is_below(self.find_dig_rate(l, i)) && self.source_operable(
                    self.input.tasks[t].loader,
                    SourceId::Ground(sequence[stage]),
                    &self.input.ground[g].material,
                    i,
                ),
                None => false,
            },
            TaskKind::Reclaim { .. } => false,
        }
    }

    pub fn find_stages(&self, t: usize) -> (r: usize)
        requires
            t < self.input.tasks@.len(),
        ensures
            r == self.stages(t as int),
    {
        match &self.input.tasks[t].kind {
            TaskKind::Dig { sequence } => sequence.len(),
            TaskKind::Reclaim { .. } => 0,
        }
    }

    /// The kind of a destination is a stockpile.
    pub open spec fn ends_on(self, destination: DestinationId, pile: StockpileId) -> bool {
        match keyed(self.input.destinations@, destination.0) {
            Some(d) => self.input.destinations@[d].kind == DestinationKind::Stockpile(pile),
            None => false,
        }
    }

    pub fn does_end_on(&self, destination: DestinationId, pile: StockpileId) -> (r: bool)
        ensures
            r == self.ends_on(destination, pile),
    {
        match find_key(&self.input.destinations, destination.0) {
            Some(d) => self.input.destinations[d].kind == DestinationKind::Stockpile(pile),
            None => false,
        }
    }

    /// What a pile can hold, zero where it is not known.
    pub open spec fn capacity(self, pile: StockpileId) -> N {
        match keyed(self.input.stockpiles@, pile.0) {
            Some(p) => self.input.stockpiles@[p].capacity_t,
            None => N::of_whole(0),
        }
    }

    pub fn find_capacity(&self, pile: StockpileId) -> (r: N)
        ensures
            r == self.capacity(pile),
    {
        match find_key(&self.input.stockpiles, pile.0) {
            Some(p) => self.input.stockpiles[p].capacity_t,
            None => N::whole(0),
        }
    }

    pub open spec fn ground_part(self) -> spec_fn(int) -> Option<N> {
        |g: int| Some(self.input.ground@[g].tonnes_t)
    }

    pub open spec fn lot_part(self, p: int) -> spec_fn(N, int) -> N {
        |total: N, o: int| total.plus(self.input.stockpiles@[p].opening@[o].tonnes_t)
    }

    pub open spec fn pile_part(self) -> spec_fn(N, int) -> N {
        |total: N, p: int| folded(self.input.stockpiles@[p].opening@.len(), total, self.lot_part(p))
    }

    /// All the material that there is.
    pub open spec fn material_bound(self) -> N {
        sum_to(self.input.ground@.len(), self.ground_part()).plus(
            folded(self.input.stockpiles@.len(), N::of_whole(0), self.pile_part()),
        )
    }

    pub fn find_material_bound(&self) -> (r: N)
        ensures
            r == self.material_bound(),
    {
        let mut ground = N::whole(0);
        for g in 0..self.input.ground.len()
            invariant
                ground == sum_to(g as nat, self.ground_part()),
        {
            ground = ground.add(self.input.ground[g].tonnes_t);
        }
        let mut held = N::whole(0);
        let ghost step = self.pile_part();
        for p in 0..self.input.stockpiles.len()
            invariant
                step == self.pile_part(),
                held == folded(p as nat, N::of_whole(0), step),
        {
            let ghost before = held;
            let ghost inner = self.lot_part(p as int);
            let lots: usize = self.input.stockpiles[p].opening.len();
            for o in 0..lots
                invariant
                    p < self.input.stockpiles@.len(),
                    lots == self.input.stockpiles@[p as int].opening@.len(),
                    inner == self.lot_part(p as int),
                    held == folded(o as nat, before, inner),
            {
                held = held.add(self.input.stockpiles[p].opening[o].tonnes_t);
            }
            assert(held == step(before, p as int));
        }
        ground.add(held)
    }

    /// What a parcel must hold at least.
    pub open spec fn parcel_floor(self) -> N {
        self.input.horizon.tolerances.parcel_occupancy_t.upper(N::of_whole(2).times(unit_dust(*self.input)))
    }

    pub fn find_parcel_floor(&self) -> (r: N)
        ensures
            r == self.parcel_floor(),
    {
        self.input.horizon.tolerances.parcel_occupancy_t.larger(N::whole(2).mul(inventory_dust(self.input)))
    }

    /// The cell before a cell.
    pub open spec fn cell_before(self, i: int, s: int) -> Option<(int, int)> {
        if s > 0 {
            Some((i, s - 1))
        } else if i > 0 {
            Some((i - 1, self.segments(i - 1) - 1))
        } else {
            None
        }
    }

    pub fn find_cell_before(&self, i: usize, s: usize) -> (r: Option<(usize, usize)>)
        requires
            self.ready(),
            i < self.horizon(),
            s < self.segments(i as int),
        ensures
            match r {
                Some(cell) => self.cell_before(i as int, s as int) == Some((cell.0 as int, cell.1 as int)) && cell.0
                    < self.horizon() && cell.1 < self.segments(cell.0 as int),
                None => self.cell_before(i as int, s as int) is None,
            },
    {
        if s > 0 {
            Some((i, s - 1))
        } else if i > 0 {
            Some((i - 1, self.budgets[i - 1] - 1))
        } else {
            None
        }
    }
}

} // verus!
