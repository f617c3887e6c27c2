//! What is left, held and received after each interval, and how far limits are
//! exceeded.
use vstd::prelude::*;

use crate::ledger::{pair_key, paired, put_under, Ledger};
use crate::listing::{find_key, folded, keyed, last_where, sum_to};
use crate::optimisation::ids::{
    Activity, DestinationId, DestinationKind, GroundId, LoaderId, SourceId, StockpileId, TaskId, TruckClassId,
};
use crate::optimisation::input::{opening_total, total_opening, TaskKind};
use crate::optimisation::parcel::base::{find_hours, hours_at, Parcels};
use crate::optimisation::result::{
    ActivityRecord, BalanceRecord, MovementRecord, ReceiptParcel, ReclaimRecord,
};
use crate::scalar::Scalar;

verus! {

/// Which work a sum takes.
#[derive(Clone, Copy, Debug, PartialEq, Eq, Structural)]
pub enum WorkSelector {
    /// Digging of a block.
    Dug { ground: GroundId },
    /// All work on a source, up to an interval.
    UpTo { interval: usize, source: SourceId },
    /// A loader's activity in a cell.
    InCell { loader: LoaderId, interval: usize, segment: usize, activity: Activity },
}

/// Which movements a sum takes.
#[derive(Clone, Copy, Debug, PartialEq, Eq, Structural)]
pub enum CarriedSelector {
    UpTo { interval: usize, destination: DestinationId },
    OnDay { destination: DestinationId, day: u64 },
    Ever { destination: DestinationId },
    InCell { destination: DestinationId, interval: usize, segment: usize },
    /// The hours of a truck class in a cell.
    Hours { truck: TruckClassId, interval: usize, segment: usize },
}

/// Which reclaiming a sum takes.
#[derive(Clone, Copy, Debug, PartialEq, Eq, Structural)]
pub enum DrawnSelector {
    Ever { pile: StockpileId },
    UpTo { interval: usize, pile: StockpileId },
    InCell { pile: StockpileId, interval: usize, segment: usize },
    ByTask { task: TaskId },
}

pub open spec fn work_chosen<N>(sel: WorkSelector, row: ActivityRecord<N>) -> bool {
    match sel {
        WorkSelector::Dug { ground } => row.activity is Dig && row.source == SourceId::Ground(ground),
        WorkSelector::UpTo { interval, source } => row.interval <= interval && row.source == source,
        WorkSelector::InCell { loader, interval, segment, activity } => row.loader == loader && row.interval == interval
            && row.segment == segment && row.activity == activity,
    }
}

pub open spec fn drawn_chosen<N>(sel: DrawnSelector, row: ReclaimRecord<N>) -> bool {
    match sel {
        DrawnSelector::Ever { pile } => row.stockpile == pile,
        DrawnSelector::UpTo { interval, pile } => row.interval <= interval && row.stockpile == pile,
        DrawnSelector::InCell { pile, interval, segment } => row.interval == interval && row.segment == segment
            && row.stockpile == pile,
        DrawnSelector::ByTask { task } => row.task == task,
    }
}

pub open spec fn work_part<N>(rows: Seq<ActivityRecord<N>>, sel: WorkSelector) -> spec_fn(int) -> Option<N> {
    |j: int|
        if work_chosen(sel, rows[j]) {
            Some(rows[j].tonnes_t)
        } else {
            None
        }
}

pub open spec fn work_sum<N: Scalar>(rows: Seq<ActivityRecord<N>>, sel: WorkSelector) -> N {
    sum_to(rows.len(), work_part(rows, sel))
}

pub open spec fn drawn_part<N>(rows: Seq<ReclaimRecord<N>>, sel: DrawnSelector) -> spec_fn(int) -> Option<N> {
    |j: int|
        if drawn_chosen(sel, rows[j]) {
            Some(rows[j].tonnes_t)
        } else {
            None
        }
}

pub open spec fn drawn_sum<N: Scalar>(rows: Seq<ReclaimRecord<N>>, sel: DrawnSelector) -> N {
    sum_to(rows.len(), drawn_part(rows, sel))
}

pub open spec fn received_part<N>(parcels: Seq<ReceiptParcel<N>>, pile: StockpileId) -> spec_fn(int) -> Option<N> {
    |j: int|
        if parcels[j].stockpile == pile {
            Some(parcels[j].tonnes_t)
        } else {
            None
        }
}

pub open spec fn received_sum<N: Scalar>(parcels: Seq<ReceiptParcel<N>>, pile: StockpileId) -> N {
    sum_to(parcels.len(), received_part(parcels, pile))
}

fn add_work<N: Scalar>(rows: &Vec<ActivityRecord<N>>, sel: WorkSelector) -> (r: N)
    ensures
        r == work_sum(rows@, sel),
{
    let mut total = N::whole(0);
    for j in 0..rows.len()
        invariant
            total == sum_to(j as nat, work_part(rows@, sel)),
    {
        let row = &rows[j];
        let chosen: bool = match sel {
            WorkSelector::Dug { ground } => row.activity == Activity::Dig && row.source == SourceId::Ground(ground),
            WorkSelector::UpTo { interval, source } => row.interval <= interval && row.source == source,
            WorkSelector::InCell { loader, interval, segment, activity } => row.loader == loader && row.interval
                == interval && row.segment == segment && row.activity == activity,
        };
        if chosen {
            total = total.add(row.tonnes_t);
        }
    }
    total
}

fn add_drawn<N: Scalar>(rows: &Vec<ReclaimRecord<N>>, sel: DrawnSelector) -> (r: N)
    ensures
        r == drawn_sum(rows@, sel),
{
    let mut total = N::whole(0);
    for j in 0..rows.len()
        invariant
            total == sum_to(j as nat, drawn_part(rows@, sel)),
    {
        let row = &rows[j];
        let chosen: bool = match sel {
            DrawnSelector::Ever { pile } => row.stockpile == pile,
            DrawnSelector::UpTo { interval, pile } => row.interval <= interval && row.stockpile == pile,
            DrawnSelector::InCell { pile, interval, segment } => row.interval == interval && row.segment == segment
                && row.stockpile == pile,
            DrawnSelector::ByTask { task } => row.task == task,
        };
        if chosen {
            total = total.add(row.tonnes_t);
        }
    }
    total
}

fn add_received<N: Scalar>(parcels: &Vec<ReceiptParcel<N>>, pile: StockpileId) -> (r: N)
    ensures
        r == received_sum(parcels@, pile),
{
    let mut total = N::whole(0);
    for j in 0..parcels.len()
        invariant
            total == sum_to(j as nat, received_part(parcels@, pile)),
    {
        if parcels[j].stockpile == pile {
            total = total.add(parcels[j].tonnes_t);
        }
    }
    total
}

/// What is published.
pub struct Published<'b, N> {
    pub activities: &'b Vec<ActivityRecord<N>>,
    pub movements: &'b Vec<MovementRecord<N>>,
    pub parcels: &'b Vec<ReceiptParcel<N>>,
    pub reclaims: &'b Vec<ReclaimRecord<N>>,
    pub durations: &'b Vec<Vec<N>>,
}

impl<'a, N: Scalar> Parcels<'a, N> {
    pub open spec fn carried_chosen(self, sel: CarriedSelector, row: MovementRecord<N>) -> bool {
        match sel {
            CarriedSelector::UpTo { interval, destination } => row.interval <= interval && row.destination == destination,
            CarriedSelector::OnDay { destination, day } => row.destination == destination && self.interval(
                row.interval as int,
            ).calendar_day() == day,
            CarriedSelector::Ever { destination } => row.destination == destination,
            CarriedSelector::InCell { destination, interval, segment } => row.interval == interval && row.segment
                == segment && row.destination == destination,
            CarriedSelector::Hours { truck, interval, segment } => row.interval == interval && row.segment == segment
                && row.truck == truck,
        }
    }

    pub open spec fn carried_part(self, rows: Seq<MovementRecord<N>>, sel: CarriedSelector) -> spec_fn(int) -> Option<N> {
        |j: int|
            if self.carried_chosen(sel, rows[j]) {
                Some(
                    match sel {
                        CarriedSelector::Hours { .. } => rows[j].truck_hours,
                        _ => rows[j].tonnes_t,
                    },
                )
            } else {
                None
            }
    }

    pub open spec fn carried_sum(self, rows: Seq<MovementRecord<N>>, sel: CarriedSelector) -> N {
        sum_to(rows.len(), self.carried_part(rows, sel))
    }

    /// Movements lie within the horizon.
    pub open spec fn movements_stand(self, rows: Seq<MovementRecord<N>>) -> bool {
        forall|j: int| 0 <= j < rows.len() ==> (#[trigger] rows[j]).interval < self.horizon()
    }

    fn add_carried(&self, rows: &Vec<MovementRecord<N>>, sel: CarriedSelector) -> (r: N)
        requires
            self.movements_stand(rows@),
        ensures
            r == self.carried_sum(rows@, sel),
    {
        let mut total = N::whole(0);
        for j in 0..rows.len()
            invariant
                self.movements_stand(rows@),
                total == sum_to(j as nat, self.carried_part(rows@, sel)),
        {
            let row = &rows[j];
            let chosen: bool = match sel {
                CarriedSelector::UpTo { interval, destination } => row.interval <= interval && row.destination
                    == destination,
                CarriedSelector::OnDay { destination, day } => row.destination == destination
                    && self.input.intervals[row.interval].day() as u64 == day,
                CarriedSelector::Ever { destination } => row.destination == destination,
                CarriedSelector::InCell { destination, interval, segment } => row.interval == interval && row.segment
                    == segment && row.destination == destination,
                CarriedSelector::Hours { truck, interval, segment } => row.interval == interval && row.segment == segment
                    && row.truck == truck,
            };
            if chosen {
                let share = match sel {
                    CarriedSelector::Hours { .. } => row.truck_hours,
                    _ => row.tonnes_t,
                };
                total = total.add(share);
            }
        }
        total
    }

    // Whether more segments might have helped.

    /// What is left of a block in the end, zero where it is not known.
    pub open spec fn left_in(self, activities: Seq<ActivityRecord<N>>, ground: GroundId) -> N {
        match keyed(self.input.ground@, ground.0) {
            Some(g) => self.input.ground@[g].tonnes_t.minus(work_sum(activities, WorkSelector::Dug { ground })),
            None => N::of_whole(0),
        }
    }

    /// What is left on a pile in the end, zero where it is not known.
    pub open spec fn left_on(self, parcels: Seq<ReceiptParcel<N>>, reclaims: Seq<ReclaimRecord<N>>, pile: StockpileId) -> N {
        match keyed(self.input.stockpiles@, pile.0) {
            Some(p) => opening_total(self.input.stockpiles@[p].opening@).plus(received_sum(parcels, pile)).minus(
                drawn_sum(reclaims, DrawnSelector::Ever { pile }),
            ),
            None => N::of_whole(0),
        }
    }

    /// A task has something left to work on.
    pub open spec fn unfinished(
        self,
        activities: Seq<ActivityRecord<N>>,
        parcels: Seq<ReceiptParcel<N>>,
        reclaims: Seq<ReclaimRecord<N>>,
        t: int,
    ) -> bool {
        match self.task(t).kind {
            TaskKind::Dig { sequence } => exists|k: int|
                0 <= k < sequence@.len() && self.input.horizon.tolerances.tonnes_t.below(
                    self.left_in(activities, #[trigger] sequence@[k]),
                ),
            TaskKind::Reclaim { approved_sources, .. } => exists|k: int|
                0 <= k < approved_sources@.len() && self.input.horizon.tolerances.tonnes_t.below(
                    self.left_on(parcels, reclaims, #[trigger] approved_sources@[k]),
                ),
        }
    }

    /// A loader works in the last segment of an interval.
    pub open spec fn works_last(self, activities: Seq<ActivityRecord<N>>, l: int, i: int) -> bool {
        exists|j: int|
            0 <= j < activities.len() && (#[trigger] activities[j]).loader == self.input.loaders@[l].id
                && activities[j].interval == i && activities[j].segment == self.segments(i) - 1 && N::of_whole(
                0,
            ).below(activities[j].tonnes_t)
    }

    /// A loader has a task open in an interval that is not finished.
    pub open spec fn has_more(
        self,
        activities: Seq<ActivityRecord<N>>,
        parcels: Seq<ReceiptParcel<N>>,
        reclaims: Seq<ReclaimRecord<N>>,
        l: int,
        i: int,
    ) -> bool {
        exists|t: int|
            0 <= t < self.input.tasks@.len() && (#[trigger] self.input.tasks@[t]).loader == self.input.loaders@[l].id
                && self.active(t, i) && self.unfinished(activities, parcels, reclaims, t)
    }

    /// A loader ran out of segments with work left.
    pub open spec fn cut_short(
        self,
        activities: Seq<ActivityRecord<N>>,
        parcels: Seq<ReceiptParcel<N>>,
        reclaims: Seq<ReclaimRecord<N>>,
        l: int,
        i: int,
    ) -> bool {
        self.works_last(activities, l, i) && self.has_more(activities, parcels, reclaims, l, i)
    }

    /// Some loader ran out of segments with work left.
    pub open spec fn restricted(
        self,
        activities: Seq<ActivityRecord<N>>,
        parcels: Seq<ReceiptParcel<N>>,
        reclaims: Seq<ReclaimRecord<N>>,
    ) -> bool {
        exists|i: int, l: int|
            0 <= i < self.horizon() && 0 <= l < self.input.loaders@.len() && #[trigger] self.cut_short(
                activities,
                parcels,
                reclaims,
                l,
                i,
            )
    }

    fn find_left_in(&self, activities: &Vec<ActivityRecord<N>>, ground: GroundId) -> (r: N)
        ensures
            r == self.left_in(activities@, ground),
    {
        match find_key(&self.input.ground, ground.0) {
            Some(g) => self.input.ground[g].tonnes_t.sub(add_work(activities, WorkSelector::Dug { ground })),
            None => N::whole(0),
        }
    }

    fn find_left_on(&self, parcels: &Vec<ReceiptParcel<N>>, reclaims: &Vec<ReclaimRecord<N>>, pile: StockpileId) -> (r: N)
        ensures
            r == self.left_on(parcels@, reclaims@, pile),
    {
        match find_key(&self.input.stockpiles, pile.0) {
            Some(p) => total_opening(&self.input.stockpiles[p].opening).add(add_received(parcels, pile)).sub(
                add_drawn(reclaims, DrawnSelector::Ever { pile }),
            ),
            None => N::whole(0),
        }
    }

    fn is_unfinished(&self, published: &Published<'_, N>, t: usize) -> (r: bool)
        requires
            t < self.input.tasks@.len(),
        ensures
            r == self.unfinished(published.activities@, published.parcels@, published.reclaims@, t as int),
    {
        let least = self.input.horizon.tolerances.tonnes_t;
        match &self.input.tasks[t].kind {
            TaskKind::Dig { sequence } => {
                let mut found: bool = false;
                for k in 0..sequence.len()
                    invariant
                        least == self.input.horizon.tolerances.tonnes_t,
                        found <==> exists|q: int|
                            0 <= q < k && least.below(self.left_in(published.activities@, #[trigger] sequence@[q])),
                {
                    if least.is_below(self.find_left_in(published.activities, sequence[k])) {
                        assert(least.below(self.left_in(published.activities@, sequence@[k as int])));
                        found = true;
                    }
                }
                assert(*sequence == self.task(t as int).kind->sequence);
                found
            },
            TaskKind::Reclaim { approved_sources, maximum_t: _ } => {
                let mut found: bool = false;
                for k in 0..approved_sources.len()
                    invariant
                        least == self.input.horizon.tolerances.tonnes_t,
                        found <==> exists|q: int|
                            0 <= q < k && least.below(
                                self.left_on(
                                    published.parcels@,
                                    published.reclaims@,
                                    #[trigger] approved_sources@[q],
                                ),
                            ),
                {
                    if least.is_below(self.find_left_on(published.parcels, published.reclaims, approved_sources[k])) {
                        assert(least.below(
                            self.left_on(published.parcels@, published.reclaims@, approved_sources@[k as int]),
                        ));
                        found = true;
                    }
                }
                assert(*approved_sources == self.task(t as int).kind->approved_sources);
                found
            },
        }
    }

    fn does_work_last(&self, activities: &Vec<ActivityRecord<N>>, l: usize, i: usize) -> (r: bool)
        requires
            self.ready(),
            l < self.input.loaders@.len(),
            i < self.horizon(),
        ensures
            r == self.works_last(activities@, l as int, i as int),
    {
        let loader = self.input.loaders[l].id;
        let last: usize = self.budgets[i] - 1;
        for j in 0..activities.len()
            invariant
                loader == self.input.loaders@[l as int].id,
                last == self.segments(i as int) - 1,
                forall|q: int|
                    0 <= q < j ==> !((#[trigger] activities@[q]).loader == loader && activities@[q].interval == i
                        && activities@[q].segment == last && N::of_whole(0).below(activities@[q].tonnes_t)),
        {
            let row = &activities[j];
            if row.loader == loader && row.interval == i && row.segment == last && N::whole(0).is_below(row.tonnes_t) {
                assert(activities@[j as int].loader == loader);
                return true;
            }
        }
        false
    }

    fn does_have_more(&self, published: &Published<'_, N>, l: usize, i: usize) -> (r: bool)
        requires
            l < self.input.loaders@.len(),
            i < self.horizon(),
        ensures
            r == self.has_more(
                published.activities@,
                published.parcels@,
                published.reclaims@,
                l as int,
                i as int,
            ),
    {
        let loader = self.input.loaders[l].id;
        for t in 0..self.input.tasks.len()
            invariant
                i < self.horizon(),
                loader == self.input.loaders@[l as int].id,
                forall|q: int|
                    0 <= q < t ==> !((#[trigger] self.input.tasks@[q]).loader == loader && self.active(q, i as int)
                        && self.unfinished(published.activities@, published.parcels@, published.reclaims@, q)),
        {
            if self.input.tasks[t].loader == loader && self.is_active(t, i) && self.is_unfinished(published, t) {
                assert(self.input.tasks@[t as int].loader == loader);
                return true;
            }
        }
        false
    }

    /// Whether some loader ran out of segments with work left.
    pub fn is_restricted(&self, published: &Published<'_, N>) -> (r: bool)
        requires
            self.ready(),
        ensures
            r == self.restricted(published.activities@, published.parcels@, published.reclaims@),
    {
        for i in 0..self.input.intervals.len()
            invariant
                self.ready(),
                forall|a: int, b: int|
                    0 <= a < i && 0 <= b < self.input.loaders@.len() ==> !#[trigger] self.cut_short(
                        published.activities@,
                        published.parcels@,
                        published.reclaims@,
                        b,
                        a,
                    ),
        {
            for l in 0..self.input.loaders.len()
                invariant
                    self.ready(),
                    i < self.horizon(),
                    forall|b: int|
                        0 <= b < l ==> !#[trigger] self.cut_short(
                            published.activities@,
                            published.parcels@,
                            published.reclaims@,
                            b,
                            i as int,
                        ),
            {
                if self.does_work_last(published.activities, l, i) && self.does_have_more(published, l, i) {
                    assert(self.cut_short(
                        published.activities@,
                        published.parcels@,
                        published.reclaims@,
                        l as int,
                        i as int,
                    ));
                    return true;
                }
            }
        }
        false
    }

    // Balances.

    pub open spec fn ground_balance(self, activities: Seq<ActivityRecord<N>>, i: int) -> spec_fn(
        Seq<(u64, N)>,
        int,
    ) -> Seq<(u64, N)> {
        |held: Seq<(u64, N)>, g: int|
            {
                let ground = self.input.ground@[g];
                put_under(
                    held,
                    ground.id.0 as u64,
                    ground.tonnes_t.minus(
                        work_sum(
                            activities,
                            WorkSelector::UpTo { interval: i as usize, source: SourceId::Ground(ground.id) },
                        ),
                    ),
                )
            }
    }

    pub open spec fn is_pile(self, pile: StockpileId) -> spec_fn(int) -> bool {
        |d: int| self.input.destinations@[d].kind == DestinationKind::Stockpile(pile)
    }

    /// What a pile received up to an interval.
    pub open spec fn brought(self, movements: Seq<MovementRecord<N>>, pile: StockpileId, i: int) -> N {
        match last_where(self.input.destinations@.len(), self.is_pile(pile)) {
            Some(d) => self.carried_sum(
                movements,
                CarriedSelector::UpTo { interval: i as usize, destination: self.input.destinations@[d].id },
            ),
            None => N::of_whole(0),
        }
    }

    pub open spec fn pile_balance(
        self,
        movements: Seq<MovementRecord<N>>,
        reclaims: Seq<ReclaimRecord<N>>,
        i: int,
    ) -> spec_fn(Seq<(u64, N)>, int) -> Seq<(u64, N)> {
        |held: Seq<(u64, N)>, p: int|
            {
                let pile = self.input.stockpiles@[p];
                put_under(
                    held,
                    pile.id.0 as u64,
                    opening_total(pile.opening@).plus(self.brought(movements, pile.id, i)).minus(
                        drawn_sum(reclaims, DrawnSelector::UpTo { interval: i as usize, pile: pile.id }),
                    ),
                )
            }
    }

    pub open spec fn end_balance(self, movements: Seq<MovementRecord<N>>, i: int) -> spec_fn(Seq<(u64, N)>, int) -> Seq<
        (u64, N),
    > {
        |held: Seq<(u64, N)>, d: int|
            {
                let destination = self.input.destinations@[d].id;
                put_under(
                    held,
                    destination.0 as u64,
                    self.carried_sum(movements, CarriedSelector::UpTo { interval: i as usize, destination }),
                )
            }
    }

    pub open spec fn day_balance(self, movements: Seq<MovementRecord<N>>, i: int) -> spec_fn(Seq<(u64, N)>, int) -> Seq<
        (u64, N),
    > {
        |held: Seq<(u64, N)>, d: int|
            {
                let destination = self.input.destinations@[d];
                let day = self.interval(i).calendar_day();
                if destination.kind is Crusher {
                    put_under(
                        held,
                        paired(destination.id.0, day),
                        self.carried_sum(
                            movements,
                            CarriedSelector::OnDay { destination: destination.id, day: day as u64 },
                        ),
                    )
                } else {
                    held
                }
            }
    }

    /// A record says what is left, held and received after an interval.
    pub open spec fn balanced(
        self,
        activities: Seq<ActivityRecord<N>>,
        movements: Seq<MovementRecord<N>>,
        reclaims: Seq<ReclaimRecord<N>>,
        i: int,
        record: BalanceRecord<N>,
    ) -> bool {
        &&& record.interval == i
        &&& record.ground_remaining_t@ == folded(
            self.input.ground@.len(),
            Seq::empty(),
            self.ground_balance(activities, i),
        )
        &&& record.stockpile_closing_t@ == folded(
            self.input.stockpiles@.len(),
            Seq::empty(),
            self.pile_balance(movements, reclaims, i),
        )
        &&& record.destination_cumulative_t@ == folded(
            self.input.destinations@.len(),
            Seq::empty(),
            self.end_balance(movements, i),
        )
        &&& record.crusher_daily_used_t@ == folded(
            self.input.destinations@.len(),
            Seq::empty(),
            self.day_balance(movements, i),
        )
    }

    fn find_brought(&self, movements: &Vec<MovementRecord<N>>, pile: StockpileId, i: usize) -> (r: N)
        requires
            self.movements_stand(movements@),
        ensures
            r == self.brought(movements@, pile, i as int),
    {
        let mut d: usize = self.input.destinations.len();
        while d > 0
            invariant
                self.movements_stand(movements@),
                d <= self.input.destinations@.len(),
                last_where(self.input.destinations@.len(), self.is_pile(pile)) == last_where(
                    d as nat,
                    self.is_pile(pile),
                ),
            decreases d,
        {
            if self.input.destinations[d - 1].kind == DestinationKind::Stockpile(pile) {
                let destination = self.input.destinations[d - 1].id;
                return self.add_carried(movements, CarriedSelector::UpTo { interval: i, destination });
            }
            d = d - 1;
        }
        N::whole(0)
    }

    fn balance(&self, published: &Published<'_, N>, i: usize) -> (record: BalanceRecord<N>)
        requires
            self.movements_stand(published.movements@),
            i < self.horizon(),
        ensures
            self.balanced(
                published.activities@,
                published.movements@,
                published.reclaims@,
                i as int,
                record,
            ),
    {
        let mut ground: Ledger<u64, N> = Ledger::new();
        let ghost first = self.ground_balance(published.activities@, i as int);
        for g in 0..self.input.ground.len()
            invariant
                first == self.ground_balance(published.activities@, i as int),
                ground@ == folded(g as nat, Seq::empty(), first),
        {
            let block = &self.input.ground[g];
            let sel = WorkSelector::UpTo { interval: i, source: SourceId::Ground(block.id) };
            ground.put(block.id.0 as u64, block.tonnes_t.sub(add_work(published.activities, sel)));
        }
        let mut piles: Ledger<u64, N> = Ledger::new();
        let ghost second = self.pile_balance(published.movements@, published.reclaims@, i as int);
        for p in 0..self.input.stockpiles.len()
            invariant
                self.movements_stand(published.movements@),
                second == self.pile_balance(published.movements@, published.reclaims@, i as int),
                piles@ == folded(p as nat, Seq::empty(), second),
        {
            let pile = &self.input.stockpiles[p];
            let held = total_opening(&pile.opening).add(self.find_brought(published.movements, pile.id, i)).sub(
                add_drawn(published.reclaims, DrawnSelector::UpTo { interval: i, pile: pile.id }),
            );
            piles.put(pile.id.0 as u64, held);
        }
        let mut ends: Ledger<u64, N> = Ledger::new();
        let mut days: Ledger<u64, N> = Ledger::new();
        let ghost third = self.end_balance(published.movements@, i as int);
        let ghost fourth = self.day_balance(published.movements@, i as int);
        let day: u32 = self.input.intervals[i].day();
        for d in 0..self.input.destinations.len()
            invariant
                self.movements_stand(published.movements@),
                day == self.interval(i as int).calendar_day(),
                third == self.end_balance(published.movements@, i as int),
                fourth == self.day_balance(published.movements@, i as int),
                ends@ == folded(d as nat, Seq::empty(), third),
                days@ == folded(d as nat, Seq::empty(), fourth),
        {
            let destination = self.input.destinations[d].id;
            ends.put(
                destination.0 as u64,
                self.add_carried(published.movements, CarriedSelector::UpTo { interval: i, destination }),
            );
            if let DestinationKind::Crusher = self.input.destinations[d].kind {
                days.put(
                    pair_key(destination.0, day),
                    self.add_carried(
                        published.movements,
                        CarriedSelector::OnDay { destination, day: day as u64 },
                    ),
                );
            }
        }
        BalanceRecord {
            interval: i,
            ground_remaining_t: ground,
            stockpile_closing_t: piles,
            destination_cumulative_t: ends,
            crusher_daily_used_t: days,
        }
    }

    /// Says what is left, held and received after every interval.
    pub fn publish_balances(&self, published: &Published<'_, N>) -> (r: Vec<BalanceRecord<N>>)
        requires
            self.movements_stand(published.movements@),
        ensures
            r@.len() == self.horizon(),
            forall|i: int|
                0 <= i < r@.len() ==> self.balanced(
                    published.activities@,
                    published.movements@,
                    published.reclaims@,
                    i,
                    #[trigger] r@[i],
                ),
    {
        let mut out: Vec<BalanceRecord<N>> = Vec::new();
        for i in 0..self.input.intervals.len()
            invariant
                self.movements_stand(published.movements@),
                out@.len() == i,
                forall|q: int|
                    0 <= q < out@.len() ==> self.balanced(
                        published.activities@,
                        published.movements@,
                        published.reclaims@,
                        q,
                        #[trigger] out@[q],
                    ),
        {
            out.push(self.balance(published, i));
        }
        out
    }

    // How far limits are exceeded.

    pub open spec fn loader_over(
        self,
        activities: Seq<ActivityRecord<N>>,
        durations: Seq<Vec<N>>,
        l: int,
        i: int,
    ) -> spec_fn(N, int) -> N {
        |most: N, s: int|
            {
                let (loader, interval, segment) = (self.input.loaders@[l].id, i as usize, s as usize);
                let time = durations[i]@[s];
                most.upper(
                    work_sum(
                        activities,
                        WorkSelector::InCell { loader, interval, segment, activity: Activity::Dig },
                    ).minus(self.dig_rate(l, i).times(time)),
                ).upper(
                    work_sum(
                        activities,
                        WorkSelector::InCell { loader, interval, segment, activity: Activity::Reclaim },
                    ).minus(self.reclaim_rate(l, i).times(time)),
                )
            }
    }

    pub open spec fn loader_interval_over(self, activities: Seq<ActivityRecord<N>>, durations: Seq<Vec<N>>, l: int) -> spec_fn(
        N,
        int,
    ) -> N {
        |most: N, i: int| folded(self.segments(i), most, self.loader_over(activities, durations, l, i))
    }

    pub open spec fn loaders_over(self, activities: Seq<ActivityRecord<N>>, durations: Seq<Vec<N>>) -> spec_fn(N, int) -> N {
        |most: N, l: int| folded(self.horizon(), most, self.loader_interval_over(activities, durations, l))
    }

    pub open spec fn truck_over(
        self,
        movements: Seq<MovementRecord<N>>,
        durations: Seq<Vec<N>>,
        k: int,
        i: int,
    ) -> spec_fn(N, int) -> N {
        |most: N, s: int|
            {
                let truck = self.input.trucks@[k];
                let units = hours_at(truck.hours@, i).over(self.length(i));
                most.upper(
                    self.carried_sum(
                        movements,
                        CarriedSelector::Hours { truck: truck.id, interval: i as usize, segment: s as usize },
                    ).minus(units.times(durations[i]@[s])),
                )
            }
    }

    pub open spec fn truck_interval_over(self, movements: Seq<MovementRecord<N>>, durations: Seq<Vec<N>>, k: int) -> spec_fn(
        N,
        int,
    ) -> N {
        |most: N, i: int| folded(self.segments(i), most, self.truck_over(movements, durations, k, i))
    }

    pub open spec fn trucks_over(self, movements: Seq<MovementRecord<N>>, durations: Seq<Vec<N>>) -> spec_fn(N, int) -> N {
        |most: N, k: int| folded(self.horizon(), most, self.truck_interval_over(movements, durations, k))
    }

    pub open spec fn day_over(self, movements: Seq<MovementRecord<N>>, d: int) -> spec_fn(N, int) -> N {
        |most: N, day: int|
            {
                let destination = self.input.destinations@[d];
                match destination.crusher_daily_t@[day] {
                    Some(limit) => most.upper(
                        self.carried_sum(
                            movements,
                            CarriedSelector::OnDay { destination: destination.id, day: day as u64 },
                        ).minus(limit),
                    ),
                    None => most,
                }
            }
    }

    pub open spec fn destinations_over(self, movements: Seq<MovementRecord<N>>) -> spec_fn(N, int) -> N {
        |most: N, d: int|
            {
                let destination = self.input.destinations@[d];
                match destination.kind {
                    DestinationKind::Crusher => folded(
                        destination.crusher_daily_t@.len(),
                        most,
                        self.day_over(movements, d),
                    ),
                    DestinationKind::Dump => match destination.capacity_t {
                        Some(capacity) => most.upper(
                            self.carried_sum(
                                movements,
                                CarriedSelector::Ever { destination: destination.id },
                            ).minus(capacity),
                        ),
                        None => most,
                    },
                    DestinationKind::Stockpile(_) => most,
                }
            }
    }

    /// The first destination that is a pile.
    pub open spec fn pile_end(self, pile: StockpileId) -> Option<int> {
        crate::listing::first_where(0, self.input.destinations@.len() as int, self.is_pile(pile))
    }

    /// What is on a pile after a cell, and the most that it has been over.
    pub open spec fn pile_over_cell(
        self,
        movements: Seq<MovementRecord<N>>,
        reclaims: Seq<ReclaimRecord<N>>,
        p: int,
        i: int,
    ) -> spec_fn((N, N), int) -> (N, N) {
        |state: (N, N), s: int|
            {
                let pile = self.input.stockpiles@[p];
                let (interval, segment) = (i as usize, s as usize);
                let filled = match self.pile_end(pile.id) {
                    Some(d) => state.0.plus(
                        self.carried_sum(
                            movements,
                            CarriedSelector::InCell {
                                destination: self.input.destinations@[d].id,
                                interval,
                                segment,
                            },
                        ),
                    ),
                    None => state.0,
                };
                let held = filled.minus(
                    drawn_sum(reclaims, DrawnSelector::InCell { pile: pile.id, interval, segment }),
                );
                (held, state.1.upper(held.minus(pile.capacity_t)))
            }
    }

    pub open spec fn pile_over_interval(
        self,
        movements: Seq<MovementRecord<N>>,
        reclaims: Seq<ReclaimRecord<N>>,
        p: int,
    ) -> spec_fn((N, N), int) -> (N, N) {
        |state: (N, N), i: int| folded(self.segments(i), state, self.pile_over_cell(movements, reclaims, p, i))
    }

    pub open spec fn piles_over(self, movements: Seq<MovementRecord<N>>, reclaims: Seq<ReclaimRecord<N>>) -> spec_fn(
        N,
        int,
    ) -> N {
        |most: N, p: int|
            {
                let pile = self.input.stockpiles@[p];
                let opening = opening_total(pile.opening@);
                folded(
                    self.horizon(),
                    (opening, most.upper(opening.minus(pile.capacity_t))),
                    self.pile_over_interval(movements, reclaims, p),
                ).1
            }
    }

    pub open spec fn tasks_over(self, reclaims: Seq<ReclaimRecord<N>>) -> spec_fn(N, int) -> N {
        |most: N, t: int|
            match self.task(t).kind {
                TaskKind::Reclaim { approved_sources, maximum_t: Some(maximum) } => most.upper(
                    drawn_sum(reclaims, DrawnSelector::ByTask { task: self.task(t).id }).minus(maximum),
                ),
                _ => most,
            }
    }

    /// How far any limit is exceeded at most.
    pub open spec fn excess(
        self,
        activities: Seq<ActivityRecord<N>>,
        movements: Seq<MovementRecord<N>>,
        reclaims: Seq<ReclaimRecord<N>>,
        durations: Seq<Vec<N>>,
    ) -> N {
        let by_loader = folded(
            self.input.loaders@.len(),
            N::of_whole(0),
            self.loaders_over(activities, durations),
        );
        let by_truck = folded(self.input.trucks@.len(), by_loader, self.trucks_over(movements, durations));
        let by_end = folded(self.input.destinations@.len(), by_truck, self.destinations_over(movements));
        let by_pile = folded(self.input.stockpiles@.len(), by_end, self.piles_over(movements, reclaims));
        folded(self.input.tasks@.len(), by_pile, self.tasks_over(reclaims)).upper(N::of_whole(0))
    }

    /// There is a duration for every cell.
    pub open spec fn timed(self, durations: Seq<Vec<N>>) -> bool {
        durations.len() == self.horizon() && forall|i: int|
            0 <= i < durations.len() ==> (#[trigger] durations[i])@.len() == self.segments(i)
    }

    fn exceed_loader(&self, published: &Published<'_, N>, l: usize, start: N) -> (r: N)
        requires
            self.ready(),
            self.timed(published.durations@),
            l < self.input.loaders@.len(),
        ensures
            r == self.loaders_over(published.activities@, published.durations@)(start, l as int),
    {
        let loader = self.input.loaders[l].id;
        let mut most = start;
        let ghost outer = self.loader_interval_over(published.activities@, published.durations@, l as int);
        for i in 0..self.input.intervals.len()
            invariant
                self.ready(),
                self.timed(published.durations@),
                l < self.input.loaders@.len(),
                loader == self.input.loaders@[l as int].id,
                outer == self.loader_interval_over(published.activities@, published.durations@, l as int),
                most == folded(i as nat, start, outer),
        {
            let segments: usize = self.budgets[i];
            let times = &published.durations[i];
            let dig_rate = self.find_dig_rate(l, i);
            let reclaim_rate = self.find_reclaim_rate(l, i);
            let ghost before = most;
            let ghost inner = self.loader_over(published.activities@, published.durations@, l as int, i as int);
            for s in 0..segments
                invariant
                    segments == self.segments(i as int),
                    times == published.durations@[i as int],
                    times@.len() == segments,
                    loader == self.input.loaders@[l as int].id,
                    dig_rate == self.dig_rate(l as int, i as int),
                    reclaim_rate == self.reclaim_rate(l as int, i as int),
                    inner == self.loader_over(
                        published.activities@,
                        published.durations@,
                        l as int,
                        i as int,
                    ),
                    most == folded(s as nat, before, inner),
            {
                let dug = add_work(
                    published.activities,
                    WorkSelector::InCell { loader, interval: i, segment: s, activity: Activity::Dig },
                );
                let drawn = add_work(
                    published.activities,
                    WorkSelector::InCell { loader, interval: i, segment: s, activity: Activity::Reclaim },
                );
                most = most.larger(dug.sub(dig_rate.mul(times[s])));
                most = most.larger(drawn.sub(reclaim_rate.mul(times[s])));
            }
            assert(most == outer(before, i as int));
        }
        most
    }

    fn exceed_truck(&self, published: &Published<'_, N>, k: usize, start: N) -> (r: N)
        requires
            self.ready(),
            self.timed(published.durations@),
            self.movements_stand(published.movements@),
            k < self.input.trucks@.len(),
        ensures
            r == self.trucks_over(published.movements@, published.durations@)(start, k as int),
    {
        let truck = &self.input.trucks[k];
        let mut most = start;
        let ghost outer = self.truck_interval_over(published.movements@, published.durations@, k as int);
        for i in 0..self.input.intervals.len()
            invariant
                self.ready(),
                self.timed(published.durations@),
                self.movements_stand(published.movements@),
                truck == self.input.trucks@[k as int],
                outer == self.truck_interval_over(published.movements@, published.durations@, k as int),
                most == folded(i as nat, start, outer),
        {
            let segments: usize = self.budgets[i];
            let times = &published.durations[i];
            let units = find_hours(&truck.hours, i).div(self.input.intervals[i].duration_h());
            let ghost before = most;
            let ghost inner = self.truck_over(published.movements@, published.durations@, k as int, i as int);
            for s in 0..segments
                invariant
                    self.movements_stand(published.movements@),
                    segments == self.segments(i as int),
                    times == published.durations@[i as int],
                    times@.len() == segments,
                    truck == self.input.trucks@[k as int],
                    units == hours_at(truck.hours@, i as int).over(self.length(i as int)),
                    inner == self.truck_over(
                        published.movements@,
                        published.durations@,
                        k as int,
                        i as int,
                    ),
                    most == folded(s as nat, before, inner),
            {
                let used = self.add_carried(
                    published.movements,
                    CarriedSelector::Hours { truck: truck.id, interval: i, segment: s },
                );
                most = most.larger(used.sub(units.mul(times[s])));
            }
            assert(most == outer(before, i as int));
        }
        most
    }

    fn exceed_destination(&self, published: &Published<'_, N>, d: usize, start: N) -> (r: N)
        requires
            self.movements_stand(published.movements@),
            d < self.input.destinations@.len(),
        ensures
            r == self.destinations_over(published.movements@)(start, d as int),
    {
        let destination = &self.input.destinations[d];
        let mut most = start;
        match destination.kind {
            DestinationKind::Crusher => {
                let ghost inner = self.day_over(published.movements@, d as int);
                for day in 0..destination.crusher_daily_t.len()
                    invariant
                        self.movements_stand(published.movements@),
                        d < self.input.destinations@.len(),
                        destination == self.input.destinations@[d as int],
                        inner == self.day_over(published.movements@, d as int),
                        most == folded(day as nat, start, inner),
                {
                    if let Some(limit) = destination.crusher_daily_t[day] {
                        let used = self.add_carried(
                            published.movements,
                            CarriedSelector::OnDay { destination: destination.id, day: day as u64 },
                        );
                        most = most.larger(used.sub(limit));
                    }
                }
            },
            DestinationKind::Dump => {
                if let Some(capacity) = destination.capacity_t {
                    let used = self.add_carried(
                        published.movements,
                        CarriedSelector::Ever { destination: destination.id },
                    );
                    most = most.larger(used.sub(capacity));
                }
            },
            DestinationKind::Stockpile(_) => {},
        }
        most
    }

    fn find_pile_end(&self, pile: StockpileId) -> (r: Option<usize>)
        ensures
            match r {
                Some(d) => self.pile_end(pile) == Some(d as int) && d < self.input.destinations@.len(),
                None => self.pile_end(pile) is None,
            },
    {
        for d in 0..self.input.destinations.len()
            invariant
                self.pile_end(pile) == crate::listing::first_where(
                    d as int,
                    self.input.destinations@.len() as int,
                    self.is_pile(pile),
                ),
        {
            if self.input.destinations[d].kind == DestinationKind::Stockpile(pile) {
                return Some(d);
            }
        }
        None
    }

    fn exceed_pile(&self, published: &Published<'_, N>, p: usize, start: N) -> (r: N)
        requires
            self.ready(),
            self.movements_stand(published.movements@),
            p < self.input.stockpiles@.len(),
        ensures
            r == self.piles_over(published.movements@, published.reclaims@)(start, p as int),
    {
        let pile = &self.input.stockpiles[p];
        let end = self.find_pile_end(pile.id);
        let mut held = total_opening(&pile.opening);
        let mut most = start.larger(held.sub(pile.capacity_t));
        let ghost first = (held, most);
        let ghost outer = self.pile_over_interval(published.movements@, published.reclaims@, p as int);
        for i in 0..self.input.intervals.len()
            invariant
                self.ready(),
                self.movements_stand(published.movements@),
                pile == self.input.stockpiles@[p as int],
                match end {
                    Some(d) => self.pile_end(pile.id) == Some(d as int) && d < self.input.destinations@.len(),
                    None => self.pile_end(pile.id) is None,
                },
                outer == self.pile_over_interval(published.movements@, published.reclaims@, p as int),
                (held, most) == folded(i as nat, first, outer),
        {
            let segments: usize = self.budgets[i];
            let ghost before = (held, most);
            let ghost inner = self.pile_over_cell(published.movements@, published.reclaims@, p as int, i as int);
            for s in 0..segments
                invariant
                    self.movements_stand(published.movements@),
                    pile == self.input.stockpiles@[p as int],
                    match end {
                        Some(d) => self.pile_end(pile.id) == Some(d as int) && d < self.input.destinations@.len(),
                        None => self.pile_end(pile.id) is None,
                    },
                    inner == self.pile_over_cell(
                        published.movements@,
                        published.reclaims@,
                        p as int,
                        i as int,
                    ),
                    (held, most) == folded(s as nat, before, inner),
            {
                if let Some(d) = end {
                    let sel = CarriedSelector::InCell {
                        destination: self.input.destinations[d].id,
                        interval: i,
                        segment: s,
                    };
                    held = held.add(self.add_carried(published.movements, sel));
                }
                held = held.sub(
                    add_drawn(
                        published.reclaims,
                        DrawnSelector::InCell { pile: pile.id, interval: i, segment: s },
                    ),
                );
                most = most.larger(held.sub(pile.capacity_t));
            }
            assert((held, most) == outer(before, i as int));
        }
        most
    }

    /// How far any limit is exceeded at most.
    pub fn find_excess(&self, published: &Published<'_, N>) -> (r: N)
        requires
            self.ready(),
            self.timed(published.durations@),
            self.movements_stand(published.movements@),
        ensures
            r == self.excess(
                published.activities@,
                published.movements@,
                published.reclaims@,
                published.durations@,
            ),
    {
        let mut most = N::whole(0);
        let ghost loaders = self.loaders_over(published.activities@, published.durations@);
        for l in 0..self.input.loaders.len()
            invariant
                self.ready(),
                self.timed(published.durations@),
                loaders == self.loaders_over(published.activities@, published.durations@),
                most == folded(l as nat, N::of_whole(0), loaders),
        {
            most = self.exceed_loader(published, l, most);
        }
        let ghost first = most;
        let ghost trucks = self.trucks_over(published.movements@, published.durations@);
        for k in 0..self.input.trucks.len()
            invariant
                self.ready(),
                self.timed(published.durations@),
                self.movements_stand(published.movements@),
                trucks == self.trucks_over(published.movements@, published.durations@),
                most == folded(k as nat, first, trucks),
        {
            most = self.exceed_truck(published, k, most);
        }
        let ghost second = most;
        let ghost ends = self.destinations_over(published.movements@);
        for d in 0..self.input.destinations.len()
            invariant
                self.movements_stand(published.movements@),
                ends == self.destinations_over(published.movements@),
                most == folded(d as nat, second, ends),
        {
            most = self.exceed_destination(published, d, most);
        }
        let ghost third = most;
        let ghost piles = self.piles_over(published.movements@, published.reclaims@);
        for p in 0..self.input.stockpiles.len()
            invariant
                self.ready(),
                self.movements_stand(published.movements@),
                piles == self.piles_over(published.movements@, published.reclaims@),
                most == folded(p as nat, third, piles),
        {
            most = self.exceed_pile(published, p, most);
        }
        let ghost fourth = most;
        let ghost tasks = self.tasks_over(published.reclaims@);
        for t in 0..self.input.tasks.len()
            invariant
                tasks == self.tasks_over(published.reclaims@),
                most == folded(t as nat, fourth, tasks),
        {
            let task = &self.input.tasks[t];
            if let TaskKind::Reclaim { approved_sources: _, maximum_t: Some(maximum) } = &task.kind {
                let drawn = add_drawn(published.reclaims, DrawnSelector::ByTask { task: task.id });
                most = most.larger(drawn.sub(*maximum));
            }
        }
        most.larger(N::whole(0))
    }
}

} // verus!
