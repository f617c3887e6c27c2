//! Walking a published result segment by segment, with the books that say what
//! is dug, received and held at every moment.
use vstd::prelude::*;

use crate::ledger::{amount, held_under, lowered_by, pair_key, paired, put_under, raised_by, Ledger, Pair};
use crate::listing::{
    arrange, arranged, find_key, first_from, first_where, flat, keyed, last_where, said, said_of_two, sum_to,
};
use crate::optimisation::audit::issue::{IssueKind, ValidationIssue};
use crate::optimisation::audit::totals::{issue, only_if, Audit};
use crate::optimisation::authored::{authored, authored_order};
use crate::optimisation::ids::{
    Activity, DestinationId, DestinationKind, GroundId, LoaderId, MaterialId, ReclaimOrder, SourceId, StockpileId,
};
use crate::optimisation::input::{
    daily_limit, destination_receiving, in_window, limit_on, opening_total, receiving, task_active, total_opening,
    Destination, GroundSource, OpeningLot, Stockpile, TaskKind,
};
use crate::optimisation::result::{HeldUnit, InventoryUnit, MovementRecord, ReceiptParcel, ReclaimRecord};
use crate::scalar::Scalar;

verus! {

/// What the books say at a moment of the walk.
pub struct WalkState<N> {
    /// Tonnes dug from each block.
    pub ground: Seq<(u64, N)>,
    /// Tonnes crushed, by crusher and day.
    pub crusher: Seq<(u64, N)>,
    /// Tonnes in each dump.
    pub dump: Seq<(u64, N)>,
    /// Tonnes in each stockpile.
    pub piles: Seq<(u64, N)>,
    /// The units each stockpile has released, in order.
    pub released: Seq<(StockpileId, InventoryUnit)>,
    /// What each unit of each stockpile holds.
    pub units: Seq<(HeldUnit, N)>,
}

/// The books kept along the walk.
#[derive(Clone, Debug)]
pub struct Walk<N> {
    pub ground: Ledger<u64, N>,
    pub crusher: Ledger<u64, N>,
    pub dump: Ledger<u64, N>,
    pub piles: Ledger<u64, N>,
    pub released: Vec<(StockpileId, InventoryUnit)>,
    pub units: Ledger<HeldUnit, N>,
}

impl<N> View for Walk<N> {
    type V = WalkState<N>;

    open spec fn view(&self) -> WalkState<N> {
        WalkState {
            ground: self.ground@,
            crusher: self.crusher@,
            dump: self.dump@,
            piles: self.piles@,
            released: self.released@,
            units: self.units@,
        }
    }
}

/// No later stockpile has the key of stockpile `j`.
pub open spec fn last_of_key<N>(piles: Seq<Stockpile<N>>, j: int) -> bool {
    forall|k: int| j < k < piles.len() ==> (#[trigger] piles[k]).id != piles[j].id
}

pub open spec fn opening_units<N>(piles: Seq<Stockpile<N>>) -> spec_fn(int) -> Seq<(StockpileId, InventoryUnit)> {
    |j: int|
        if last_of_key(piles, j) {
            Seq::new(piles[j].opening@.len(), |k: int| (piles[j].id, InventoryUnit::Opening(piles[j].opening@[k].id)))
        } else {
            Seq::empty()
        }
}

pub open spec fn lots_put<N: Scalar>(
    units: Seq<(HeldUnit, N)>,
    pile: StockpileId,
    lots: Seq<OpeningLot<N>>,
    n: nat,
) -> Seq<(HeldUnit, N)>
    decreases n,
{
    if n == 0 {
        units
    } else {
        put_under(
            lots_put(units, pile, lots, (n - 1) as nat),
            Pair(pile, InventoryUnit::Opening(lots[n - 1].id)),
            lots[n - 1].tonnes_t,
        )
    }
}

pub open spec fn opening_book<N: Scalar>(piles: Seq<Stockpile<N>>, n: nat) -> Seq<(HeldUnit, N)>
    decreases n,
{
    if n == 0 {
        Seq::empty()
    } else {
        lots_put(
            opening_book(piles, (n - 1) as nat),
            piles[n - 1].id,
            piles[n - 1].opening@,
            piles[n - 1].opening@.len(),
        )
    }
}

pub open spec fn opening_piles<N: Scalar>(piles: Seq<Stockpile<N>>, n: nat) -> Seq<(u64, N)>
    decreases n,
{
    if n == 0 {
        Seq::empty()
    } else {
        put_under(
            opening_piles(piles, (n - 1) as nat),
            piles[n - 1].id.0 as u64,
            opening_total(piles[n - 1].opening@),
        )
    }
}

pub open spec fn untouched<N: Scalar>(ground: Seq<GroundSource<N>>, n: nat) -> Seq<(u64, N)>
    decreases n,
{
    if n == 0 {
        Seq::empty()
    } else {
        put_under(untouched(ground, (n - 1) as nat), ground[n - 1].id.0 as u64, N::of_whole(0))
    }
}

/// A parcel released to a stockpile.
pub open spec fn arrive<N: Scalar>(state: WalkState<N>, pile: StockpileId, parcel: ReceiptParcel<N>) -> WalkState<N> {
    let unit = InventoryUnit::Receipt {
        interval: parcel.receipt_interval,
        segment: parcel.segment,
        position: parcel.position,
    };
    let balance = match held_under(state.units, Pair(pile, unit)) {
        Some(value) => value,
        None => N::of_whole(0),
    };
    WalkState {
        released: if state.released.contains((pile, unit)) {
            state.released
        } else {
            state.released.push((pile, unit))
        },
        units: put_under(state.units, Pair(pile, unit), balance.plus(parcel.tonnes_t)),
        ..state
    }
}

/// The books with a reclaim drawn from its unit.
pub open spec fn draw<N: Scalar>(units: Seq<(HeldUnit, N)>, row: ReclaimRecord<N>) -> Seq<(HeldUnit, N)> {
    match held_under(units, Pair(row.stockpile, row.unit)) {
        Some(balance) => put_under(units, Pair(row.stockpile, row.unit), balance.minus(row.tonnes_t)),
        None => units,
    }
}

impl<'a, N: Scalar> Audit<'a, N> {
    /// The books at the start.
    pub open spec fn opening_state(self) -> WalkState<N> {
        let piles = self.input.stockpiles@;
        WalkState {
            ground: untouched(self.input.ground@, self.input.ground@.len()),
            crusher: Seq::empty(),
            dump: Seq::empty(),
            piles: opening_piles(piles, piles.len()),
            released: flat(piles.len(), opening_units(piles)),
            units: opening_book(piles, piles.len()),
        }
    }

    pub open spec fn index_of(self, i: int) -> usize {
        self.input.intervals@[i].index
    }

    // Arrivals.

    /// The parcels that stockpile `j` releases in interval `i`.
    pub open spec fn arriving(self, i: int, j: int) -> spec_fn(int) -> bool {
        |k: int|
            self.result.parcels@[k].stockpile == self.input.stockpiles@[j].id && self.result.parcels@[k].release_interval
                == self.index_of(i)
    }

    pub open spec fn received_before(self) -> spec_fn(int, int) -> bool {
        |a: int, b: int|
            {
                let (x, y) = (self.result.parcels@[a], self.result.parcels@[b]);
                x.segment < y.segment || (x.segment == y.segment && x.position < y.position)
            }
    }

    pub open spec fn arrivals(self, i: int, j: int) -> Seq<usize> {
        arranged(self.result.parcels@.len(), self.arriving(i, j), self.received_before())
    }

    pub open spec fn arrived(self, state: WalkState<N>, i: int, j: int, n: nat) -> WalkState<N>
        decreases n,
    {
        if n == 0 {
            state
        } else {
            arrive(
                self.arrived(state, i, j, (n - 1) as nat),
                self.input.stockpiles@[j].id,
                self.result.parcels@[self.arrivals(i, j)[n - 1] as int],
            )
        }
    }

    /// The books after the first `n` stockpiles release what interval `i` brings.
    pub open spec fn released_to(self, state: WalkState<N>, i: int, n: nat) -> WalkState<N>
        decreases n,
    {
        if n == 0 {
            state
        } else {
            let j = n - 1;
            self.arrived(self.released_to(state, i, (n - 1) as nat), i, j, self.arrivals(i, j).len())
        }
    }

    // What a loader should work on.

    /// What a destination has room for.
    pub open spec fn remaining(self, state: WalkState<N>, destination: Destination<N>, day: u32) -> N {
        let limit = match destination.kind {
            DestinationKind::Crusher => daily_limit(destination, day),
            _ => destination.capacity_t,
        };
        let used = match destination.kind {
            DestinationKind::Crusher => amount(state.crusher, paired(destination.id.0, day)),
            DestinationKind::Dump => amount(state.dump, destination.id.0 as u64),
            DestinationKind::Stockpile(pile) => amount(state.piles, pile.0 as u64),
        };
        (match limit {
            Some(value) => value,
            None => N::of_infinity(),
        }).minus(used)
    }

    pub open spec fn remaining_of(self, state: WalkState<N>, id: DestinationId, day: u32) -> N {
        match keyed(self.input.destinations@, id.0) {
            Some(d) => self.remaining(state, self.input.destinations@[d], day),
            None => N::of_whole(0),
        }
    }

    /// Some truck of the class has hours in the interval.
    pub open spec fn trucks_run(self, class: u32, index: int) -> bool {
        exists|t: int|
            0 <= t < self.input.trucks@.len() && (#[trigger] self.input.trucks@[t]).id.0 == class && N::of_whole(0).below(
                self.input.trucks@[t].hours@[index],
            )
    }

    /// Candidate `c` can take a loader's material from a source in interval `i`.
    pub open spec fn carries(
        self,
        state: WalkState<N>,
        i: int,
        loader: LoaderId,
        ground: GroundId,
        material: MaterialId,
        c: int,
    ) -> bool {
        let candidate = self.input.movements@[c];
        candidate.loader == loader && candidate.activity is Dig && candidate.source == SourceId::Ground(ground)
            && candidate.material == material && receiving(*self.input, candidate, self.index_of(i) as int)
            && self.trucks_run(candidate.truck.0, self.index_of(i) as int) && self.tolerance_spec().below(
            self.remaining_of(state, candidate.destination, self.input.intervals@[i].calendar_day()),
        )
    }

    pub open spec fn routed(
        self,
        state: WalkState<N>,
        i: int,
        loader: LoaderId,
        ground: GroundId,
        material: MaterialId,
    ) -> bool {
        exists|c: int|
            0 <= c < self.input.movements@.len() && #[trigger] self.carries(state, i, loader, ground, material, c)
    }

    pub open spec fn tonnes_of(self, ground: GroundId) -> N {
        match keyed(self.input.ground@, ground.0) {
            Some(g) => self.input.ground@[g].tonnes_t,
            None => N::of_whole(0),
        }
    }

    pub open spec fn depleted(self, state: WalkState<N>, ground: GroundId) -> bool {
        let tonnes = self.tonnes_of(ground);
        tonnes.minus(self.dust_spec().lower(tonnes)).at_most(amount(state.ground, ground.0 as u64))
    }

    pub open spec fn stands(self, state: WalkState<N>, sequence: Seq<GroundId>) -> spec_fn(int) -> bool {
        |k: int| !self.depleted(state, sequence[k])
    }

    /// Every material of a block has somewhere to go.
    pub open spec fn routable(self, state: WalkState<N>, i: int, loader: LoaderId, ground: GroundId) -> bool {
        match keyed(self.input.ground@, ground.0) {
            Some(g) => forall|k: int|
                0 <= k < self.input.ground@[g].material@.len() ==> self.routed(
                    state,
                    i,
                    loader,
                    ground,
                    (#[trigger] self.input.ground@[g].material@[k]).material,
                ),
            None => false,
        }
    }

    pub open spec fn unit_of(self, state: WalkState<N>, pile: StockpileId) -> spec_fn(int) -> Option<N> {
        |k: int|
            if state.released[k].0 == pile {
                held_under(state.units, Pair(pile, state.released[k].1))
            } else {
                None
            }
    }

    /// What a stockpile could give up now.
    pub open spec fn releasable(self, state: WalkState<N>, pile: StockpileId) -> N {
        sum_to(state.released.len(), self.unit_of(state, pile))
    }

    pub open spec fn offers(self, state: WalkState<N>, pile: StockpileId) -> bool {
        keyed(self.input.stockpiles@, pile.0) is Some && self.unit_dust_spec().below(self.releasable(state, pile))
    }

    /// What a task would have its loader do now: the task and, for digging, the block.
    pub open spec fn workable(self, state: WalkState<N>, i: int, l: int, t: usize) -> Option<(usize, Option<GroundId>)> {
        let task = self.input.tasks@[t as int];
        let loader = self.input.loaders@[l];
        let rate = loader.rates@[self.index_of(i) as int];
        let zero = N::of_whole(0);
        match task.kind {
            TaskKind::Dig { sequence } => if !in_window(task, self.input.intervals@[i]) || rate.dig_tph.at_most(zero) {
                None
            } else {
                match first_where(0, sequence@.len() as int, self.stands(state, sequence@)) {
                    Some(stage) => if self.routable(state, i, loader.id, sequence@[stage]) {
                        Some((t, Some(sequence@[stage])))
                    } else {
                        None
                    },
                    None => None,
                }
            },
            TaskKind::Reclaim { approved_sources, maximum_t } => if !in_window(task, self.input.intervals@[i])
                || rate.reclaim_tph.at_most(zero) {
                None
            } else if exists|k: int| 0 <= k < approved_sources@.len() && self.offers(state, #[trigger] approved_sources@[k]) {
                Some((t, None))
            } else {
                None
            },
        }
    }

    pub open spec fn workable_at(self, state: WalkState<N>, i: int, l: int) -> spec_fn(int) -> Option<
        (usize, Option<GroundId>),
    > {
        |q: int| self.workable(state, i, l, authored(self.input.tasks@, self.input.loaders@[l].id)[q])
    }

    /// The first task, in authored order, that its loader could work on now.
    pub open spec fn expected(self, state: WalkState<N>, i: int, l: int) -> Option<(usize, Option<GroundId>)> {
        first_from(
            0,
            authored(self.input.tasks@, self.input.loaders@[l].id).len() as int,
            self.workable_at(state, i, l),
        )
    }

    /// A row that is not what the loader should be doing.
    pub open spec fn bypasses(self, expected: (usize, Option<GroundId>), l: int, i: int, s: int) -> spec_fn(int) -> bool {
        |k: int|
            self.rows_at(l, i, s)(k) && (self.result.activities@[k].task != self.input.tasks@[expected.0 as int].id || (
            expected.1 is Some && self.result.activities@[k].source != SourceId::Ground(expected.1->0)))
    }

    /// What is wrong with what loader `l` does in segment `s` of interval `i`.
    pub open spec fn order_at(self, state: WalkState<N>, i: int, s: int) -> spec_fn(int) -> Seq<ValidationIssue<N>> {
        |l: int|
            {
                let n = self.result.activities@.len() as int;
                let loader = self.input.loaders@[l].id;
                let index = self.index_of(i);
                match first_where(0, n, self.rows_at(l, i, s)) {
                    Some(first) => match self.expected(state, i, l) {
                        Some(task) => only_if(
                            first_where(0, n, self.bypasses(task, l, i, s)) is Some,
                            issue(
                                IssueKind::OrderBypassed {
                                    loader,
                                    interval: index,
                                    segment: s as usize,
                                    worked: self.result.activities@[first].task,
                                    eligible: self.input.tasks@[task.0 as int].id,
                                },
                                N::of_whole(1),
                            ),
                        ),
                        None => issue(
                            IssueKind::NoEligibleTask { loader, interval: index, segment: s as usize },
                            N::of_whole(1),
                        ),
                    },
                    None => Seq::empty(),
                }
            }
    }

    // Reclaims.

    pub open spec fn reclaims_at(self, i: int, s: int, j: int) -> spec_fn(int) -> bool {
        |k: int|
            {
                let row = self.result.reclaims@[k];
                row.stockpile == self.input.stockpiles@[j].id && row.interval == self.index_of(i) && row.segment == s
            }
    }

    /// The books after the first `n` reclaims of stockpile `j` in the segment.
    pub open spec fn drawn(self, units: Seq<(HeldUnit, N)>, i: int, s: int, j: int, n: nat) -> Seq<
        (HeldUnit, N),
    >
        decreases n,
    {
        if n == 0 {
            units
        } else {
            let before = self.drawn(units, i, s, j, (n - 1) as nat);
            if self.reclaims_at(i, s, j)(n - 1) {
                draw(before, self.result.reclaims@[n - 1])
            } else {
                before
            }
        }
    }

    pub open spec fn draw_issue(self, units: Seq<(HeldUnit, N)>, row: ReclaimRecord<N>) -> Seq<ValidationIssue<N>> {
        match held_under(units, Pair(row.stockpile, row.unit)) {
            Some(balance) => {
                let left = balance.minus(row.tonnes_t);
                only_if(left.below(self.tolerance_spec().opposite()), issue(IssueKind::UnitOverdrawn, left.opposite()))
            },
            None => issue(IssueKind::UnreleasedUnit, row.tonnes_t),
        }
    }

    pub open spec fn draw_issues(self, units: Seq<(HeldUnit, N)>, i: int, s: int, j: int) -> spec_fn(int) -> Seq<
        ValidationIssue<N>,
    > {
        |k: int|
            if self.reclaims_at(i, s, j)(k) {
                self.draw_issue(self.drawn(units, i, s, j, k as nat), self.result.reclaims@[k])
            } else {
                Seq::empty()
            }
    }

    pub open spec fn live(
        self,
        units: Seq<(HeldUnit, N)>,
        released: Seq<(StockpileId, InventoryUnit)>,
        pile: StockpileId,
    ) -> spec_fn(int) -> bool {
        |k: int|
            released[k].0 == pile && self.unit_dust_spec().below(
                match held_under(units, Pair(pile, released[k].1)) {
                    Some(balance) => balance,
                    None => N::of_whole(0),
                },
            )
    }

    /// The unit that a stockpile has to give up next: its oldest or newest with
    /// anything in it.
    pub open spec fn next_unit(
        self,
        units: Seq<(HeldUnit, N)>,
        released: Seq<(StockpileId, InventoryUnit)>,
        pile: Stockpile<N>,
    ) -> Option<InventoryUnit> {
        let live = self.live(units, released, pile.id);
        let found = match pile.order {
            ReclaimOrder::Fifo => first_where(0, released.len() as int, live),
            ReclaimOrder::Lifo => last_where(released.len(), live),
        };
        match found {
            Some(k) => Some(released[k].1),
            None => None,
        }
    }

    pub open spec fn out_of_turn(self, next: Option<InventoryUnit>, i: int, s: int, j: int) -> spec_fn(int) -> bool {
        |k: int| self.reclaims_at(i, s, j)(k) && Some(self.result.reclaims@[k].unit) != next
    }

    /// The books after the first `n` stockpiles have given up what they do.
    pub open spec fn drawn_to(self, units: Seq<(HeldUnit, N)>, i: int, s: int, n: nat) -> Seq<(HeldUnit, N)>
        decreases n,
    {
        if n == 0 {
            units
        } else {
            self.drawn(self.drawn_to(units, i, s, (n - 1) as nat), i, s, n - 1, self.result.reclaims@.len())
        }
    }

    pub open spec fn pile_issues(self, state: WalkState<N>, i: int, s: int) -> spec_fn(int) -> Seq<ValidationIssue<N>> {
        |j: int|
            {
                let units = self.drawn_to(state.units, i, s, j as nat);
                let next = self.next_unit(units, state.released, self.input.stockpiles@[j]);
                let n = self.result.reclaims@.len();
                only_if(
                    first_where(0, n as int, self.out_of_turn(next, i, s, j)) is Some,
                    issue(
                        IssueKind::ReclaimUnit { interval: self.index_of(i), segment: s as usize },
                        N::of_whole(1),
                    ),
                ) + flat(n, self.draw_issues(units, i, s, j))
            }
    }

    // Digging, receiving and reclaiming, entered in the books.

    pub open spec fn dug_to(self, ground: Seq<(u64, N)>, i: int, s: int, n: nat) -> Seq<(u64, N)>
        decreases n,
    {
        if n == 0 {
            ground
        } else {
            let before = self.dug_to(ground, i, s, (n - 1) as nat);
            let row = self.result.activities@[n - 1];
            if row.interval == self.index_of(i) && row.segment == s && row.activity is Dig {
                match row.source {
                    SourceId::Ground(id) => match held_under(before, id.0 as u64) {
                        Some(held) => put_under(before, id.0 as u64, held.plus(row.tonnes_t)),
                        None => before,
                    },
                    SourceId::Stockpile(_) => before,
                }
            } else {
                before
            }
        }
    }

    /// A movement entered under its destination.
    pub open spec fn entered(self, state: WalkState<N>, row: MovementRecord<N>, day: u32) -> WalkState<N> {
        match keyed(self.input.destinations@, row.destination.0) {
            Some(d) => {
                let destination = self.input.destinations@[d];
                match destination.kind {
                    DestinationKind::Crusher => WalkState {
                        crusher: raised_by(state.crusher, paired(destination.id.0, day), row.tonnes_t),
                        ..state
                    },
                    DestinationKind::Dump => WalkState {
                        dump: raised_by(state.dump, destination.id.0 as u64, row.tonnes_t),
                        ..state
                    },
                    DestinationKind::Stockpile(pile) => WalkState {
                        piles: raised_by(state.piles, pile.0 as u64, row.tonnes_t),
                        ..state
                    },
                }
            },
            None => state,
        }
    }

    pub open spec fn received_to(self, state: WalkState<N>, i: int, s: int, n: nat) -> WalkState<N>
        decreases n,
    {
        if n == 0 {
            state
        } else {
            let before = self.received_to(state, i, s, (n - 1) as nat);
            let row = self.result.movements@[n - 1];
            if row.interval == self.index_of(i) && row.segment == s {
                self.entered(before, row, self.input.intervals@[i].calendar_day())
            } else {
                before
            }
        }
    }

    pub open spec fn reclaimed_to(self, piles: Seq<(u64, N)>, i: int, s: int, n: nat) -> Seq<(u64, N)>
        decreases n,
    {
        if n == 0 {
            piles
        } else {
            let before = self.reclaimed_to(piles, i, s, (n - 1) as nat);
            let row = self.result.reclaims@[n - 1];
            if row.interval == self.index_of(i) && row.segment == s {
                lowered_by(before, row.stockpile.0 as u64, row.tonnes_t)
            } else {
                before
            }
        }
    }

    /// The books after a segment.
    pub open spec fn after_segment(self, state: WalkState<N>, i: int, s: int) -> WalkState<N> {
        let drawn = WalkState {
            units: self.drawn_to(state.units, i, s, self.input.stockpiles@.len()),
            ground: self.dug_to(state.ground, i, s, self.result.activities@.len()),
            ..state
        };
        let received = self.received_to(drawn, i, s, self.result.movements@.len());
        WalkState { piles: self.reclaimed_to(received.piles, i, s, self.result.reclaims@.len()), ..received }
    }

    pub open spec fn capacity_of(self, pile: u64) -> N {
        match keyed(self.input.stockpiles@, pile as u32) {
            Some(p) => self.input.stockpiles@[p].capacity_t,
            None => N::of_infinity(),
        }
    }

    pub open spec fn outside(self, piles: Seq<(u64, N)>, i: int, s: int) -> spec_fn(int) -> Seq<ValidationIssue<N>> {
        |e: int|
            {
                let (pile, inventory) = piles[e];
                only_if(
                    inventory.below(self.tolerance_spec().plus(self.dust_spec()).opposite()) || self.capacity_of(
                        pile,
                    ).plus(self.tolerance_spec()).plus(self.dust_spec()).below(inventory),
                    issue(
                        IssueKind::PileOutside {
                            pile: StockpileId(pile as u32),
                            interval: self.index_of(i),
                            segment: s as usize,
                        },
                        inventory.magnitude(),
                    ),
                )
            }
    }

    /// What is wrong with segment `s` of interval `i`.
    pub open spec fn segment_issues(self, state: WalkState<N>, i: int, s: int) -> Seq<ValidationIssue<N>> {
        let after = self.after_segment(state, i, s);
        flat(self.input.loaders@.len(), self.order_at(state, i, s)) + flat(
            self.input.stockpiles@.len(),
            self.pile_issues(state, i, s),
        ) + flat(after.piles.len(), self.outside(after.piles, i, s))
    }

    // Closing balances.

    pub open spec fn pile_closing(self, state: WalkState<N>, i: int) -> spec_fn(int) -> Seq<ValidationIssue<N>> {
        |e: int|
            {
                let (pile, inventory) = state.piles[e];
                match held_under(self.result.balances@[self.index_of(i) as int].stockpile_closing_t@, pile) {
                    Some(published) => {
                        let gap = published.minus(inventory).magnitude();
                        only_if(
                            self.tolerance_spec().upper(inventory.magnitude().times(self.tolerance_spec())).below(gap),
                            issue(IssueKind::PileClosing, gap),
                        )
                    },
                    None => Seq::empty(),
                }
            }
    }

    pub open spec fn ground_closing(self, state: WalkState<N>, i: int) -> spec_fn(int) -> Seq<ValidationIssue<N>> {
        |e: int|
            {
                let (ground, extracted) = state.ground[e];
                match held_under(self.result.balances@[self.index_of(i) as int].ground_remaining_t@, ground) {
                    Some(published) => {
                        let left = self.tonnes_of(GroundId(ground as u32)).minus(extracted);
                        only_if(
                            self.tolerance_spec().below(published.minus(left).magnitude()),
                            issue(IssueKind::GroundClosing, published.minus(extracted).magnitude()),
                        )
                    },
                    None => Seq::empty(),
                }
            }
    }

    pub open spec fn closing_issues(self, state: WalkState<N>, i: int) -> Seq<ValidationIssue<N>> {
        if self.index_of(i) < self.result.balances@.len() {
            flat(state.piles.len(), self.pile_closing(state, i)) + flat(
                state.ground.len(),
                self.ground_closing(state, i),
            )
        } else {
            Seq::empty()
        }
    }

    // The walk.

    /// The books before segment `s` of interval `i`, from the books before the interval.
    pub open spec fn state_at(self, state: WalkState<N>, i: int, s: nat) -> WalkState<N>
        decreases s,
    {
        if s == 0 {
            self.released_to(state, i, self.input.stockpiles@.len())
        } else {
            self.after_segment(self.state_at(state, i, (s - 1) as nat), i, s - 1)
        }
    }

    /// The books before interval `i`.
    pub open spec fn walk_at(self, i: nat) -> WalkState<N>
        decreases i,
    {
        if i == 0 {
            self.opening_state()
        } else {
            self.state_at(self.walk_at((i - 1) as nat), i - 1, self.budget_spec(self.index_of(i - 1)))
        }
    }

    pub open spec fn segments_of(self, state: WalkState<N>, i: int) -> spec_fn(int) -> Seq<ValidationIssue<N>> {
        |s: int| self.segment_issues(self.state_at(state, i, s as nat), i, s)
    }

    pub open spec fn interval_issues(self) -> spec_fn(int) -> Seq<ValidationIssue<N>> {
        |i: int|
            flat(self.budget_spec(self.index_of(i)), self.segments_of(self.walk_at(i as nat), i)) + self.closing_issues(
                self.walk_at((i + 1) as nat),
                i,
            )
    }

    /// What the walk finds wrong.
    pub open spec fn walk_issues(self) -> Seq<ValidationIssue<N>> {
        flat(self.input.intervals@.len(), self.interval_issues())
    }

    // The walk, carried out.

    fn opening_walk(&self) -> (r: Walk<N>)
        ensures
            r@ == self.opening_state(),
    {
        let piles = &self.input.stockpiles;
        let mut walk = Walk {
            ground: Ledger::new(),
            crusher: Ledger::new(),
            dump: Ledger::new(),
            piles: Ledger::new(),
            released: Vec::new(),
            units: Ledger::new(),
        };
        for g in 0..self.input.ground.len()
            invariant
                walk.ground@ == untouched(self.input.ground@, g as nat),
                walk.crusher@ == Seq::<(u64, N)>::empty(),
                walk.dump@ == Seq::<(u64, N)>::empty(),
                walk.piles@ == Seq::<(u64, N)>::empty(),
                walk.released@ == Seq::<(StockpileId, InventoryUnit)>::empty(),
                walk.units@ == Seq::<(HeldUnit, N)>::empty(),
        {
            walk.ground.put(self.input.ground[g].id.0 as u64, N::whole(0));
        }
        for j in 0..piles.len()
            invariant
                piles == self.input.stockpiles,
                walk.ground@ == untouched(self.input.ground@, self.input.ground@.len()),
                walk.crusher@ == Seq::<(u64, N)>::empty(),
                walk.dump@ == Seq::<(u64, N)>::empty(),
                walk.piles@ == opening_piles(piles@, j as nat),
                walk.released@ == flat(j as nat, opening_units(piles@)),
                walk.units@ == opening_book(piles@, j as nat),
        {
            let pile = &piles[j];
            walk.piles.put(pile.id.0 as u64, total_opening(&pile.opening));
            let mut last: bool = true;
            for k in j + 1..piles.len()
                invariant
                    j < piles@.len(),
                    pile == piles@[j as int],
                    last == forall|q: int| j < q < k ==> (#[trigger] piles@[q]).id != pile.id,
            {
                if piles[k].id == pile.id {
                    last = false;
                }
            }
            let ghost was = walk;
            let ghost listed = opening_units(piles@)(j as int);
            for k in 0..pile.opening.len()
                invariant
                    j < piles@.len(),
                    pile == piles@[j as int],
                    last == last_of_key(piles@, j as int),
                    listed == opening_units(piles@)(j as int),
                    walk.ground == was.ground,
                    walk.crusher == was.crusher,
                    walk.dump == was.dump,
                    walk.piles == was.piles,
                    walk.released@ == was.released@ + (if last {
                        listed.take(k as int)
                    } else {
                        listed
                    }),
                    walk.units@ == lots_put(was.units@, pile.id, pile.opening@, k as nat),
            {
                let unit = InventoryUnit::Opening(pile.opening[k].id);
                if last {
                    walk.released.push((pile.id, unit));
                    assert(listed.take(k + 1) =~= listed.take(k as int).push(listed[k as int]));
                }
                walk.units.put(Pair(pile.id, unit), pile.opening[k].tonnes_t);
            }
            assert(listed.take(listed.len() as int) =~= listed);
        }
        walk
    }

    fn release(&self, walk: &mut Walk<N>, i: usize)
        requires
            i < self.input.intervals@.len(),
        ensures
            final(walk)@ == self.released_to(old(walk)@, i as int, self.input.stockpiles@.len()),
    {
        let ghost start = walk@;
        let index: usize = self.input.intervals[i].index;
        let parcels = &self.result.parcels;
        for j in 0..self.input.stockpiles.len()
            invariant
                i < self.input.intervals@.len(),
                index == self.index_of(i as int),
                parcels == self.result.parcels,
                walk@ == self.released_to(start, i as int, j as nat),
        {
            let pile = self.input.stockpiles[j].id;
            let order = arrange(
                parcels.len(),
                |k: usize| -> (b: bool)
                    requires
                        k < parcels@.len(),
                    ensures
                        b == said(self.arriving(i as int, j as int), k)
                    { parcels[k].stockpile == pile && parcels[k].release_interval == index },
                |a: usize, b: usize| -> (r: bool)
                    requires
                        a < parcels@.len(),
                        b < parcels@.len(),
                    ensures
                        r == said_of_two(self.received_before(), a, b)
                    {
                        parcels[a].segment < parcels[b].segment || (parcels[a].segment == parcels[b].segment
                            && parcels[a].position < parcels[b].position)
                    },
                Ghost(self.arriving(i as int, j as int)),
                Ghost(self.received_before()),
            );
            let ghost before = walk@;
            for q in 0..order.len()
                invariant
                    i < self.input.intervals@.len(),
                    j < self.input.stockpiles@.len(),
                    pile == self.input.stockpiles@[j as int].id,
                    parcels == self.result.parcels,
                    order@ == self.arrivals(i as int, j as int),
                    forall|p: int| 0 <= p < order@.len() ==> (#[trigger] order@[p]) < parcels@.len(),
                    walk@ == self.arrived(before, i as int, j as int, q as nat),
            {
                let parcel = parcels[order[q]];
                let unit = InventoryUnit::Receipt {
                    interval: parcel.receipt_interval,
                    segment: parcel.segment,
                    position: parcel.position,
                };
                if !released_holds(&walk.released, pile, unit) {
                    walk.released.push((pile, unit));
                }
                let balance = match walk.units.get(Pair(pile, unit)) {
                    Some(value) => value,
                    None => N::whole(0),
                };
                walk.units.put(Pair(pile, unit), balance.add(parcel.tonnes_t));
            }
        }
    }

    fn room(&self, walk: &Walk<N>, id: DestinationId, day: u32) -> (r: N)
        ensures
            r == self.remaining_of(walk@, id, day),
    {
        match find_key(&self.input.destinations, id.0) {
            Some(d) => {
                let destination = &self.input.destinations[d];
                let limit = match destination.kind {
                    DestinationKind::Crusher => limit_on(destination, day),
                    _ => destination.capacity_t,
                };
                let used = match destination.kind {
                    DestinationKind::Crusher => walk.crusher.amount(pair_key(destination.id.0, day)),
                    DestinationKind::Dump => walk.dump.amount(destination.id.0 as u64),
                    DestinationKind::Stockpile(pile) => walk.piles.amount(pile.0 as u64),
                };
                (match limit {
                    Some(value) => value,
                    None => N::infinity(),
                }).sub(used)
            },
            None => N::whole(0),
        }
    }

    fn do_trucks_run(&self, class: u32, index: usize) -> (r: bool)
        requires
            forall|t: int| 0 <= t < self.input.trucks@.len() ==> index < (#[trigger] self.input.trucks@[t]).hours@.len(),
        ensures
            r == self.trucks_run(class, index as int),
    {
        for t in 0..self.input.trucks.len()
            invariant
                forall|t: int|
                    0 <= t < self.input.trucks@.len() ==> index < (#[trigger] self.input.trucks@[t]).hours@.len(),
                forall|k: int|
                    0 <= k < t ==> !((#[trigger] self.input.trucks@[k]).id.0 == class && N::of_whole(0).below(
                        self.input.trucks@[k].hours@[index as int],
                    )),
        {
            if self.input.trucks[t].id.0 == class && N::whole(0).is_below(self.input.trucks[t].hours[index]) {
                assert(self.input.trucks@[t as int].id.0 == class);
                return true;
            }
        }
        false
    }

    fn is_routed(&self, walk: &Walk<N>, i: usize, loader: LoaderId, ground: GroundId, material: MaterialId) -> (r: bool)
        requires
            self.auditable(),
            i < self.input.intervals@.len(),
            self.index_of(i as int) < self.input.intervals@.len(),
        ensures
            r == self.routed(walk@, i as int, loader, ground, material),
    {
        let index: usize = self.input.intervals[i].index;
        let day: u32 = self.input.intervals[i].day();
        for c in 0..self.input.movements.len()
            invariant
                self.auditable(),
                i < self.input.intervals@.len(),
                index == self.index_of(i as int),
                index < self.input.intervals@.len(),
                day == self.input.intervals@[i as int].calendar_day(),
                forall|k: int| 0 <= k < c ==> !#[trigger] self.carries(walk@, i as int, loader, ground, material, k),
        {
            let candidate = &self.input.movements[c];
            if candidate.loader == loader && candidate.activity == Activity::Dig && candidate.source
                == SourceId::Ground(ground) && candidate.material == material && destination_receiving(
                self.input,
                candidate,
                index,
            ) {
                assert forall|t: int| 0 <= t < self.input.trucks@.len() implies index < (
                #[trigger] self.input.trucks@[t]).hours@.len() by {
                    assert(self.input.intervals@[i as int].index < self.input.trucks@[t].hours@.len());
                }
                if self.do_trucks_run(candidate.truck.0, index) && self.tolerance().is_below(
                    self.room(walk, candidate.destination, day),
                ) {
                    assert(self.carries(walk@, i as int, loader, ground, material, c as int));
                    return true;
                }
            }
        }
        false
    }

    fn is_routable(&self, walk: &Walk<N>, i: usize, loader: LoaderId, ground: GroundId) -> (r: bool)
        requires
            self.auditable(),
            i < self.input.intervals@.len(),
            self.index_of(i as int) < self.input.intervals@.len(),
        ensures
            r == self.routable(walk@, i as int, loader, ground),
    {
        match find_key(&self.input.ground, ground.0) {
            Some(g) => {
                let shares = &self.input.ground[g].material;
                for k in 0..shares.len()
                    invariant
                        self.auditable(),
                        i < self.input.intervals@.len(),
                        self.index_of(i as int) < self.input.intervals@.len(),
                        g < self.input.ground@.len(),
                        shares == self.input.ground@[g as int].material,
                        keyed(self.input.ground@, ground.0) == Some(g as int),
                        forall|q: int|
                            0 <= q < k ==> self.routed(
                                walk@,
                                i as int,
                                loader,
                                ground,
                                (#[trigger] shares@[q]).material,
                            ),
                {
                    if !self.is_routed(walk, i, loader, ground, shares[k].material) {
                        proof {
                            let at = keyed(self.input.ground@, ground.0)->0;
                            let missing = self.input.ground@[at].material@[k as int];
                            assert(missing == shares@[k as int]);
                            assert(!self.routed(walk@, i as int, loader, ground, missing.material));
                        }
                        return false;
                    }
                }
                true
            },
            None => false,
        }
    }

    fn is_depleted(&self, walk: &Walk<N>, ground: GroundId) -> (r: bool)
        ensures
            r == self.depleted(walk@, ground),
    {
        let tonnes = self.find_tonnes(ground);
        tonnes.sub(self.dust().smaller(tonnes)).is_at_most(walk.ground.amount(ground.0 as u64))
    }

    fn find_tonnes(&self, ground: GroundId) -> (r: N)
        ensures
            r == self.tonnes_of(ground),
    {
        match find_key(&self.input.ground, ground.0) {
            Some(g) => self.input.ground[g].tonnes_t,
            None => N::whole(0),
        }
    }

    fn does_offer(&self, walk: &Walk<N>, pile: StockpileId) -> (r: bool)
        ensures
            r == self.offers(walk@, pile),
    {
        if find_key(&self.input.stockpiles, pile.0).is_none() {
            return false;
        }
        let mut total = N::whole(0);
        for k in 0..walk.released.len()
            invariant
                total == sum_to(k as nat, self.unit_of(walk@, pile)),
        {
            if walk.released[k].0 == pile {
                if let Some(balance) = walk.units.get(Pair(pile, walk.released[k].1)) {
                    total = total.add(balance);
                }
            }
        }
        self.unit_dust().is_below(total)
    }

    fn find_workable(&self, walk: &Walk<N>, i: usize, l: usize, t: usize) -> (r: Option<(usize, Option<GroundId>)>)
        requires
            self.auditable(),
            i < self.input.intervals@.len(),
            l < self.input.loaders@.len(),
            t < self.input.tasks@.len(),
            self.index_of(i as int) < self.input.intervals@.len(),
            self.index_of(i as int) < self.input.loaders@[l as int].rates@.len(),
        ensures
            r == self.workable(walk@, i as int, l as int, t),
    {
        let task = &self.input.tasks[t];
        let interval = self.input.intervals[i];
        let loader = &self.input.loaders[l];
        let rate = loader.rates[interval.index];
        match &task.kind {
            TaskKind::Dig { sequence } => {
                if !task_active(task, interval) || rate.dig_tph.is_at_most(N::whole(0)) {
                    return None;
                }
                let mut stage: usize = 0;
                let ghost stands = self.stands(walk@, sequence@);
                while stage < sequence.len() && self.is_depleted(walk, sequence[stage])
                    invariant
                        stage <= sequence@.len(),
                        stands == self.stands(walk@, sequence@),
                        first_where(0, sequence@.len() as int, stands) == first_where(
                            stage as int,
                            sequence@.len() as int,
                            stands,
                        ),
                    decreases sequence@.len() - stage,
                {
                    stage = stage + 1;
                }
                if stage < sequence.len() {
                    assert(stands(stage as int));
                    if self.is_routable(walk, i, loader.id, sequence[stage]) {
                        return Some((t, Some(sequence[stage])));
                    }
                }
                None
            },
            TaskKind::Reclaim { approved_sources, maximum_t: _ } => {
                if !task_active(task, interval) || rate.reclaim_tph.is_at_most(N::whole(0)) {
                    return None;
                }
                for k in 0..approved_sources.len()
                    invariant
                        t < self.input.tasks@.len(),
                        i < self.input.intervals@.len(),
                        l < self.input.loaders@.len(),
                        task == self.input.tasks@[t as int],
                        task.kind == (TaskKind::Reclaim { approved_sources: *approved_sources, maximum_t: task.kind->maximum_t }),
                        interval == self.input.intervals@[i as int],
                        rate == self.input.loaders@[l as int].rates@[interval.index as int],
                        in_window(*task, interval),
                        !rate.reclaim_tph.at_most(N::of_whole(0)),
                        forall|q: int| 0 <= q < k ==> !self.offers(walk@, #[trigger] approved_sources@[q]),
                {
                    if self.does_offer(walk, approved_sources[k]) {
                        assert(self.offers(walk@, self.input.tasks@[t as int].kind->approved_sources@[k as int]));
                        return Some((t, None));
                    }
                }
                None
            },
        }
    }

    fn find_expected(&self, walk: &Walk<N>, i: usize, l: usize) -> (r: Option<(usize, Option<GroundId>)>)
        requires
            self.auditable(),
            i < self.input.intervals@.len(),
            l < self.input.loaders@.len(),
            self.index_of(i as int) < self.input.intervals@.len(),
            self.index_of(i as int) < self.input.loaders@[l as int].rates@.len(),
        ensures
            r == self.expected(walk@, i as int, l as int),
            r matches Some(found) ==> found.0 < self.input.tasks@.len(),
    {
        let order = authored_order(&self.input.tasks, self.input.loaders[l].id);
        let ghost found = self.workable_at(walk@, i as int, l as int);
        for q in 0..order.len()
            invariant
                self.auditable(),
                i < self.input.intervals@.len(),
                l < self.input.loaders@.len(),
                self.index_of(i as int) < self.input.intervals@.len(),
                self.index_of(i as int) < self.input.loaders@[l as int].rates@.len(),
                order@ == authored(self.input.tasks@, self.input.loaders@[l as int].id),
                forall|p: int| 0 <= p < order@.len() ==> (#[trigger] order@[p]) < self.input.tasks@.len(),
                found == self.workable_at(walk@, i as int, l as int),
                self.expected(walk@, i as int, l as int) == first_from(q as int, order@.len() as int, found),
        {
            let now = self.find_workable(walk, i, l, order[q]);
            if now.is_some() {
                assert(found(q as int) is Some);
                return now;
            }
        }
        None
    }

    fn check_order(&self, walk: &Walk<N>, i: usize, s: usize, l: usize, out: &mut Vec<ValidationIssue<N>>)
        requires
            self.auditable(),
            i < self.input.intervals@.len(),
            l < self.input.loaders@.len(),
            self.index_of(i as int) < self.input.intervals@.len(),
            self.index_of(i as int) < self.input.loaders@[l as int].rates@.len(),
        ensures
            final(out)@ == old(out)@ + self.order_at(walk@, i as int, s as int)(l as int),
    {
        let loader = self.input.loaders[l].id;
        let index: usize = self.input.intervals[i].index;
        let rows = &self.result.activities;
        let ghost wanted = self.rows_at(l as int, i as int, s as int);
        let mut first: usize = 0;
        while first < rows.len() && !self.is_row_at(l, i, s, first)
            invariant
                rows == self.result.activities,
                l < self.input.loaders@.len(),
                i < self.input.intervals@.len(),
                first <= rows@.len(),
                wanted == self.rows_at(l as int, i as int, s as int),
                first_where(0, rows@.len() as int, wanted) == first_where(first as int, rows@.len() as int, wanted),
            decreases rows@.len() - first,
        {
            first = first + 1;
        }
        if first >= rows.len() {
            return;
        }
        assert(wanted(first as int));
        match self.find_expected(walk, i, l) {
            Some(task) => {
                let ghost wrong = self.bypasses(task, l as int, i as int, s as int);
                let mut k: usize = 0;
                let mut bypassed: bool = false;
                while !bypassed && k < rows.len()
                    invariant
                        rows == self.result.activities,
                        l < self.input.loaders@.len(),
                        i < self.input.intervals@.len(),
                        task.0 < self.input.tasks@.len(),
                        k <= rows@.len(),
                        wrong == self.bypasses(task, l as int, i as int, s as int),
                        !bypassed ==> first_where(0, rows@.len() as int, wrong) == first_where(
                            k as int,
                            rows@.len() as int,
                            wrong,
                        ),
                        bypassed ==> first_where(0, rows@.len() as int, wrong) is Some,
                    decreases rows@.len() - k, !bypassed as int,
                {
                    let elsewhere: bool = match task.1 {
                        Some(source) => rows[k].source != SourceId::Ground(source),
                        None => false,
                    };
                    if self.is_row_at(l, i, s, k) && (rows[k].task != self.input.tasks[task.0].id || elsewhere) {
                        assert(wrong(k as int));
                        bypassed = true;
                    } else {
                        k = k + 1;
                    }
                }
                if bypassed {
                    out.push(
                        ValidationIssue {
                            kind: IssueKind::OrderBypassed {
                                loader,
                                interval: index,
                                segment: s,
                                worked: rows[first].task,
                                eligible: self.input.tasks[task.0].id,
                            },
                            magnitude: N::whole(1),
                        },
                    );
                }
            },
            None => {
                out.push(
                    ValidationIssue {
                        kind: IssueKind::NoEligibleTask { loader, interval: index, segment: s },
                        magnitude: N::whole(1),
                    },
                );
            },
        }
    }

    fn find_next_unit(&self, walk: &Walk<N>, pile: &Stockpile<N>) -> (r: Option<InventoryUnit>)
        ensures
            r == self.next_unit(walk.units@, walk.released@, *pile),
    {
        let released = &walk.released;
        let dust = self.unit_dust();
        let ghost live = self.live(walk.units@, released@, pile.id);
        match pile.order {
            ReclaimOrder::Fifo => {
                for k in 0..released.len()
                    invariant
                        released == walk.released,
                        dust == self.unit_dust_spec(),
                        pile.order is Fifo,
                        live == self.live(walk.units@, released@, pile.id),
                        first_where(0, released@.len() as int, live) == first_where(
                            k as int,
                            released@.len() as int,
                            live,
                        ),
                {
                    if released[k].0 == pile.id && dust.is_below(walk.balance_of(pile.id, released[k].1)) {
                        assert(live(k as int));
                        return Some(released[k].1);
                    }
                }
                None
            },
            ReclaimOrder::Lifo => {
                let mut k: usize = released.len();
                while k > 0
                    invariant
                        k <= released@.len(),
                        released == walk.released,
                        dust == self.unit_dust_spec(),
                        pile.order is Lifo,
                        live == self.live(walk.units@, released@, pile.id),
                        last_where(released@.len(), live) == last_where(k as nat, live),
                    decreases k,
                {
                    k = k - 1;
                    if released[k].0 == pile.id && dust.is_below(walk.balance_of(pile.id, released[k].1)) {
                        assert(live(k as int));
                        return Some(released[k].1);
                    }
                }
                None
            },
        }
    }

    fn is_reclaim_at(&self, i: usize, s: usize, j: usize, k: usize) -> (r: bool)
        requires
            i < self.input.intervals@.len(),
            j < self.input.stockpiles@.len(),
            k < self.result.reclaims@.len(),
        ensures
            r == self.reclaims_at(i as int, s as int, j as int)(k as int),
    {
        let row = &self.result.reclaims[k];
        row.stockpile == self.input.stockpiles[j].id && row.interval == self.input.intervals[i].index && row.segment == s
    }

    fn check_pile(&self, walk: &mut Walk<N>, i: usize, s: usize, j: usize, out: &mut Vec<ValidationIssue<N>>)
        requires
            i < self.input.intervals@.len(),
            j < self.input.stockpiles@.len(),
        ensures
            final(walk)@ == (WalkState {
                units: self.drawn(old(walk)@.units, i as int, s as int, j as int, self.result.reclaims@.len()),
                ..old(walk)@
            }),
            ({
                let next = self.next_unit(old(walk)@.units, old(walk)@.released, self.input.stockpiles@[j as int]);
                final(out)@ == old(out)@ + only_if(
                    first_where(
                        0,
                        self.result.reclaims@.len() as int,
                        self.out_of_turn(next, i as int, s as int, j as int),
                    ) is Some,
                    issue(
                        IssueKind::ReclaimUnit { interval: self.index_of(i as int), segment: s },
                        N::of_whole(1),
                    ),
                ) + flat(
                    self.result.reclaims@.len(),
                    self.draw_issues(old(walk)@.units, i as int, s as int, j as int),
                )
            }),
    {
        let ghost (gi, gs, gj) = (i as int, s as int, j as int);
        let ghost start = walk@;
        let next = self.find_next_unit(walk, &self.input.stockpiles[j]);
        let ghost wrong = self.out_of_turn(next, gi, gs, gj);
        let ghost n = self.result.reclaims@.len();
        let mut k: usize = 0;
        let mut turned: bool = false;
        while !turned && k < self.result.reclaims.len()
            invariant
                gi == i,
                gs == s,
                gj == j,
                i < self.input.intervals@.len(),
                j < self.input.stockpiles@.len(),
                n == self.result.reclaims@.len(),
                k <= n,
                wrong == self.out_of_turn(next, gi, gs, gj),
                !turned ==> first_where(0, n as int, wrong) == first_where(k as int, n as int, wrong),
                turned ==> first_where(0, n as int, wrong) is Some,
            decreases n - k, !turned as int,
        {
            let other: bool = match next {
                Some(unit) => self.result.reclaims[k].unit != unit,
                None => true,
            };
            if self.is_reclaim_at(i, s, j, k) && other {
                assert(wrong(k as int));
                turned = true;
            } else {
                k = k + 1;
            }
        }
        if turned {
            out.push(
                ValidationIssue {
                    kind: IssueKind::ReclaimUnit { interval: self.input.intervals[i].index, segment: s },
                    magnitude: N::whole(1),
                },
            );
        }
        let ghost base = out@;
        let ghost found = self.draw_issues(start.units, gi, gs, gj);
        assert(base + flat(0, found) =~= base);
        for k in 0..self.result.reclaims.len()
            invariant
                gi == i,
                gs == s,
                gj == j,
                i < self.input.intervals@.len(),
                j < self.input.stockpiles@.len(),
                walk@ == (WalkState { units: self.drawn(start.units, gi, gs, gj, k as nat), ..start }),
                found == self.draw_issues(start.units, gi, gs, gj),
                out@ == base + flat(k as nat, found),
        {
            if self.is_reclaim_at(i, s, j, k) {
                let row = self.result.reclaims[k];
                match walk.units.get(Pair(row.stockpile, row.unit)) {
                    Some(balance) => {
                        let left = balance.sub(row.tonnes_t);
                        walk.units.put(Pair(row.stockpile, row.unit), left);
                        if left.is_below(self.tolerance().neg()) {
                            out.push(ValidationIssue { kind: IssueKind::UnitOverdrawn, magnitude: left.neg() });
                        }
                    },
                    None => {
                        out.push(ValidationIssue { kind: IssueKind::UnreleasedUnit, magnitude: row.tonnes_t });
                    },
                }
            }
            assert(out@ =~= base + (flat(k as nat, found) + found(k as int)));
        }
    }

    fn enter(&self, walk: &mut Walk<N>, i: usize, s: usize)
        requires
            i < self.input.intervals@.len(),
        ensures
            ({
                let dug = WalkState {
                    ground: self.dug_to(old(walk)@.ground, i as int, s as int, self.result.activities@.len()),
                    ..old(walk)@
                };
                let received = self.received_to(dug, i as int, s as int, self.result.movements@.len());
                final(walk)@ == (WalkState {
                    piles: self.reclaimed_to(received.piles, i as int, s as int, self.result.reclaims@.len()),
                    ..received
                })
            }),
    {
        let index: usize = self.input.intervals[i].index;
        let day: u32 = self.input.intervals[i].day();
        let ghost (gi, gs) = (i as int, s as int);
        let ghost start = walk@;
        for k in 0..self.result.activities.len()
            invariant
                gi == i,
                gs == s,
                i < self.input.intervals@.len(),
                index == self.index_of(gi),
                walk@ == (WalkState { ground: self.dug_to(start.ground, gi, gs, k as nat), ..start }),
        {
            let row = self.result.activities[k];
            if row.interval == index && row.segment == s && row.activity == Activity::Dig {
                if let SourceId::Ground(id) = row.source {
                    if let Some(held) = walk.ground.get(id.0 as u64) {
                        walk.ground.put(id.0 as u64, held.add(row.tonnes_t));
                    }
                }
            }
        }
        let ghost dug = walk@;
        for m in 0..self.result.movements.len()
            invariant
                gi == i,
                gs == s,
                i < self.input.intervals@.len(),
                index == self.index_of(gi),
                day == self.input.intervals@[gi].calendar_day(),
                walk@ == self.received_to(dug, gi, gs, m as nat),
        {
            let row = &self.result.movements[m];
            if row.interval == index && row.segment == s {
                if let Some(d) = find_key(&self.input.destinations, row.destination.0) {
                    let destination = &self.input.destinations[d];
                    match destination.kind {
                        DestinationKind::Crusher => walk.crusher.raise(pair_key(destination.id.0, day), row.tonnes_t),
                        DestinationKind::Dump => walk.dump.raise(destination.id.0 as u64, row.tonnes_t),
                        DestinationKind::Stockpile(pile) => walk.piles.raise(pile.0 as u64, row.tonnes_t),
                    }
                }
            }
        }
        let ghost received = walk@;
        for k in 0..self.result.reclaims.len()
            invariant
                gi == i,
                gs == s,
                i < self.input.intervals@.len(),
                index == self.index_of(gi),
                walk@ == (WalkState { piles: self.reclaimed_to(received.piles, gi, gs, k as nat), ..received }),
        {
            let row = self.result.reclaims[k];
            if row.interval == index && row.segment == s {
                walk.piles.lower(row.stockpile.0 as u64, row.tonnes_t);
            }
        }
    }

    fn find_capacity(&self, pile: u64) -> (r: N)
        ensures
            r == self.capacity_of(pile),
    {
        match find_key(&self.input.stockpiles, pile as u32) {
            Some(p) => self.input.stockpiles[p].capacity_t,
            None => N::infinity(),
        }
    }

    fn check_outside(&self, walk: &Walk<N>, i: usize, s: usize, out: &mut Vec<ValidationIssue<N>>)
        requires
            i < self.input.intervals@.len(),
        ensures
            final(out)@ == old(out)@ + flat(walk@.piles.len(), self.outside(walk@.piles, i as int, s as int)),
    {
        let entries = &walk.piles.entries;
        let ghost found = self.outside(walk@.piles, i as int, s as int);
        let ghost base = out@;
        assert(base + flat(0, found) =~= base);
        for e in 0..entries.len()
            invariant
                i < self.input.intervals@.len(),
                entries@ == walk@.piles,
                found == self.outside(walk@.piles, i as int, s as int),
                out@ == base + flat(e as nat, found),
        {
            let (pile, inventory) = entries[e];
            let slack = self.tolerance().add(self.dust());
            if inventory.is_below(slack.neg()) || self.find_capacity(pile).add(self.tolerance()).add(
                self.dust(),
            ).is_below(inventory) {
                out.push(
                    ValidationIssue {
                        kind: IssueKind::PileOutside {
                            pile: StockpileId(pile as u32),
                            interval: self.input.intervals[i].index,
                            segment: s,
                        },
                        magnitude: inventory.abs(),
                    },
                );
            }
            assert(out@ =~= base + (flat(e as nat, found) + found(e as int)));
        }
    }

    fn walk_segment(&self, walk: &mut Walk<N>, i: usize, s: usize, out: &mut Vec<ValidationIssue<N>>)
        requires
            self.auditable(),
            i < self.input.intervals@.len(),
            self.budget_spec(self.index_of(i as int)) > 0,
        ensures
            final(walk)@ == self.after_segment(old(walk)@, i as int, s as int),
            final(out)@ == old(out)@ + self.segment_issues(old(walk)@, i as int, s as int),
    {
        let ghost (gi, gs) = (i as int, s as int);
        let ghost start = walk@;
        let ghost base = out@;
        let ghost orders = self.order_at(start, gi, gs);
        assert(base + flat(0, orders) =~= base);
        for l in 0..self.input.loaders.len()
            invariant
                gi == i,
                gs == s,
                self.auditable(),
                i < self.input.intervals@.len(),
                self.budget_spec(self.index_of(gi)) > 0,
                walk@ == start,
                orders == self.order_at(start, gi, gs),
                out@ == base + flat(l as nat, orders),
        {
            self.check_order(walk, i, s, l, out);
            assert(out@ =~= base + (flat(l as nat, orders) + orders(l as int)));
        }
        let ghost middle = out@;
        let ghost piled = self.pile_issues(start, gi, gs);
        assert(middle + flat(0, piled) =~= middle);
        for j in 0..self.input.stockpiles.len()
            invariant
                gi == i,
                gs == s,
                i < self.input.intervals@.len(),
                walk@ == (WalkState { units: self.drawn_to(start.units, gi, gs, j as nat), ..start }),
                piled == self.pile_issues(start, gi, gs),
                out@ == middle + flat(j as nat, piled),
        {
            self.check_pile(walk, i, s, j, out);
            assert(out@ =~= middle + (flat(j as nat, piled) + piled(j as int)));
        }
        self.enter(walk, i, s);
        self.check_outside(walk, i, s, out);
        assert(out@ =~= base + self.segment_issues(start, gi, gs));
    }

    fn check_closing(&self, walk: &Walk<N>, i: usize, out: &mut Vec<ValidationIssue<N>>)
        requires
            i < self.input.intervals@.len(),
        ensures
            final(out)@ == old(out)@ + self.closing_issues(walk@, i as int),
    {
        let index: usize = self.input.intervals[i].index;
        if index >= self.result.balances.len() {
            return;
        }
        let balance = &self.result.balances[index];
        let piles = &walk.piles.entries;
        let ghost base = out@;
        let ghost piled = self.pile_closing(walk@, i as int);
        assert(base + flat(0, piled) =~= base);
        for e in 0..piles.len()
            invariant
                i < self.input.intervals@.len(),
                index == self.index_of(i as int),
                index < self.result.balances@.len(),
                balance == self.result.balances@[index as int],
                piles@ == walk@.piles,
                piled == self.pile_closing(walk@, i as int),
                out@ == base + flat(e as nat, piled),
        {
            let (pile, inventory) = piles[e];
            if let Some(published) = balance.stockpile_closing_t.get(pile) {
                let gap = published.sub(inventory).abs();
                if self.tolerance().larger(inventory.abs().mul(self.tolerance())).is_below(gap) {
                    out.push(ValidationIssue { kind: IssueKind::PileClosing, magnitude: gap });
                }
            }
            assert(out@ =~= base + (flat(e as nat, piled) + piled(e as int)));
        }
        let grounds = &walk.ground.entries;
        let ghost middle = out@;
        let ghost dug = self.ground_closing(walk@, i as int);
        assert(middle + flat(0, dug) =~= middle);
        for e in 0..grounds.len()
            invariant
                i < self.input.intervals@.len(),
                index == self.index_of(i as int),
                index < self.result.balances@.len(),
                balance == self.result.balances@[index as int],
                grounds@ == walk@.ground,
                dug == self.ground_closing(walk@, i as int),
                out@ == middle + flat(e as nat, dug),
        {
            let (ground, extracted) = grounds[e];
            if let Some(published) = balance.ground_remaining_t.get(ground) {
                let left = self.find_tonnes(GroundId(ground as u32)).sub(extracted);
                if self.tolerance().is_below(published.sub(left).abs()) {
                    out.push(
                        ValidationIssue { kind: IssueKind::GroundClosing, magnitude: published.sub(extracted).abs() },
                    );
                }
            }
            assert(out@ =~= middle + (flat(e as nat, dug) + dug(e as int)));
        }
    }

    /// Walks the result and finds what goes wrong along the way.
    pub fn check_walk(&self) -> (r: Vec<ValidationIssue<N>>)
        requires
            self.auditable(),
        ensures
            r@ == self.walk_issues(),
    {
        let mut out: Vec<ValidationIssue<N>> = Vec::new();
        let mut walk = self.opening_walk();
        let ghost all = self.interval_issues();
        for i in 0..self.input.intervals.len()
            invariant
                self.auditable(),
                walk@ == self.walk_at(i as nat),
                all == self.interval_issues(),
                out@ == flat(i as nat, all),
        {
            let ghost start = walk@;
            let ghost base = out@;
            let ghost segments = self.segments_of(start, i as int);
            let budget: usize = self.budget(self.input.intervals[i].index);
            self.release(&mut walk, i);
            assert(base + flat(0, segments) =~= base);
            for s in 0..budget
                invariant
                    self.auditable(),
                    i < self.input.intervals@.len(),
                    budget == self.budget_spec(self.index_of(i as int)),
                    segments == self.segments_of(start, i as int),
                    walk@ == self.state_at(start, i as int, s as nat),
                    out@ == base + flat(s as nat, segments),
            {
                self.walk_segment(&mut walk, i, s, &mut out);
                assert(out@ =~= base + (flat(s as nat, segments) + segments(s as int)));
            }
            self.check_closing(&walk, i, &mut out);
            assert(out@ =~= flat(i as nat, all) + all(i as int));
        }
        out
    }
}

impl<N: Scalar> Walk<N> {
    fn balance_of(&self, pile: StockpileId, unit: InventoryUnit) -> (r: N)
        ensures
            r == (match held_under(self.units@, Pair(pile, unit)) {
                Some(balance) => balance,
                None => N::of_whole(0),
            }),
    {
        match self.units.get(Pair(pile, unit)) {
            Some(balance) => balance,
            None => N::whole(0),
        }
    }
}

fn released_holds(released: &Vec<(StockpileId, InventoryUnit)>, pile: StockpileId, unit: InventoryUnit) -> (r: bool)
    ensures
        r == released@.contains((pile, unit)),
{
    for k in 0..released.len()
        invariant
            forall|q: int| 0 <= q < k ==> (#[trigger] released@[q]) != (pile, unit),
    {
        if released[k].0 == pile && released[k].1 == unit {
            assert(released@[k as int] == (pile, unit));
            return true;
        }
    }
    false
}

} // verus!
