//! What an audit asks of piles, parcels and the objective, told of the rows and
//! the books alone.
use vstd::prelude::*;

use crate::ledger::{held_under, Pair};
use crate::listing::{first_where, first_where_finds, keyed, last_where, sum_to};
use crate::optimisation::audit::limits::{nothing_anywhere, same_sum};
use crate::optimisation::audit::totals::Audit;
use crate::optimisation::audit::walk::WalkState;
use crate::optimisation::ids::{GroundId, ReclaimOrder, StockpileId};
use crate::optimisation::result::{HeldUnit, InventoryUnit};
use crate::scalar::Scalar;

verus! {

proof fn last_where_finds(n: nat, p: spec_fn(int) -> bool)
    ensures
        last_where(n, p) matches Some(k) ==> 0 <= k < n && p(k) && forall|j: int| k < j < n ==> !#[trigger] p(j),
        last_where(n, p) is None ==> forall|j: int| 0 <= j < n ==> !#[trigger] p(j),
    decreases n,
{
    if n > 0 && !p(n - 1) {
        last_where_finds((n - 1) as nat, p);
    }
}

impl<'a, N: Scalar> Audit<'a, N> {
    /// Unit `x` of those that are released is of a pile and holds more than a
    /// trace.
    pub open spec fn holds_some(
        self,
        units: Seq<(HeldUnit, N)>,
        released: Seq<(StockpileId, InventoryUnit)>,
        pile: StockpileId,
    ) -> spec_fn(int) -> bool {
        |x: int|
            released[x].0 == pile && (held_under(units, Pair(pile, released[x].1)) matches Some(held)
                && self.grain().upper(self.result.resolution.inventory_dust_t).below(held))
    }

    /// Unit `x` is the one that a pile gives up next: the first, or by the pile's
    /// order the last, that holds more than a trace.
    pub open spec fn is_next(
        self,
        units: Seq<(HeldUnit, N)>,
        released: Seq<(StockpileId, InventoryUnit)>,
        j: int,
        x: int,
    ) -> bool {
        let pile = self.input.stockpiles@[j];
        let some = self.holds_some(units, released, pile.id);
        &&& 0 <= x < released.len()
        &&& some(x)
        &&& match pile.order {
            ReclaimOrder::Fifo => forall|y: int| 0 <= y < x ==> !#[trigger] some(y),
            ReclaimOrder::Lifo => forall|y: int| x < y < released.len() ==> !#[trigger] some(y),
        }
    }

    /// The unit of a reclaim is the one that its pile gives up next.
    pub open spec fn takes_next(
        self,
        units: Seq<(HeldUnit, N)>,
        released: Seq<(StockpileId, InventoryUnit)>,
        j: int,
        unit: InventoryUnit,
    ) -> bool {
        exists|x: int| #[trigger] self.is_next(units, released, j, x) && released[x].1 == unit
    }

    proof fn next_is(
        self,
        units: Seq<(HeldUnit, N)>,
        released: Seq<(StockpileId, InventoryUnit)>,
        j: int,
        unit: InventoryUnit,
    )
        requires
            !self.grain().upper(self.result.resolution.inventory_dust_t).below(N::of_whole(0)),
        ensures
            self.takes_next(units, released, j, unit) == (self.next_unit(units, released, self.input.stockpiles@[j])
                == Some(unit)),
    {
        let pile = self.input.stockpiles@[j];
        let live = self.live(units, released, pile.id);
        let some = self.holds_some(units, released, pile.id);
        let n = released.len();
        assert(self.unit_dust_spec() == self.grain().upper(self.result.resolution.inventory_dust_t));
        assert forall|x: int| 0 <= x < n implies #[trigger] live(x) == some(x) by {}
        first_where_finds(0, n as int, live);
        last_where_finds(n, live);
        match pile.order {
            ReclaimOrder::Fifo => {
                if let Some(x) = first_where(0, n as int, live) {
                    assert(live(x));
                    assert forall|y: int| 0 <= y < x implies !#[trigger] some(y) by {
                        assert(!live(y));
                    }
                    assert(self.is_next(units, released, j, x));
                }
                assert forall|z: int| #[trigger] self.is_next(units, released, j, z) implies first_where(
                    0,
                    n as int,
                    live,
                ) == Some(z) by {
                    assert(live(z) == some(z));
                    let x = first_where(0, n as int, live)->0;
                    assert(live(x) == some(x));
                    if x < z {
                        assert(!some(x));
                    }
                }
            },
            ReclaimOrder::Lifo => {
                if let Some(x) = last_where(n, live) {
                    assert(live(x));
                    assert forall|y: int| x < y < n implies !#[trigger] some(y) by {
                        assert(!live(y));
                    }
                    assert(self.is_next(units, released, j, x));
                }
                assert forall|z: int| #[trigger] self.is_next(units, released, j, z) implies last_where(n, live) == Some(
                    z,
                ) by {
                    assert(live(z) == some(z));
                    let x = last_where(n, live)->0;
                    assert(live(x) == some(x));
                    if z < x {
                        assert(!some(x));
                    }
                }
            },
        }
        if self.takes_next(units, released, j, unit) {
            let z = choose|z: int| #[trigger] self.is_next(units, released, j, z) && released[z].1 == unit;
            assert(self.is_next(units, released, j, z));
        }
    }

    /// The audit accepts what a pile gives up in a segment exactly where every
    /// reclaim row there takes the unit that is next, and a unit that is released
    /// and holds what is taken, to the tolerance.
    pub proof fn turns_are_audited(self, state: WalkState<N>, i: int, s: int, j: int)
        requires
            0 <= j < self.input.stockpiles@.len(),
            !self.grain().upper(self.result.resolution.inventory_dust_t).below(N::of_whole(0)),
        ensures
            self.pile_issues(state, i, s)(j).len() == 0 <==> forall|k: int|
                #![trigger self.result.reclaims@[k]]
                0 <= k < self.result.reclaims@.len() && self.result.reclaims@[k].stockpile
                    == self.input.stockpiles@[j].id && self.result.reclaims@[k].interval
                    == self.input.intervals@[i].index && self.result.reclaims@[k].segment == s ==> {
                    let row = self.result.reclaims@[k];
                    let units = self.drawn_to(state.units, i, s, j as nat);
                    &&& self.takes_next(units, state.released, j, row.unit)
                    &&& held_under(self.drawn(units, i, s, j, k as nat), Pair(row.stockpile, row.unit)) matches Some(held)
                        && !held.minus(row.tonnes_t).below(self.input.horizon.tolerances.tonnes_t.opposite())
                },
    {
        let units = self.drawn_to(state.units, i, s, j as nat);
        let next = self.next_unit(units, state.released, self.input.stockpiles@[j]);
        let n = self.result.reclaims@.len();
        let wrong = self.out_of_turn(next, i, s, j);
        first_where_finds(0, n as int, wrong);
        nothing_anywhere(n, self.draw_issues(units, i, s, j));
        let here = self.reclaims_at(i, s, j);
        assert forall|k: int| 0 <= k < n && here(k) implies #[trigger] wrong(k) == !self.takes_next(
            units,
            state.released,
            j,
            self.result.reclaims@[k].unit,
        ) by {
            self.next_is(units, state.released, j, self.result.reclaims@[k].unit);
        }
        assert forall|k: int| 0 <= k < n implies (#[trigger] self.draw_issues(units, i, s, j)(k)).len() == 0 <==> (here(k)
            ==> {
            let row = self.result.reclaims@[k];
            held_under(self.drawn(units, i, s, j, k as nat), Pair(row.stockpile, row.unit)) matches Some(held)
                && !held.minus(row.tonnes_t).below(self.tolerance_spec().opposite())
        }) by {}
        if self.pile_issues(state, i, s)(j).len() == 0 {
            assert forall|k: int|
                #![trigger self.result.reclaims@[k]]
                0 <= k < n && here(k) implies {
                let row = self.result.reclaims@[k];
                &&& self.takes_next(units, state.released, j, row.unit)
                &&& held_under(self.drawn(units, i, s, j, k as nat), Pair(row.stockpile, row.unit)) matches Some(held)
                    && !held.minus(row.tonnes_t).below(self.tolerance_spec().opposite())
            } by {
                assert(!wrong(k));
                assert(self.draw_issues(units, i, s, j)(k).len() == 0);
            }
        } else if first_where(0, n as int, wrong) is Some {
            let k = first_where(0, n as int, wrong)->0;
            assert(here(k) && wrong(k));
            assert(self.result.reclaims@[k].segment == s);
        } else {
            let k = choose|k: int| 0 <= k < n && (#[trigger] self.draw_issues(units, i, s, j)(k)).len() != 0;
            assert(here(k));
            assert(self.result.reclaims@[k].segment == s);
        }
    }

    /// The audit accepts what a pile holds after a segment exactly where it is
    /// not less than nothing and not more than the pile has room for, each to the
    /// tolerance and a grain.
    pub proof fn rooms_are_audited(self, piles: Seq<(u64, N)>, i: int, s: int, e: int)
        requires
            0 <= e < piles.len(),
        ensures
            self.outside(piles, i, s)(e).len() == 0 <==> {
                let slack = self.input.horizon.tolerances.tonnes_t.plus(self.grain());
                let room = match keyed(self.input.stockpiles@, piles[e].0 as u32) {
                    Some(p) => self.input.stockpiles@[p].capacity_t,
                    None => N::of_infinity(),
                };
                &&& !piles[e].1.below(slack.opposite())
                &&& !room.plus(self.input.horizon.tolerances.tonnes_t).plus(self.grain()).below(piles[e].1)
            },
    {
        assert(self.grain() == self.dust_spec());
    }

    /// The audit accepts what is published of a pile, or of a block, at the end of
    /// an interval exactly where it is what the books say, to the tolerance.
    pub proof fn closings_are_audited(self, state: WalkState<N>, i: int, e: int, published: N)
        ensures
            0 <= e < state.piles.len() && held_under(
                self.result.balances@[self.input.intervals@[i].index as int].stockpile_closing_t@,
                state.piles[e].0,
            ) == Some(published) ==> (self.pile_closing(state, i)(e).len() == 0 <==> {
                let tolerance = self.input.horizon.tolerances.tonnes_t;
                !tolerance.upper(state.piles[e].1.magnitude().times(tolerance)).below(
                    published.minus(state.piles[e].1).magnitude(),
                )
            }),
            0 <= e < state.ground.len() && held_under(
                self.result.balances@[self.input.intervals@[i].index as int].ground_remaining_t@,
                state.ground[e].0,
            ) == Some(published) ==> (self.ground_closing(state, i)(e).len() == 0
                <==> !self.input.horizon.tolerances.tonnes_t.below(
                published.minus(
                    self.block_held(GroundId(state.ground[e].0 as u32)).minus(state.ground[e].1),
                ).magnitude(),
            )),
    {
        let ground = GroundId(state.ground[e].0 as u32);
        assert(self.tonnes_of(ground) == self.block_held(ground));
    }

    /// The audit accepts a parcel exactly where it is no less than half of what a
    /// position has to hold, and released in the interval after it came.
    pub proof fn parcels_are_audited(self, p: int)
        requires
            0 <= p < self.result.parcels@.len(),
        ensures
            self.parcels_of()(p).len() == 0 <==> {
                let parcel = self.result.parcels@[p];
                &&& !parcel.tonnes_t.below(self.input.horizon.tolerances.parcel_occupancy_t.times(N::of_decimal(5, 1)))
                &&& parcel.release_interval == parcel.receipt_interval + 1
            },
    {
    }

    /// What each movement is worth.
    pub open spec fn worths(self) -> spec_fn(int) -> Option<N> {
        |m: int| Some(self.result.movements@[m].value)
    }

    /// The audit accepts the objective exactly where what is reported is the sum
    /// of the movements' values, and what the solver said is what is reported,
    /// each to the tolerances.
    pub proof fn objective_is_audited(self)
        ensures
            self.objective_issues().len() == 0 <==> {
                let tolerances = self.input.horizon.tolerances;
                let rows = self.result.movements@.len();
                &&& self.result.summary.objective matches Some(reported) ==> !tolerances.objective.upper(
                    tolerances.tonnes_t.times(reported.magnitude()),
                ).below(sum_to(rows, self.worths()).minus(reported).magnitude())
                &&& self.result.summary.objective matches Some(reported)
                    ==> (self.result.summary.raw_solver_objective matches Some(raw) ==> !tolerances.objective.upper(
                    tolerances.tonnes_t.times(raw.magnitude().upper(reported.magnitude())),
                ).times(
                    N::of_whole(
                        if rows < 1 {
                            1
                        } else {
                            rows as u64
                        },
                    ),
                ).below(raw.minus(reported).magnitude()))
            },
    {
        same_sum(self.result.movements@.len(), self.values(), self.worths());
    }
}

} // verus!
