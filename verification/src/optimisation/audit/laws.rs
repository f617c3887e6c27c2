//! What an audit without issues says of a result.
use vstd::prelude::*;

use crate::ledger::{held_under, Pair};
use crate::listing::{count_to, first_where_finds, flat, sum_to};
use crate::optimisation::audit::totals::{horizon_days, limit_of, list_total, Audit};
use crate::optimisation::audit::walk::WalkState;
use crate::optimisation::ids::Activity;
use crate::optimisation::input::TaskKind;
use crate::scalar::Scalar;

verus! {

/// Where nothing is listed in all, nothing is listed at any place.
pub(crate) proof fn nothing_in_parts<A>(n: nat, f: spec_fn(int) -> Seq<A>, i: int)
    requires
        flat(n, f).len() == 0,
        0 <= i < n,
    ensures
        f(i).len() == 0,
    decreases n,
{
    if i < n - 1 {
        nothing_in_parts((n - 1) as nat, f, i);
    }
}

impl<'a, N: Scalar> Audit<'a, N> {
    /// What rounding may leave of so many rows.
    pub open spec fn slack(self, rows: nat) -> N {
        self.tolerance_spec().plus(N::of_whole(3).times(self.dust_spec()).times(N::of_whole(rows as u64)))
    }

    /// A loader works on one source in a segment, at no more than its rates.
    pub open spec fn works_within(self, l: int, i: int, s: int) -> bool {
        let n = self.result.activities@.len();
        let rate = self.input.loaders@[l].rates@[self.input.intervals@[i].index as int];
        let duration = self.segment_length(i, s);
        let slack = self.slack(count_to(n, self.rows_at(l, i, s)));
        &&& count_to(n, self.fresh_rows(l, i, s)) <= 1
        &&& !slack.below(
            sum_to(n, self.worked_tonnes(l, i, s, Activity::Dig)).minus(rate.dig_tph.times(duration)),
        )
        &&& !slack.below(
            sum_to(n, self.worked_tonnes(l, i, s, Activity::Reclaim)).minus(rate.reclaim_tph.times(duration)),
        )
    }

    /// A truck class works no more than its share of the hours in a segment.
    pub open spec fn hauls_within(self, t: int, i: int, s: int) -> bool {
        let interval = self.input.intervals@[i];
        let units = self.input.trucks@[t].hours@[interval.index as int].over(interval.length());
        !self.tolerance_spec().upper(self.dust_spec()).below(
            sum_to(self.result.movements@.len(), self.truck_used(t, i, s)).minus(
                units.times(self.segment_length(i, s)),
            ),
        )
    }

    /// A result without issues keeps every loader to one source and its rates and
    /// every truck class to its hours in every segment, crushers to their days,
    /// dumps to their capacity, blocks to their tonnes and reclaim tasks to their
    /// maximum, and its segments fill their intervals.
    #[verifier::rlimit(40)]
    pub proof fn clean_audit_keeps_limits(self)
        requires
            self.issues().len() == 0,
        ensures
            self.all_finite(),
            forall|i: int|
                #![trigger self.input.intervals@[i]]
                0 <= i < self.input.intervals@.len() ==> {
                    let interval = self.input.intervals@[i];
                    &&& interval.index < self.result.segment_durations_h@.len()
                    &&& self.result.segment_durations_h@[interval.index as int]@.len() == self.budget_spec(
                        interval.index,
                    )
                    &&& !N::of_decimal(1, 6).below(
                        list_total(self.result.segment_durations_h@[interval.index as int]@).minus(
                            interval.length(),
                        ).magnitude(),
                    )
                },
            forall|l: int, i: int, s: int|
                0 <= l < self.input.loaders@.len() && 0 <= i < self.input.intervals@.len() && 0 <= s
                    < self.budget_spec(self.input.intervals@[i].index) ==> #[trigger] self.works_within(l, i, s),
            forall|t: int, i: int, s: int|
                0 <= t < self.input.trucks@.len() && 0 <= i < self.input.intervals@.len() && 0 <= s
                    < self.budget_spec(self.input.intervals@[i].index) ==> #[trigger] self.hauls_within(t, i, s),
            forall|d: int, day: int|
                #![trigger self.crushed_on(d, day)]
                0 <= d < self.input.destinations@.len() && self.input.destinations@[d].kind is Crusher && 0 <= day
                    < horizon_days(self.input.horizon.end_h) ==> match limit_of(self.input.destinations@[d], day) {
                    Some(limit) => !self.tolerance_spec().below(
                        sum_to(self.result.movements@.len(), self.crushed_on(d, day)).minus(limit),
                    ),
                    None => true,
                },
            forall|d: int|
                #![trigger self.received_by(d)]
                0 <= d < self.input.destinations@.len() && self.input.destinations@[d].kind is Dump ==> match
                self.input.destinations@[d].capacity_t {
                    Some(capacity) => !self.tolerance_spec().below(
                        sum_to(self.result.movements@.len(), self.received_by(d)).minus(capacity),
                    ),
                    None => true,
                },
            forall|g: int|
                #![trigger self.input.ground@[g]]
                0 <= g < self.input.ground@.len() ==> !self.tolerance_spec().below(
                    self.extracted_from(self.input.ground@[g].id).minus(self.input.ground@[g].tonnes_t),
                ),
            forall|t: int|
                #![trigger self.reclaimed_by(t)]
                0 <= t < self.input.tasks@.len() ==> match self.input.tasks@[t].kind {
                    TaskKind::Reclaim { approved_sources, maximum_t: Some(maximum) } => !self.slack(
                        count_to(self.result.reclaims@.len(), self.reclaims_of(t)),
                    ).below(sum_to(self.result.reclaims@.len(), self.reclaimed_by(t)).minus(maximum)),
                    _ => true,
                },
    {
        assert(self.total_issues().len() == 0);
        assert forall|i: int|
            #![trigger self.input.intervals@[i]]
            0 <= i < self.input.intervals@.len() implies {
            let interval = self.input.intervals@[i];
            &&& interval.index < self.result.segment_durations_h@.len()
            &&& self.result.segment_durations_h@[interval.index as int]@.len() == self.budget_spec(interval.index)
            &&& !N::of_decimal(1, 6).below(
                list_total(self.result.segment_durations_h@[interval.index as int]@).minus(
                    interval.length(),
                ).magnitude(),
            )
        } by {
            nothing_in_parts(self.input.intervals@.len(), self.durations_at(), i);
        }
        assert forall|l: int, i: int, s: int|
            0 <= l < self.input.loaders@.len() && 0 <= i < self.input.intervals@.len() && 0 <= s < self.budget_spec(
                self.input.intervals@[i].index,
            ) implies #[trigger] self.works_within(l, i, s) by {
            nothing_in_parts(self.input.loaders@.len(), self.rates_of(), l);
            nothing_in_parts(self.input.intervals@.len(), self.rates_in(l), i);
            nothing_in_parts(self.budget_spec(self.input.intervals@[i].index), self.rates_at(l, i), s);
        }
        assert forall|t: int, i: int, s: int|
            0 <= t < self.input.trucks@.len() && 0 <= i < self.input.intervals@.len() && 0 <= s < self.budget_spec(
                self.input.intervals@[i].index,
            ) implies #[trigger] self.hauls_within(t, i, s) by {
            nothing_in_parts(self.input.trucks@.len(), self.trucks_of(), t);
            nothing_in_parts(self.input.intervals@.len(), self.trucks_in(t), i);
            nothing_in_parts(self.budget_spec(self.input.intervals@[i].index), self.trucks_at(t, i), s);
        }
        assert forall|d: int, day: int|
            #![trigger self.crushed_on(d, day)]
            0 <= d < self.input.destinations@.len() && self.input.destinations@[d].kind is Crusher && 0 <= day
                < horizon_days(self.input.horizon.end_h) implies match limit_of(self.input.destinations@[d], day) {
            Some(limit) => !self.tolerance_spec().below(
                sum_to(self.result.movements@.len(), self.crushed_on(d, day)).minus(limit),
            ),
            None => true,
        } by {
            nothing_in_parts(self.input.destinations@.len(), self.crushers_of(), d);
            nothing_in_parts(horizon_days(self.input.horizon.end_h), self.crusher_day(d), day);
        }
        assert forall|d: int|
            #![trigger self.received_by(d)]
            0 <= d < self.input.destinations@.len() && self.input.destinations@[d].kind is Dump implies match
        self.input.destinations@[d].capacity_t {
            Some(capacity) => !self.tolerance_spec().below(
                sum_to(self.result.movements@.len(), self.received_by(d)).minus(capacity),
            ),
            None => true,
        } by {
            nothing_in_parts(self.input.destinations@.len(), self.dumps_of(), d);
        }
        assert forall|g: int|
            #![trigger self.input.ground@[g]]
            0 <= g < self.input.ground@.len() implies !self.tolerance_spec().below(
            self.extracted_from(self.input.ground@[g].id).minus(self.input.ground@[g].tonnes_t),
        ) by {
            nothing_in_parts(self.input.ground@.len(), self.ground_of(), g);
        }
        assert forall|t: int|
            #![trigger self.reclaimed_by(t)]
            0 <= t < self.input.tasks@.len() implies match self.input.tasks@[t].kind {
            TaskKind::Reclaim { approved_sources, maximum_t: Some(maximum) } => !self.slack(
                count_to(self.result.reclaims@.len(), self.reclaims_of(t)),
            ).below(sum_to(self.result.reclaims@.len(), self.reclaimed_by(t)).minus(maximum)),
            _ => true,
        } by {
            nothing_in_parts(self.input.tasks@.len(), self.maxima_of(), t);
        }
    }

    /// The books of the walk before a segment.
    pub open spec fn books_at(self, i: int, s: int) -> WalkState<N> {
        self.state_at(self.walk_at(i as nat), i, s as nat)
    }

    /// In a result without issues a stockpile gives up the unit whose turn it is
    /// and no other, a unit only once it is released and no more than it holds;
    /// what piles hold after a segment is possible; and what is received is
    /// released in the next interval.
    #[verifier::rlimit(40)]
    pub proof fn clean_audit_keeps_inventory(self, i: int, s: int, j: int)
        requires
            self.issues().len() == 0,
            0 <= i < self.input.intervals@.len(),
            0 <= s < self.budget_spec(self.index_of(i)),
            0 <= j < self.input.stockpiles@.len(),
        ensures
            ({
                let state = self.books_at(i, s);
                let units = self.drawn_to(state.units, i, s, j as nat);
                let next = self.next_unit(units, state.released, self.input.stockpiles@[j]);
                let after = self.after_segment(state, i, s);
                &&& forall|k: int|
                    #![trigger self.result.reclaims@[k]]
                    0 <= k < self.result.reclaims@.len() && self.reclaims_at(i, s, j)(k) ==> {
                        let row = self.result.reclaims@[k];
                        &&& Some(row.unit) == next
                        &&& match held_under(self.drawn(units, i, s, j, k as nat), Pair(row.stockpile, row.unit)) {
                            Some(balance) => !balance.minus(row.tonnes_t).below(self.tolerance_spec().opposite()),
                            None => false,
                        }
                    }
                &&& forall|e: int|
                    #![trigger after.piles[e]]
                    0 <= e < after.piles.len() ==> {
                        let (pile, inventory) = after.piles[e];
                        &&& !inventory.below(self.tolerance_spec().plus(self.dust_spec()).opposite())
                        &&& !self.capacity_of(pile).plus(self.tolerance_spec()).plus(self.dust_spec()).below(
                            inventory,
                        )
                    }
            }),
            forall|p: int|
                #![trigger self.parcel(p)]
                0 <= p < self.result.parcels@.len() ==> self.parcel(p).release_interval == self.parcel(
                    p,
                ).receipt_interval + 1,
    {
        assert(self.walk_issues().len() == 0);
        let state = self.books_at(i, s);
        let after = self.after_segment(state, i, s);
        nothing_in_parts(self.input.intervals@.len(), self.interval_issues(), i);
        assert(flat(self.budget_spec(self.index_of(i)), self.segments_of(self.walk_at(i as nat), i)).len() == 0);
        nothing_in_parts(self.budget_spec(self.index_of(i)), self.segments_of(self.walk_at(i as nat), i), s);
        assert(self.segment_issues(state, i, s).len() == 0);
        assert(flat(self.input.stockpiles@.len(), self.pile_issues(state, i, s)).len() == 0);
        nothing_in_parts(self.input.stockpiles@.len(), self.pile_issues(state, i, s), j);
        let units = self.drawn_to(state.units, i, s, j as nat);
        let next = self.next_unit(units, state.released, self.input.stockpiles@[j]);
        let n = self.result.reclaims@.len();
        let wrong = self.out_of_turn(next, i, s, j);
        first_where_finds(0, n as int, wrong);
        assert forall|k: int|
            #![trigger self.result.reclaims@[k]]
            0 <= k < n && self.reclaims_at(i, s, j)(k) implies {
            let row = self.result.reclaims@[k];
            &&& Some(row.unit) == next
            &&& match held_under(self.drawn(units, i, s, j, k as nat), Pair(row.stockpile, row.unit)) {
                Some(balance) => !balance.minus(row.tonnes_t).below(self.tolerance_spec().opposite()),
                None => false,
            }
        } by {
            assert(!wrong(k));
            nothing_in_parts(n, self.draw_issues(units, i, s, j), k);
            assert(self.draw_issues(units, i, s, j)(k) == self.draw_issue(
                self.drawn(units, i, s, j, k as nat),
                self.result.reclaims@[k],
            ));
        }
        assert forall|e: int|
            #![trigger after.piles[e]]
            0 <= e < after.piles.len() implies {
            let (pile, inventory) = after.piles[e];
            &&& !inventory.below(self.tolerance_spec().plus(self.dust_spec()).opposite())
            &&& !self.capacity_of(pile).plus(self.tolerance_spec()).plus(self.dust_spec()).below(inventory)
        } by {
            nothing_in_parts(after.piles.len(), self.outside(after.piles, i, s), e);
        }
        assert(flat(self.result.parcels@.len(), self.parcels_of()).len() == 0);
        assert forall|p: int|
            #![trigger self.parcel(p)]
            0 <= p < self.result.parcels@.len() implies self.parcel(p).release_interval == self.parcel(
            p,
        ).receipt_interval + 1 by {
            nothing_in_parts(self.result.parcels@.len(), self.parcels_of(), p);
        }
    }
}

} // verus!
