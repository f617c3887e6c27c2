//! What a replay asks of the totals of a solution, told of its rows alone.
use vstd::prelude::*;

use crate::ledger::{amount, Pair};
use crate::listing::{folded, sum_to};
use crate::optimisation::audit::limits::same_sum;
use crate::optimisation::blended::input::{authorises, rate_of};
use crate::optimisation::blended::report::ReplayState;
use crate::optimisation::blended::totals::{unit_value, Replay};
use crate::optimisation::ids::{Activity, GroundId, SourceId, StockpileId};
use crate::optimisation::input::{in_window, value_to, CashflowContribution, IntervalRate, MovementCandidate, TaskKind};
use crate::optimisation::points::summed;
use crate::scalar::{size, Fixed, Scalar};

verus! {

/// What each contribution adds to the worth of a tonne.
pub open spec fn worth_of(cashflow: Seq<CashflowContribution<Fixed>>) -> spec_fn(int) -> int {
    |k: int| cashflow[k].value_per_tonne.0 as int
}

/// How much each contribution may add, whatever its sign.
pub open spec fn worth_size(cashflow: Seq<CashflowContribution<Fixed>>) -> spec_fn(int) -> int {
    |k: int| size(cashflow[k].value_per_tonne.0 as int)
}

proof fn values_sum(cashflow: Seq<CashflowContribution<Fixed>>, n: nat)
    requires
        n <= cashflow.len(),
        summed(n, worth_size(cashflow)) < i64::MAX,
    ensures
        value_to(cashflow, n) == Some(Fixed(summed(n, worth_of(cashflow)) as i64)),
        size(summed(n, worth_of(cashflow))) <= summed(n, worth_size(cashflow)),
    decreases n,
{
    if n > 0 {
        values_sum(cashflow, (n - 1) as nat);
    }
}

/// A tonne of a movement is worth what its contributions add up to.
pub proof fn value_is_the_sum(candidate: MovementCandidate<Fixed>)
    requires
        summed(candidate.cashflow@.len(), worth_size(candidate.cashflow@)) < i64::MAX,
    ensures
        unit_value(candidate).0 == summed(candidate.cashflow@.len(), worth_of(candidate.cashflow@)),
{
    values_sum(candidate.cashflow@, candidate.cashflow@.len());
}

impl<'a, N: Scalar> Replay<'a, N> {
    /// The route that row `m` takes.
    pub open spec fn route(self, m: int) -> MovementCandidate<N> {
        self.input.movements@[self.solution.movements@[m].candidate as int]
    }

    /// Row `m` takes a route that there is.
    pub open spec fn has_route(self, m: int) -> bool {
        self.solution.movements@[m].candidate < self.input.movements@.len()
    }

    /// What each row moves, of those that are chosen.
    pub open spec fn tonnes_where(self, chosen: spec_fn(int) -> bool) -> spec_fn(int) -> Option<N> {
        |m: int|
            if self.has_route(m) && chosen(m) {
                Some(self.solution.movements@[m].tonnes_t)
            } else {
                None
            }
    }

    /// What the chosen rows move in all.
    pub open spec fn total_where(self, chosen: spec_fn(int) -> bool) -> N {
        sum_to(self.solution.movements@.len(), self.tonnes_where(chosen))
    }

    /// Something is within a limit, to a hundred-thousandth.
    pub open spec fn fits(self, used: N, limit: N) -> bool {
        !limit.plus(N::of_decimal(1, 5)).below(used)
    }

    // Rows.

    /// A replay accepts the tonnes of a row exactly where they are not below
    /// zero, to a hundred-thousandth, and counts the value of a row that takes a
    /// route that there is: its tonnes times what a tonne of the route is worth.
    pub proof fn rows_are_replayed(self, st: ReplayState<N>, m: int)
        ensures
            self.negative_step()(st, m).issues.len() == st.issues.len()
                <==> !self.solution.movements@[m].tonnes_t.below(N::of_decimal(1, 5).opposite()),
            self.value_step()(st, m).issues.len() == st.issues.len() <==> self.has_route(m),
            self.has_route(m) ==> self.value_step()(st, m).objective == st.objective.plus(
                self.solution.movements@[m].tonnes_t.times(unit_value(self.route(m))),
            ),
    {
    }

    // Blocks.

    pub open spec fn of_block(self, ground: GroundId) -> spec_fn(int) -> bool {
        |m: int| self.route(m).activity is Dig && self.route(m).source == SourceId::Ground(ground)
    }

    /// A replay accepts what is dug of a block exactly where it is no more than
    /// the block.
    pub proof fn blocks_are_replayed(self, st: ReplayState<N>, g: int)
        requires
            0 <= g < self.input.ground@.len(),
        ensures
            self.ground_step()(st, g).issues.len() == st.issues.len() <==> self.fits(
                self.total_where(self.of_block(self.input.ground@[g].id)),
                self.input.ground@[g].tonnes_t,
            ),
    {
        same_sum(
            self.solution.movements@.len(),
            self.dug(g),
            self.tonnes_where(self.of_block(self.input.ground@[g].id)),
        );
    }

    /// Rows that dig a block in the cell of row `cell`.
    pub open spec fn of_block_with(self, ground: GroundId, cell: int) -> spec_fn(int) -> bool {
        |m: int|
            self.route(m).activity is Dig && self.route(m).source == SourceId::Ground(ground)
                && self.solution.movements@[m].interval == self.solution.movements@[cell].interval
                && self.solution.movements@[m].segment == self.solution.movements@[cell].segment
    }

    /// Rows that dig one material of a block in the cell of row `cell`.
    pub open spec fn of_share_with(self, g: int, k: int, cell: int) -> spec_fn(int) -> bool {
        |m: int|
            self.route(m).activity is Dig && self.route(m).source == SourceId::Ground(self.input.ground@[g].id)
                && self.solution.movements@[m].interval == self.solution.movements@[cell].interval
                && self.solution.movements@[m].segment == self.solution.movements@[cell].segment
                && self.route(m).material == self.input.ground@[g].material@[k].material
    }

    /// A replay accepts what is dug of a material in a cell exactly where it is
    /// its fraction of what is dug of the block there.
    pub proof fn shares_are_replayed(self, st: ReplayState<N>, g: int, k: int, cell: int)
        requires
            0 <= g < self.input.ground@.len(),
            0 <= k < self.input.ground@[g].material@.len(),
        ensures
            self.share_step(g, cell)(st, k).issues.len() == st.issues.len() <==> !N::of_decimal(1, 5).below(
                self.total_where(self.of_share_with(g, k, cell)).minus(
                    self.input.ground@[g].material@[k].fraction.times(
                        self.total_where(self.of_block_with(self.input.ground@[g].id, cell)),
                    ),
                ).magnitude(),
            ),
    {
        let n = self.solution.movements@.len();
        let material = self.input.ground@[g].material@[k].material;
        same_sum(n, self.dug_in(g, cell), self.tonnes_where(self.of_block_with(self.input.ground@[g].id, cell)));
        same_sum(n, self.dug_of(g, cell, material), self.tonnes_where(self.of_share_with(g, k, cell)));
    }

    // Loaders and trucks.

    /// Rows of a loader's digging, or reclaiming, in a segment.
    pub open spec fn of_loader(self, i: int, s: int, l: int, activity: Activity) -> spec_fn(int) -> bool {
        |m: int|
            self.solution.movements@[m].interval == self.input.intervals@[i].index && self.solution.movements@[m].segment
                == s && self.route(m).loader == self.input.loaders@[l].id && self.route(m).activity == activity
    }

    /// How long a segment is, by the solution.
    pub open spec fn time_of(self, i: int, s: int) -> N {
        amount(self.solution.durations@, Pair(self.input.intervals@[i].index, s as usize))
    }

    /// A replay accepts what a loader with rates does in a segment exactly where
    /// it digs and reclaims no more than its rates times the length of the
    /// segment.
    pub proof fn loaders_are_replayed(self, st: ReplayState<N>, i: int, s: int, l: int, rate: IntervalRate<N>)
        requires
            0 <= l < self.input.loaders@.len(),
            0 <= i < self.input.intervals@.len(),
            rate_of(self.input.loaders@[l], self.input.intervals@[i].index) == Some(rate),
        ensures
            self.loader_step(i, s)(st, l).issues.len() == st.issues.len() <==> {
                &&& self.fits(
                    self.total_where(self.of_loader(i, s, l, Activity::Dig)),
                    rate.dig_tph.times(self.time_of(i, s)),
                )
                &&& self.fits(
                    self.total_where(self.of_loader(i, s, l, Activity::Reclaim)),
                    rate.reclaim_tph.times(self.time_of(i, s)),
                )
            },
    {
        let n = self.solution.movements@.len();
        same_sum(
            n,
            self.loaded(i, s, l, Activity::Dig),
            self.tonnes_where(self.of_loader(i, s, l, Activity::Dig)),
        );
        same_sum(
            n,
            self.loaded(i, s, l, Activity::Reclaim),
            self.tonnes_where(self.of_loader(i, s, l, Activity::Reclaim)),
        );
    }

    /// The hours of a truck class that each row takes in a segment.
    pub open spec fn hours_of_class(self, i: int, s: int, t: int) -> spec_fn(int) -> Option<N> {
        |m: int|
            if self.has_route(m) && self.solution.movements@[m].interval == self.input.intervals@[i].index
                && self.solution.movements@[m].segment == s && self.route(m).truck == self.input.trucks@[t].id {
                Some(self.solution.movements@[m].tonnes_t.times(self.route(m).truck_hours_per_tonne))
            } else {
                None
            }
    }

    /// A replay accepts the hours of a truck class in a segment exactly where
    /// they are no more than the class's hours over the length of the interval,
    /// times the length of the segment.
    pub proof fn trucks_are_replayed(self, st: ReplayState<N>, i: int, s: int, t: int)
        requires
            0 <= t < self.input.trucks@.len(),
            0 <= i < self.input.intervals@.len(),
            self.input.intervals@[i].index < self.input.trucks@[t].hours@.len(),
            !self.input.intervals@[i].end_h.minus(self.input.intervals@[i].start_h).at_most(N::of_whole(0)),
        ensures
            self.truck_step(i, s)(st, t).issues.len() == st.issues.len() <==> self.fits(
                sum_to(self.solution.movements@.len(), self.hours_of_class(i, s, t)),
                self.input.trucks@[t].hours@[self.input.intervals@[i].index as int].over(
                    self.input.intervals@[i].end_h.minus(self.input.intervals@[i].start_h),
                ).times(self.time_of(i, s)),
            ),
    {
        same_sum(self.solution.movements@.len(), self.trucked(i, s, t), self.hours_of_class(i, s, t));
    }

    // Destinations.

    pub open spec fn ends_at(self, d: int) -> spec_fn(int) -> bool {
        |m: int| self.route(m).destination == self.input.destinations@[d].id
    }

    /// Rows that end at a destination in an interval that starts on a day.
    pub open spec fn ends_on(self, d: int, day: int) -> spec_fn(int) -> bool {
        |m: int|
            self.route(m).destination == self.input.destinations@[d].id && self.solution.movements@[m].interval
                < self.input.intervals@.len()
                && self.input.intervals@[self.solution.movements@[m].interval as int].start_h.over(
                N::of_whole(24),
            ).floored() == day
    }

    /// A replay accepts what ends at a crusher on a day exactly where it is no
    /// more than the day's limit, and what ends at any other destination exactly
    /// where it is no more than its capacity.
    pub proof fn destinations_are_replayed(self, st: ReplayState<N>, d: int, day: int, limit: N)
        requires
            0 <= d < self.input.destinations@.len(),
        ensures
            0 <= day < self.input.destinations@[d].crusher_daily_t@.len()
                && self.input.destinations@[d].crusher_daily_t@[day] == Some(limit) ==> (self.day_step(d)(
                st,
                day,
            ).issues.len() == st.issues.len() <==> self.fits(self.total_where(self.ends_on(d, day)), limit)),
            !(self.input.destinations@[d].kind is Crusher) && self.input.destinations@[d].capacity_t == Some(limit) ==> (
            self.destination_step()(st, d).issues.len() == st.issues.len() <==> self.fits(
                self.total_where(self.ends_at(d)),
                limit,
            )),
    {
        let n = self.solution.movements@.len();
        same_sum(n, self.delivered(d), self.tonnes_where(self.ends_at(d)));
        same_sum(n, self.delivered_on(d, day), self.tonnes_where(self.ends_on(d, day)));
    }

    // Tasks.

    /// Rows that reclaim for a task: by its loader, from a pile that it approves
    /// of.
    pub open spec fn reclaims_for(self, t: int, approved: Seq<StockpileId>) -> spec_fn(int) -> bool {
        |m: int|
            self.route(m).loader == self.input.tasks@[t].loader && self.route(m).activity is Reclaim && exists|k: int|
                0 <= k < approved.len() && self.route(m).source == SourceId::Stockpile(#[trigger] approved[k])
    }

    /// A replay accepts what is reclaimed for a task with a maximum exactly where
    /// it is no more than that.
    pub proof fn maxima_are_replayed(self, st: ReplayState<N>, t: int, approved: Vec<StockpileId>, maximum: N)
        requires
            0 <= t < self.input.tasks@.len(),
            self.input.tasks@[t].kind == (TaskKind::Reclaim { approved_sources: approved, maximum_t: Some(maximum) }),
        ensures
            self.cap_step()(st, t).issues.len() == st.issues.len() <==> self.fits(
                self.total_where(self.reclaims_for(t, approved@)),
                maximum,
            ),
    {
        assert forall|m: int| #[trigger] self.capped(t)(m) == self.tonnes_where(self.reclaims_for(t, approved@))(m) by {
            if let SourceId::Stockpile(pile) = self.route(m).source {
                assert(approved@.contains(pile) <==> exists|k: int|
                    0 <= k < approved@.len() && self.route(m).source == SourceId::Stockpile(#[trigger] approved@[k]));
            }
        }
        same_sum(
            self.solution.movements@.len(),
            self.capped(t),
            self.tonnes_where(self.reclaims_for(t, approved@)),
        );
    }

    /// A task whose window holds an interval lets its loader take a route: to
    /// dig a block of its sequence, or to reclaim from a pile that it approves
    /// of.
    pub open spec fn lets(self, t: int, route: MovementCandidate<N>, i: int) -> bool {
        let task = self.input.tasks@[t];
        let interval = self.input.intervals@[i];
        &&& 0 <= t < self.input.tasks@.len()
        &&& task.window_start_h.at_most(interval.start_h.plus(N::of_decimal(1, 9)))
        &&& interval.end_h.minus(N::of_decimal(1, 9)).at_most(task.window_end_h)
        &&& task.loader == route.loader
        &&& match task.kind {
            TaskKind::Dig { sequence } => route.activity is Dig && exists|k: int|
                0 <= k < sequence@.len() && route.source == SourceId::Ground(#[trigger] sequence@[k]),
            TaskKind::Reclaim { approved_sources, .. } => route.activity is Reclaim && exists|k: int|
                0 <= k < approved_sources@.len() && route.source == SourceId::Stockpile(#[trigger] approved_sources@[k]),
        }
    }

    /// A replay accepts a row that moves anything exactly where some task lets
    /// the route be taken in its interval.
    pub proof fn windows_are_replayed(self, st: ReplayState<N>, m: int)
        requires
            self.has_route(m),
            self.solution.movements@[m].interval < self.input.intervals@.len(),
            !self.solution.movements@[m].tonnes_t.at_most(N::of_decimal(1, 5)),
        ensures
            self.window_step()(st, m).issues.len() == st.issues.len() <==> exists|t: int| #[trigger]
                self.lets(t, self.route(m), self.solution.movements@[m].interval as int),
    {
        let i = self.solution.movements@[m].interval as int;
        let route = self.route(m);
        assert forall|t: int| 0 <= t < self.input.tasks@.len() implies #[trigger] self.lets(t, route, i) == (
        in_window(self.input.tasks@[t], self.input.intervals@[i])
            && authorises(self.input.tasks@[t], route)) by {
            match (self.input.tasks@[t].kind, route.source) {
                (TaskKind::Dig { sequence }, SourceId::Ground(ground)) => {
                    assert(sequence@.contains(ground) <==> exists|k: int|
                        0 <= k < sequence@.len() && route.source == SourceId::Ground(#[trigger] sequence@[k]));
                },
                (TaskKind::Reclaim { approved_sources, .. }, SourceId::Stockpile(pile)) => {
                    assert(approved_sources@.contains(pile) <==> exists|k: int|
                        0 <= k < approved_sources@.len() && route.source == SourceId::Stockpile(
                            #[trigger] approved_sources@[k],
                        ));
                },
                _ => {},
            }
        }
        if self.authorised(m) {
            let t = choose|t: int|
                0 <= t < self.input.tasks@.len() && in_window(
                    #[trigger] self.input.tasks@[t],
                    self.input.intervals@[i],
                ) && authorises(self.input.tasks@[t], route);
            assert(self.lets(t, route, i));
        }
        if exists|t: int| #[trigger] self.lets(t, route, i) {
            let t = choose|t: int| #[trigger] self.lets(t, route, i);
            assert(self.input.tasks@[t] == self.input.tasks@[t]);
        }
    }

    /// What each segment of an interval lasts.
    pub open spec fn times_of(self, i: int) -> spec_fn(int) -> Option<N> {
        |s: int| Some(self.time_of(i, s))
    }

    /// A replay accepts the lengths of an interval's segments exactly where they
    /// add up to the interval.
    pub proof fn clocks_are_replayed(self, st: ReplayState<N>, i: int)
        requires
            0 <= i < self.input.intervals@.len(),
            self.segment_steps(st, i).issues.len() == st.issues.len(),
        ensures
            self.interval_step()(st, i).issues.len() == st.issues.len() <==> !N::of_decimal(1, 5).below(
                sum_to(
                    (if self.input.segments_per_interval < 1 {
                        1
                    } else {
                        self.input.segments_per_interval as nat
                    }),
                    self.times_of(i),
                ).minus(self.input.intervals@[i].end_h.minus(self.input.intervals@[i].start_h)).magnitude(),
            ),
    {
        same_sum(self.segments_spec(), self.clock(i), self.times_of(i));
    }

    /// The books after the segments of an interval.
    pub open spec fn segment_steps(self, st: ReplayState<N>, i: int) -> ReplayState<N> {
        folded(
            (if self.input.segments_per_interval < 1 {
                1
            } else {
                self.input.segments_per_interval as nat
            }),
            st,
            self.segment_step(i),
        )
    }
}

} // verus!
