//! What an audit asks of the totals of a result, told of its rows alone.
use vstd::prelude::*;

use crate::listing::{count_to, flat, keyed_from, sum_to};
use crate::optimisation::audit::totals::{list_value, worth_part, Audit};
use crate::optimisation::ids::{Activity, SourceId};
use crate::optimisation::input::TaskKind;
use crate::scalar::Scalar;

verus! {

/// Nothing is listed in all exactly where nothing is listed at any place.
pub proof fn nothing_anywhere<A>(n: nat, f: spec_fn(int) -> Seq<A>)
    ensures
        flat(n, f).len() == 0 <==> forall|i: int| 0 <= i < n ==> (#[trigger] f(i)).len() == 0,
    decreases n,
{
    if n > 0 {
        nothing_anywhere((n - 1) as nat, f);
    }
}

/// Sums of the same values are the same.
pub proof fn same_sum<N: Scalar>(n: nat, f: spec_fn(int) -> Option<N>, g: spec_fn(int) -> Option<N>)
    requires
        forall|k: int| 0 <= k < n ==> #[trigger] f(k) == g(k),
    ensures
        sum_to(n, f) == sum_to(n, g),
    decreases n,
{
    if n > 0 {
        same_sum((n - 1) as nat, f, g);
    }
}

/// As many are chosen as are chosen.
pub proof fn same_count(n: nat, f: spec_fn(int) -> bool, g: spec_fn(int) -> bool)
    requires
        forall|k: int| 0 <= k < n ==> #[trigger] f(k) == g(k),
    ensures
        count_to(n, f) == count_to(n, g),
    decreases n,
{
    if n > 0 {
        same_count((n - 1) as nat, f, g);
    }
}

/// No more than one index is chosen exactly where any two that are chosen are
/// one.
pub proof fn at_most_one(n: nat, f: spec_fn(int) -> bool)
    ensures
        count_to(n, f) == 0 <==> forall|k: int| 0 <= k < n ==> !#[trigger] f(k),
        count_to(n, f) <= 1 <==> forall|a: int, b: int|
            0 <= a < n && 0 <= b < n && #[trigger] f(a) && #[trigger] f(b) ==> a == b,
    decreases n,
{
    if n > 0 {
        let m = (n - 1) as nat;
        at_most_one(m, f);
        if f(m as int) {
            if count_to(m, f) > 0 {
                let k = choose|k: int| 0 <= k < m && #[trigger] f(k);
                assert(f(k) && f(m as int));
            }
        }
    }
}

impl<'a, N: Scalar> Audit<'a, N> {
    /// A result has no issues exactly where its totals, its walk, its parcels,
    /// its receipts and its objective have none.
    pub proof fn issues_in_parts(self)
        ensures
            self.issues().len() == 0 <==> {
                &&& self.total_issues().len() == 0
                &&& self.walk_issues().len() == 0
                &&& flat(self.result.parcels@.len(), self.parcels_of()).len() == 0
                &&& flat(self.receipts().len(), self.receipts_of()).len() == 0
                &&& self.objective_issues().len() == 0
            },
            self.total_issues().len() == 0 <==> {
                &&& self.all_finite()
                &&& flat(self.input.intervals@.len(), self.durations_at()).len() == 0
                &&& flat(self.input.loaders@.len(), self.rates_of()).len() == 0
                &&& flat(self.input.trucks@.len(), self.trucks_of()).len() == 0
                &&& flat(self.input.destinations@.len(), self.crushers_of()).len() == 0
                &&& flat(self.input.destinations@.len(), self.dumps_of()).len() == 0
                &&& flat(self.result.movements@.len(), self.values_of()).len() == 0
                &&& flat(self.input.ground@.len(), self.ground_of()).len() == 0
                &&& flat(self.input.tasks@.len(), self.maxima_of()).len() == 0
            },
    {
    }

    /// So many segments has interval `i`, by the result.
    pub open spec fn segment_count(self, i: int) -> nat {
        if self.input.intervals@[i].index < self.result.resolution.segment_counts@.len() {
            self.result.resolution.segment_counts@[self.input.intervals@[i].index as int] as nat
        } else {
            0
        }
    }

    /// So long is segment `s` of interval `i`, by the result.
    pub open spec fn published_length(self, i: int, s: int) -> N {
        let lengths = self.result.segment_durations_h@[self.input.intervals@[i].index as int]@;
        if s < lengths.len() {
            lengths[s]
        } else {
            N::of_whole(0)
        }
    }

    /// What rounding may add up to over so many rows: the tolerance, and for
    /// each row three grains.
    pub open spec fn rounding(self, rows: nat) -> N {
        self.input.horizon.tolerances.tonnes_t.plus(N::of_whole(3).times(self.grain()).times(N::of_whole(rows as u64)))
    }

    // Lengths.

    /// What each length of a list adds.
    pub open spec fn lengths(self, index: int) -> spec_fn(int) -> Option<N> {
        |k: int| Some(self.result.segment_durations_h@[index]@[k])
    }

    /// The audit accepts the lengths of an interval's segments exactly where
    /// there are as many as the interval has segments, none is outside of it and
    /// together they fill it, to a millionth of an hour.
    pub proof fn lengths_are_audited(self, i: int)
        requires
            0 <= i < self.input.intervals@.len(),
        ensures
            self.durations_at()(i).len() == 0 <==> {
                let interval = self.input.intervals@[i];
                let index = interval.index as int;
                let tolerance = self.input.horizon.tolerances.tonnes_t;
                let length = interval.end_h.minus(interval.start_h);
                &&& index < self.result.segment_durations_h@.len()
                &&& self.result.segment_durations_h@[index]@.len() == self.segment_count(i)
                &&& forall|k: int|
                    0 <= k < self.result.segment_durations_h@[index]@.len() ==> !(
                    #[trigger] self.result.segment_durations_h@[index]@[k]).below(tolerance.opposite()) && !length.plus(
                        tolerance,
                    ).below(self.result.segment_durations_h@[index]@[k])
                &&& !N::of_decimal(1, 6).below(
                    sum_to(self.result.segment_durations_h@[index]@.len(), self.lengths(index)).minus(
                        length,
                    ).magnitude(),
                )
            },
    {
        let interval = self.input.intervals@[i];
        let index = interval.index as int;
        if index < self.result.segment_durations_h@.len() {
            let lengths = self.result.segment_durations_h@[index]@;
            same_sum(lengths.len(), list_value(lengths), self.lengths(index));
        }
    }

    // Rates.

    /// Row `k` of the activities is of loader `l` in segment `s` of interval `i`.
    pub open spec fn works_at(self, l: int, i: int, s: int) -> spec_fn(int) -> bool {
        |k: int|
            self.result.activities@[k].loader == self.input.loaders@[l].id && self.result.activities@[k].interval
                == self.input.intervals@[i].index && self.result.activities@[k].segment == s
    }

    /// What each row gives to what a loader digs, or reclaims, in a segment.
    pub open spec fn works_off(self, l: int, i: int, s: int, activity: Activity) -> spec_fn(int) -> Option<N> {
        |k: int|
            if self.result.activities@[k].loader == self.input.loaders@[l].id && self.result.activities@[k].interval
                == self.input.intervals@[i].index && self.result.activities@[k].segment == s
                && self.result.activities@[k].activity == activity {
                Some(self.result.activities@[k].tonnes_t)
            } else {
                None
            }
    }

    /// The audit accepts what a loader does in a segment exactly where all its
    /// rows there are of one task and one source, and neither what it digs nor
    /// what it reclaims exceeds its rate times the length of the segment by more
    /// than rounding.
    pub proof fn rates_are_audited(self, l: int, i: int, s: int)
        requires
            0 <= l < self.input.loaders@.len(),
            0 <= i < self.input.intervals@.len(),
        ensures
            self.rates_at(l, i)(s).len() == 0 <==> {
                let n = self.result.activities@.len();
                let rate = self.input.loaders@[l].rates@[self.input.intervals@[i].index as int];
                let time = self.published_length(i, s);
                let slack = self.rounding(count_to(n, self.works_at(l, i, s)));
                &&& forall|a: int, b: int|
                    #![trigger self.works_at(l, i, s)(a), self.works_at(l, i, s)(b)]
                    0 <= a < n && 0 <= b < n && self.works_at(l, i, s)(a) && self.works_at(l, i, s)(b)
                        ==> self.result.activities@[a].task == self.result.activities@[b].task
                        && self.result.activities@[a].source == self.result.activities@[b].source
                &&& !slack.below(
                    sum_to(n, self.works_off(l, i, s, Activity::Dig)).minus(rate.dig_tph.times(time)),
                )
                &&& !slack.below(
                    sum_to(n, self.works_off(l, i, s, Activity::Reclaim)).minus(rate.reclaim_tph.times(time)),
                )
            },
    {
        let n = self.result.activities@.len();
        let here = self.works_at(l, i, s);
        same_count(n, self.rows_at(l, i, s), here);
        same_sum(n, self.worked_tonnes(l, i, s, Activity::Dig), self.works_off(l, i, s, Activity::Dig));
        same_sum(n, self.worked_tonnes(l, i, s, Activity::Reclaim), self.works_off(l, i, s, Activity::Reclaim));
        assert(self.grain() == self.dust_spec());
        let fresh = self.fresh_rows(l, i, s);
        let rows = self.rows_at(l, i, s);
        at_most_one(n, fresh);
        let same = |a: int, b: int|
            self.result.activities@[a].task == self.result.activities@[b].task && self.result.activities@[a].source
                == self.result.activities@[b].source;
        if count_to(n, fresh) <= 1 {
            assert forall|a: int, b: int|
                #![trigger here(a), here(b)]
                0 <= a < n && 0 <= b < n && here(a) && here(b) implies same(a, b) by {
                let x = self.first_alike(l, i, s, a);
                let y = self.first_alike(l, i, s, b);
                assert(fresh(x) && fresh(y));
            }
        } else {
            let (a, b) = choose|a: int, b: int|
                0 <= a < n && 0 <= b < n && #[trigger] fresh(a) && #[trigger] fresh(b) && a != b;
            assert(here(a) && here(b));
            assert(rows(a) && rows(b));
            assert(!same(a, b));
        }
    }

    /// The first row that is of the same task and source.
    proof fn first_alike(self, l: int, i: int, s: int, k: int) -> (r: int)
        requires
            0 <= k,
            self.rows_at(l, i, s)(k),
        ensures
            0 <= r <= k,
            self.fresh_rows(l, i, s)(r),
            self.result.activities@[r].task == self.result.activities@[k].task,
            self.result.activities@[r].source == self.result.activities@[k].source,
        decreases k,
    {
        if self.fresh_rows(l, i, s)(k) {
            k
        } else {
            let j = choose|j: int|
                0 <= j < k && #[trigger] self.rows_at(l, i, s)(j) && self.result.activities@[j].task
                    == self.result.activities@[k].task && self.result.activities@[j].source
                    == self.result.activities@[k].source;
            self.first_alike(l, i, s, j)
        }
    }

    // Trucks.

    /// What each movement takes of a truck class's hours in a segment.
    pub open spec fn hours_taken(self, t: int, i: int, s: int) -> spec_fn(int) -> Option<N> {
        |m: int|
            if self.result.movements@[m].interval == self.input.intervals@[i].index && self.result.movements@[m].segment
                == s && self.result.movements@[m].truck == self.input.trucks@[t].id {
                Some(self.result.movements@[m].truck_hours)
            } else {
                None
            }
    }

    /// The audit accepts the hours of a truck class in a segment exactly where
    /// they exceed the class's hours over the length of the interval, times the
    /// length of the segment, by no more than a grain.
    pub proof fn trucks_are_audited(self, t: int, i: int, s: int)
        requires
            0 <= t < self.input.trucks@.len(),
            0 <= i < self.input.intervals@.len(),
        ensures
            self.trucks_at(t, i)(s).len() == 0 <==> !self.input.horizon.tolerances.tonnes_t.upper(self.grain()).below(
                sum_to(self.result.movements@.len(), self.hours_taken(t, i, s)).minus(
                    self.input.trucks@[t].hours@[self.input.intervals@[i].index as int].over(
                        self.input.intervals@[i].end_h.minus(self.input.intervals@[i].start_h),
                    ).times(self.published_length(i, s)),
                ),
            ),
    {
        same_sum(self.result.movements@.len(), self.truck_used(t, i, s), self.hours_taken(t, i, s));
    }

    // Destinations.

    /// What each movement brings to a destination in intervals that start on a
    /// day.
    pub open spec fn brought_on(self, d: int, day: int) -> spec_fn(int) -> Option<N> {
        |m: int|
            if self.result.movements@[m].destination == self.input.destinations@[d].id
                && self.input.intervals@[self.result.movements@[m].interval as int].start_h.over(
                N::of_whole(24),
            ).floored() == day {
                Some(self.result.movements@[m].tonnes_t)
            } else {
                None
            }
    }

    /// What each movement brings to a destination.
    pub open spec fn brought_to(self, d: int) -> spec_fn(int) -> Option<N> {
        |m: int|
            if self.result.movements@[m].destination == self.input.destinations@[d].id {
                Some(self.result.movements@[m].tonnes_t)
            } else {
                None
            }
    }

    /// So many days does the horizon reach into, and at least one.
    pub open spec fn days(self) -> nat {
        let days = self.input.horizon.end_h.over(N::of_whole(24)).raised();
        if days < 1 {
            1
        } else {
            days as nat
        }
    }

    /// The audit accepts what a destination is brought exactly where a crusher is
    /// brought no more on any day of the horizon than the day's limit and the
    /// tolerance, and a dump no more in all than its capacity and the tolerance.
    pub proof fn destinations_are_audited(self, d: int)
        requires
            0 <= d < self.input.destinations@.len(),
        ensures
            self.crushers_of()(d).len() == 0 <==> (self.input.destinations@[d].kind is Crusher ==> forall|day: int|
                #![trigger self.brought_on(d, day)]
                0 <= day < self.days() && day < self.input.destinations@[d].crusher_daily_t@.len() ==> (
                self.input.destinations@[d].crusher_daily_t@[day] matches Some(limit)
                    ==> !self.input.horizon.tolerances.tonnes_t.below(
                    sum_to(self.result.movements@.len(), self.brought_on(d, day)).minus(limit),
                ))),
            self.dumps_of()(d).len() == 0 <==> (self.input.destinations@[d].kind is Dump ==> (
            self.input.destinations@[d].capacity_t matches Some(capacity)
                ==> !self.input.horizon.tolerances.tonnes_t.below(
                sum_to(self.result.movements@.len(), self.brought_to(d)).minus(capacity),
            ))),
    {
        let n = self.result.movements@.len();
        same_sum(n, self.received_by(d), self.brought_to(d));
        if self.input.destinations@[d].kind is Crusher {
            let days = self.days();
            nothing_anywhere(days, self.crusher_day(d));
            assert forall|day: int| 0 <= day < days implies (#[trigger] self.crusher_day(d)(day)).len() == 0 <==> (day
                < self.input.destinations@[d].crusher_daily_t@.len() ==> (
            self.input.destinations@[d].crusher_daily_t@[day] matches Some(limit)
                ==> !self.input.horizon.tolerances.tonnes_t.below(
                sum_to(n, self.brought_on(d, day)).minus(limit),
            ))) by {
                same_sum(n, self.crushed_on(d, day), self.brought_on(d, day));
            }
            if self.crushers_of()(d).len() == 0 {
                assert forall|day: int|
                    #![trigger self.brought_on(d, day)]
                    0 <= day < days && day < self.input.destinations@[d].crusher_daily_t@.len() implies (
                self.input.destinations@[d].crusher_daily_t@[day] matches Some(limit)
                    ==> !self.input.horizon.tolerances.tonnes_t.below(
                    sum_to(n, self.brought_on(d, day)).minus(limit),
                )) by {
                    assert(self.crusher_day(d)(day).len() == 0);
                }
            }
        }
    }

    // Values.

    /// What each contribution adds to the worth of a tonne of a movement.
    pub open spec fn contribution(self, m: int) -> spec_fn(int) -> Option<N> {
        |k: int| Some(self.result.movements@[m].cashflow@[k].value_per_tonne)
    }

    /// The audit accepts the value of a movement exactly where it is its tonnes
    /// times the sum of its contributions, to within the tolerances.
    pub proof fn values_are_audited(self, m: int)
        requires
            0 <= m < self.result.movements@.len(),
        ensures
            self.values_of()(m).len() == 0 <==> {
                let row = self.result.movements@[m];
                let tolerances = self.input.horizon.tolerances;
                let value = row.tonnes_t.times(sum_to(row.cashflow@.len(), self.contribution(m)));
                !tolerances.objective.upper(tolerances.tonnes_t.times(value.magnitude())).below(
                    row.value.minus(value).magnitude(),
                )
            },
    {
        let row = self.result.movements@[m];
        same_sum(
            row.cashflow@.len(),
            worth_part(row),
            self.contribution(m),
        );
    }

    // Ground.

    /// What each activity digs of a block.
    pub open spec fn digs_of(self, g: int) -> spec_fn(int) -> Option<N> {
        |k: int|
            if self.result.activities@[k].activity is Dig && self.result.activities@[k].source == SourceId::Ground(
                self.input.ground@[g].id,
            ) {
                Some(self.result.activities@[k].tonnes_t)
            } else {
                None
            }
    }

    /// Row `k` of the activities digs a block.
    pub open spec fn is_dig_of(self, g: int) -> spec_fn(int) -> bool {
        |k: int|
            self.result.activities@[k].activity is Dig && self.result.activities@[k].source == SourceId::Ground(
                self.input.ground@[g].id,
            )
    }

    /// What each movement takes of one material from a block.
    pub open spec fn moves_of(self, g: int, k: int) -> spec_fn(int) -> Option<N> {
        |m: int|
            if self.result.movements@[m].source == SourceId::Ground(self.input.ground@[g].id)
                && self.result.movements@[m].material == self.input.ground@[g].material@[k].material {
                Some(self.result.movements@[m].tonnes_t)
            } else {
                None
            }
    }

    /// What is moved of a material is its fraction of what is dug of the block.
    pub open spec fn blend_kept(self, g: int, k: int) -> bool {
        let tolerance = self.input.horizon.tolerances.tonnes_t;
        let rows = count_to(self.result.activities@.len(), self.is_dig_of(g));
        let due = sum_to(self.result.activities@.len(), self.digs_of(g)).times(self.input.ground@[g].material@[k].fraction);
        let slack = tolerance.upper(due.magnitude().times(tolerance)).upper(
            N::of_whole(3).times(self.grain()).times(N::of_whole(rows as u64)),
        );
        !slack.below(sum_to(self.result.movements@.len(), self.moves_of(g, k)).minus(due).magnitude())
    }

    /// The audit accepts what is dug of a block exactly where it is no more than
    /// the block and the tolerance, and each material of it that is moved is its
    /// fraction of what is dug.
    pub proof fn blocks_are_audited(self, g: int)
        requires
            0 <= g < self.input.ground@.len(),
        ensures
            self.ground_of()(g).len() == 0 <==> {
                &&& !self.input.horizon.tolerances.tonnes_t.below(
                    sum_to(self.result.activities@.len(), self.digs_of(g)).minus(self.input.ground@[g].tonnes_t),
                )
                &&& forall|k: int| 0 <= k < self.input.ground@[g].material@.len() ==> #[trigger] self.blend_kept(g, k)
            },
    {
        let n = self.result.activities@.len();
        let ground = self.input.ground@[g];
        same_sum(n, self.dug_tonnes(ground.id), self.digs_of(g));
        same_count(n, self.dug_from(ground.id), self.is_dig_of(g));
        nothing_anywhere(ground.material@.len(), self.shares_of(g));
        assert(self.grain() == self.dust_spec());
        assert forall|k: int| 0 <= k < ground.material@.len() implies (#[trigger] self.shares_of(g)(k)).len() == 0
            <==> self.blend_kept(g, k) by {
            same_sum(
                self.result.movements@.len(),
                self.moved_from(ground.id, ground.material@[k].material),
                self.moves_of(g, k),
            );
        }
        if self.ground_of()(g).len() == 0 {
            assert forall|k: int| 0 <= k < ground.material@.len() implies #[trigger] self.blend_kept(g, k) by {
                assert(self.shares_of(g)(k).len() == 0);
            }
        }
    }

    // Reclaim tasks.

    /// Row `k` of the reclaims is of task `t`, the first of its number.
    pub open spec fn is_reclaim_of(self, t: int) -> spec_fn(int) -> bool {
        |k: int|
            self.result.reclaims@[k].task == self.input.tasks@[t].id && forall|u: int|
                0 <= u < t ==> (#[trigger] self.input.tasks@[u]).id != self.input.tasks@[t].id
    }

    /// What each reclaim takes for a task.
    pub open spec fn takes_for(self, t: int) -> spec_fn(int) -> Option<N> {
        |k: int|
            if self.is_reclaim_of(t)(k) {
                Some(self.result.reclaims@[k].tonnes_t)
            } else {
                None
            }
    }

    /// The audit accepts what a reclaim task with a maximum takes exactly where
    /// it is no more than the maximum and rounding.
    pub proof fn maxima_are_audited(self, t: int, maximum: N)
        requires
            0 <= t < self.input.tasks@.len(),
            self.input.tasks@[t].kind matches TaskKind::Reclaim { maximum_t, .. } && maximum_t == Some(maximum),
        ensures
            self.maxima_of()(t).len() == 0 <==> !self.rounding(
                count_to(self.result.reclaims@.len(), self.is_reclaim_of(t)),
            ).below(sum_to(self.result.reclaims@.len(), self.takes_for(t)).minus(maximum)),
    {
        let n = self.result.reclaims@.len();
        assert(self.grain() == self.dust_spec());
        assert forall|k: int| 0 <= k < n implies #[trigger] self.reclaims_of(t)(k) == self.is_reclaim_of(t)(k) by {
            self.first_of_number(t, 0);
        }
        assert forall|k: int| 0 <= k < n implies #[trigger] self.reclaimed_by(t)(k) == self.takes_for(t)(k) by {
            assert(self.reclaims_of(t)(k) == self.is_reclaim_of(t)(k));
        }
        same_count(n, self.reclaims_of(t), self.is_reclaim_of(t));
        same_sum(n, self.reclaimed_by(t), self.takes_for(t));
    }

    proof fn first_of_number(self, t: int, u: int)
        requires
            0 <= u <= t < self.input.tasks@.len(),
        ensures
            (keyed_from(self.input.tasks@, self.input.tasks@[t].id.0, u) == Some(t)) == (forall|v: int|
                u <= v < t ==> (#[trigger] self.input.tasks@[v]).id != self.input.tasks@[t].id),
        decreases t - u,
    {
        if u < t {
            self.first_of_number(t, u + 1);
            if self.input.tasks@[u].id != self.input.tasks@[t].id {
                assert forall|v: int|
                    u <= v < t && (forall|w: int|
                        u + 1 <= w < t ==> (#[trigger] self.input.tasks@[w]).id != self.input.tasks@[t].id) implies (
                #[trigger] self.input.tasks@[v]).id != self.input.tasks@[t].id by {}
            }
        }
    }
}

} // verus!
