//! Audits of totals: durations, rates, truck hours, crushers, dumps, values,
//! ground and reclaim limits.
use vstd::prelude::*;

use crate::listing::{count_to, find_key, flat, keyed, sum_to};
use crate::optimisation::audit::issue::{IssueKind, ValidationIssue};
use crate::optimisation::authored::windows_compare;
use crate::optimisation::ids::{Activity, DestinationKind, GroundId, MaterialId, SourceId};
use crate::optimisation::input::{Destination, OptimisationInput, TaskKind};
use crate::optimisation::result::{MovementRecord, OptimisationResult};
use crate::scalar::Scalar;

verus! {

/// A published result beside the inputs it was made from.
pub struct Audit<'a, N> {
    pub input: &'a OptimisationInput<N>,
    pub result: &'a OptimisationResult<N>,
}

/// The audit of a result against an input.
pub open spec fn audit_of<'a, N>(input: &'a OptimisationInput<N>, result: &'a OptimisationResult<N>) -> Audit<'a, N> {
    Audit { input, result }
}

pub open spec fn issue<N>(kind: IssueKind, magnitude: N) -> Seq<ValidationIssue<N>> {
    seq![ValidationIssue { kind, magnitude }]
}

/// `one` where `wrong`, and nothing otherwise.
pub open spec fn only_if<A>(wrong: bool, one: Seq<A>) -> Seq<A> {
    if wrong {
        one
    } else {
        Seq::empty()
    }
}

/// The sum of a list of numbers.
pub open spec fn list_total<N: Scalar>(values: Seq<N>) -> N {
    sum_to(values.len(), list_value(values))
}

pub open spec fn list_value<N: Scalar>(values: Seq<N>) -> spec_fn(int) -> Option<N> {
    |k: int| Some(values[k])
}

/// What a tonne of a movement is worth.
pub open spec fn worth<N: Scalar>(row: MovementRecord<N>) -> N {
    sum_to(row.cashflow@.len(), worth_part(row))
}

pub open spec fn worth_part<N: Scalar>(row: MovementRecord<N>) -> spec_fn(int) -> Option<N> {
    |k: int| Some(row.cashflow@[k].value_per_tonne)
}

/// The days the horizon touches, at least one.
pub open spec fn horizon_days<N: Scalar>(end_h: N) -> nat {
    let days = end_h.over(N::of_whole(24)).raised();
    if days < 1 {
        1
    } else {
        days as nat
    }
}

/// A crusher's limit on a day, where it has one.
pub open spec fn limit_of<N: Scalar>(destination: Destination<N>, day: int) -> Option<N> {
    if day < destination.crusher_daily_t@.len() {
        destination.crusher_daily_t@[day]
    } else {
        None
    }
}

impl<'a, N: Scalar> Audit<'a, N> {
    pub open spec fn tolerance_spec(self) -> N {
        self.input.horizon.tolerances.tonnes_t
    }

    /// What is too little to matter.
    pub open spec fn dust_spec(self) -> N {
        self.tolerance_spec().upper(self.input.horizon.parcel_target_t.times(N::of_decimal(1, 6)))
    }

    /// What is too little to tell a unit of inventory from an empty one.
    pub open spec fn unit_dust_spec(self) -> N {
        self.dust_spec().upper(self.result.resolution.inventory_dust_t)
    }

    /// How many segments an interval was given.
    pub open spec fn budget_spec(self, index: usize) -> nat {
        if index < self.result.resolution.segment_counts@.len() {
            self.result.resolution.segment_counts@[index as int] as nat
        } else {
            0
        }
    }

    /// How long a segment is, zero where that is not published.
    pub open spec fn segment_length(self, i: int, s: int) -> N {
        let index = self.input.intervals@[i].index as int;
        if s < self.result.segment_durations_h@[index]@.len() {
            self.result.segment_durations_h@[index]@[s]
        } else {
            N::of_whole(0)
        }
    }

    /// The result can be walked beside the input: what an interval with
    /// segments is looked up in has an entry for it, limited crushers receive
    /// in intervals that exist, and windows can be put in order.
    pub open spec fn auditable(self) -> bool {
        let input = self.input;
        &&& forall|i: int|
            0 <= i < input.intervals@.len() ==> #[trigger] self.budget_spec(input.intervals@[i].index) > 0 ==> {
                &&& input.intervals@[i].index < input.intervals@.len()
                &&& input.loaders@.len() > 0 || input.trucks@.len() > 0 ==> input.intervals@[i].index
                    < self.result.segment_durations_h@.len()
                &&& forall|l: int|
                    0 <= l < input.loaders@.len() ==> input.intervals@[i].index < (
                    #[trigger] input.loaders@[l]).rates@.len()
            }
        &&& forall|i: int, t: int|
            #![trigger input.intervals@[i], input.trucks@[t]]
            0 <= i < input.intervals@.len() && 0 <= t < input.trucks@.len() ==> input.intervals@[i].index
                < input.trucks@[t].hours@.len()
        &&& forall|d: int, day: int, m: int|
            #![trigger input.destinations@[d], limit_of(input.destinations@[d], day), self.result.movements@[m]]
            0 <= d < input.destinations@.len() && 0 <= m < self.result.movements@.len() && 0 <= day < horizon_days(
                input.horizon.end_h,
            ) && input.destinations@[d].kind is Crusher && limit_of(input.destinations@[d], day) is Some
                && self.result.movements@[m].destination == input.destinations@[d].id
                ==> self.result.movements@[m].interval < input.intervals@.len()
        &&& windows_compare(input.tasks@)
    }

    pub fn tolerance(&self) -> (r: N)
        ensures
            r == self.tolerance_spec(),
    {
        self.input.horizon.tolerances.tonnes_t
    }

    pub fn dust(&self) -> (r: N)
        ensures
            r == self.dust_spec(),
    {
        self.tolerance().larger(self.input.horizon.parcel_target_t.mul(N::decimal(1, 6)))
    }

    pub fn unit_dust(&self) -> (r: N)
        ensures
            r == self.unit_dust_spec(),
    {
        self.dust().larger(self.result.resolution.inventory_dust_t)
    }

    pub fn budget(&self, index: usize) -> (r: usize)
        ensures
            r == self.budget_spec(index),
    {
        if index < self.result.resolution.segment_counts.len() {
            self.result.resolution.segment_counts[index]
        } else {
            0
        }
    }

    fn length_of(&self, i: usize, s: usize) -> (r: N)
        requires
            i < self.input.intervals@.len(),
            self.input.intervals@[i as int].index < self.result.segment_durations_h@.len(),
        ensures
            r == self.segment_length(i as int, s as int),
    {
        let durations = &self.result.segment_durations_h[self.input.intervals[i].index];
        if s < durations.len() {
            durations[s]
        } else {
            N::whole(0)
        }
    }

    // Finiteness.

    /// Every published number is finite.
    pub open spec fn all_finite(self) -> bool {
        &&& forall|m: int|
            0 <= m < self.result.movements@.len() ==> (#[trigger] self.result.movements@[m]).tonnes_t.finite()
                && self.result.movements@[m].value.finite()
        &&& forall|p: int| 0 <= p < self.result.parcels@.len() ==> (#[trigger] self.result.parcels@[p]).tonnes_t.finite()
        &&& forall|r: int|
            0 <= r < self.result.reclaims@.len() ==> (#[trigger] self.result.reclaims@[r]).tonnes_t.finite()
        &&& forall|i: int, s: int|
            0 <= i < self.result.segment_durations_h@.len() && 0 <= s < self.result.segment_durations_h@[i]@.len()
                ==> (#[trigger] self.result.segment_durations_h@[i]@[s]).finite()
    }

    fn is_all_finite(&self) -> (r: bool)
        ensures
            r == self.all_finite(),
    {
        let result = self.result;
        for m in 0..result.movements.len()
            invariant
                result == self.result,
                forall|k: int|
                    0 <= k < m ==> (#[trigger] result.movements@[k]).tonnes_t.finite()
                        && result.movements@[k].value.finite(),
        {
            if !result.movements[m].tonnes_t.is_finite() || !result.movements[m].value.is_finite() {
                return false;
            }
        }
        for p in 0..result.parcels.len()
            invariant
                result == self.result,
                forall|k: int| 0 <= k < p ==> (#[trigger] result.parcels@[k]).tonnes_t.finite(),
        {
            if !result.parcels[p].tonnes_t.is_finite() {
                return false;
            }
        }
        for r in 0..result.reclaims.len()
            invariant
                result == self.result,
                forall|k: int| 0 <= k < r ==> (#[trigger] result.reclaims@[k]).tonnes_t.finite(),
        {
            if !result.reclaims[r].tonnes_t.is_finite() {
                return false;
            }
        }
        for i in 0..result.segment_durations_h.len()
            invariant
                result == self.result,
                forall|j: int, s: int|
                    0 <= j < i && 0 <= s < result.segment_durations_h@[j]@.len() ==> (
                    #[trigger] result.segment_durations_h@[j]@[s]).finite(),
        {
            let durations = &result.segment_durations_h[i];
            for s in 0..durations.len()
                invariant
                    result == self.result,
                    i < result.segment_durations_h@.len(),
                    durations == result.segment_durations_h@[i as int],
                    forall|k: int| 0 <= k < s ==> (#[trigger] durations@[k]).finite(),
            {
                if !durations[s].is_finite() {
                    assert(!result.segment_durations_h@[i as int]@[s as int].finite());
                    return false;
                }
            }
        }
        true
    }

    // Segment durations.

    /// What is wrong with the segment durations of interval `i`.
    pub open spec fn durations_at(self) -> spec_fn(int) -> Seq<ValidationIssue<N>> {
        |i: int|
            {
                let interval = self.input.intervals@[i];
                let budget = self.budget_spec(interval.index);
                if interval.index >= self.result.segment_durations_h@.len() {
                    issue(IssueKind::MissingDurations { interval: interval.index }, N::of_whole(1))
                } else {
                    let durations = self.result.segment_durations_h@[interval.index as int]@;
                    let gap = list_total(durations).minus(interval.length()).magnitude();
                    only_if(
                        durations.len() != budget,
                        issue(
                            IssueKind::DurationCount { found: durations.len() as usize, budget: budget as usize },
                            N::of_whole(durations.len() as u64).minus(N::of_whole(budget as u64)),
                        ),
                    ) + only_if(
                        self.strays(durations, interval.length()) || N::of_decimal(1, 6).below(gap),
                        issue(IssueKind::DurationTotal { interval: interval.index }, gap),
                    )
                }
            }
    }

    /// Some duration is below zero or longer than the interval.
    pub open spec fn strays(self, durations: Seq<N>, length: N) -> bool {
        exists|k: int|
            0 <= k < durations.len() && ((#[trigger] durations[k]).below(self.tolerance_spec().opposite())
                || length.plus(self.tolerance_spec()).below(durations[k]))
    }

    fn check_durations_at(&self, i: usize, out: &mut Vec<ValidationIssue<N>>)
        requires
            i < self.input.intervals@.len(),
        ensures
            final(out)@ == old(out)@ + self.durations_at()(i as int),
    {
        let interval = self.input.intervals[i];
        let budget: usize = self.budget(interval.index);
        if interval.index >= self.result.segment_durations_h.len() {
            out.push(
                ValidationIssue {
                    kind: IssueKind::MissingDurations { interval: interval.index },
                    magnitude: N::whole(1),
                },
            );
            return;
        }
        let durations = &self.result.segment_durations_h[interval.index];
        if durations.len() != budget {
            out.push(
                ValidationIssue {
                    kind: IssueKind::DurationCount { found: durations.len(), budget },
                    magnitude: N::whole(durations.len() as u64).sub(N::whole(budget as u64)),
                },
            );
        }
        let length = interval.duration_h();
        let floor = self.tolerance().neg();
        let ceiling = length.add(self.tolerance());
        let mut total = N::whole(0);
        let mut stray: bool = false;
        for k in 0..durations.len()
            invariant
                total == sum_to(k as nat, list_value(durations@)),
                floor == self.tolerance_spec().opposite(),
                ceiling == length.plus(self.tolerance_spec()),
                stray == exists|j: int|
                    0 <= j < k && ((#[trigger] durations@[j]).below(self.tolerance_spec().opposite()) || length.plus(
                        self.tolerance_spec(),
                    ).below(durations@[j])),
        {
            let value = durations[k];
            total = total.add(value);
            if value.is_below(floor) || ceiling.is_below(value) {
                stray = true;
            }
        }
        let gap = total.sub(length).abs();
        if stray || N::decimal(1, 6).is_below(gap) {
            out.push(ValidationIssue { kind: IssueKind::DurationTotal { interval: interval.index }, magnitude: gap });
        }
    }

    // Loader rates.

    /// The activities of a loader in a segment.
    pub open spec fn rows_at(self, l: int, i: int, s: int) -> spec_fn(int) -> bool {
        |k: int|
            {
                let row = self.result.activities@[k];
                row.loader == self.input.loaders@[l].id && row.interval == self.input.intervals@[i].index && row.segment
                    == s
            }
    }

    /// The rows that are the first with their task and source.
    pub open spec fn fresh_rows(self, l: int, i: int, s: int) -> spec_fn(int) -> bool {
        |k: int|
            self.rows_at(l, i, s)(k) && !exists|j: int|
                0 <= j < k && #[trigger] self.rows_at(l, i, s)(j) && self.result.activities@[j].task
                    == self.result.activities@[k].task && self.result.activities@[j].source
                    == self.result.activities@[k].source
    }

    pub open spec fn worked_tonnes(self, l: int, i: int, s: int, activity: Activity) -> spec_fn(int) -> Option<N> {
        |k: int|
            if self.rows_at(l, i, s)(k) && self.result.activities@[k].activity == activity {
                Some(self.result.activities@[k].tonnes_t)
            } else {
                None
            }
    }

    /// What is wrong with the work of loader `l` in segment `s` of interval `i`.
    pub open spec fn rates_at(self, l: int, i: int) -> spec_fn(int) -> Seq<ValidationIssue<N>> {
        |s: int|
            {
                let loader = self.input.loaders@[l];
                let index = self.input.intervals@[i].index;
                let n = self.result.activities@.len();
                let assignments = count_to(n, self.fresh_rows(l, i, s));
                let rows = count_to(n, self.rows_at(l, i, s));
                let duration = self.segment_length(i, s);
                let rate = loader.rates@[index as int];
                let allowance = self.tolerance_spec().plus(
                    N::of_whole(3).times(self.dust_spec()).times(N::of_whole(rows as u64)),
                );
                let dig_over = sum_to(n, self.worked_tonnes(l, i, s, Activity::Dig)).minus(rate.dig_tph.times(duration));
                let reclaim_over = sum_to(n, self.worked_tonnes(l, i, s, Activity::Reclaim)).minus(
                    rate.reclaim_tph.times(duration),
                );
                only_if(
                    assignments > 1,
                    issue(
                        IssueKind::SeveralSources { loader: loader.id, interval: index, segment: s as usize },
                        N::of_whole(assignments as u64),
                    ),
                ) + only_if(
                    allowance.below(dig_over),
                    issue(IssueKind::DigRate { interval: index, segment: s as usize }, dig_over),
                ) + only_if(
                    allowance.below(reclaim_over),
                    issue(IssueKind::ReclaimRate { interval: index, segment: s as usize }, reclaim_over),
                )
            }
    }

    pub open spec fn rates_in(self, l: int) -> spec_fn(int) -> Seq<ValidationIssue<N>> {
        |i: int| flat(self.budget_spec(self.input.intervals@[i].index), self.rates_at(l, i))
    }

    pub open spec fn rates_of(self) -> spec_fn(int) -> Seq<ValidationIssue<N>> {
        |l: int| flat(self.input.intervals@.len(), self.rates_in(l))
    }

    pub fn is_row_at(&self, l: usize, i: usize, s: usize, k: usize) -> (r: bool)
        requires
            l < self.input.loaders@.len(),
            i < self.input.intervals@.len(),
            k < self.result.activities@.len(),
        ensures
            r == self.rows_at(l as int, i as int, s as int)(k as int),
    {
        let row = &self.result.activities[k];
        row.loader == self.input.loaders[l].id && row.interval == self.input.intervals[i].index && row.segment == s
    }

    fn is_fresh_row(&self, l: usize, i: usize, s: usize, k: usize) -> (r: bool)
        requires
            l < self.input.loaders@.len(),
            i < self.input.intervals@.len(),
            k < self.result.activities@.len(),
        ensures
            r == self.fresh_rows(l as int, i as int, s as int)(k as int),
    {
        if !self.is_row_at(l, i, s, k) {
            return false;
        }
        for j in 0..k
            invariant
                l < self.input.loaders@.len(),
                i < self.input.intervals@.len(),
                k < self.result.activities@.len(),
                !exists|q: int|
                    0 <= q < j && #[trigger] self.rows_at(l as int, i as int, s as int)(q)
                        && self.result.activities@[q].task == self.result.activities@[k as int].task
                        && self.result.activities@[q].source == self.result.activities@[k as int].source,
        {
            if self.is_row_at(l, i, s, j) && self.result.activities[j].task == self.result.activities[k].task
                && self.result.activities[j].source == self.result.activities[k].source {
                assert(self.rows_at(l as int, i as int, s as int)(j as int));
                return false;
            }
        }
        true
    }

    fn check_rates_at(&self, l: usize, i: usize, s: usize, out: &mut Vec<ValidationIssue<N>>)
        requires
            l < self.input.loaders@.len(),
            i < self.input.intervals@.len(),
            self.input.intervals@[i as int].index < self.result.segment_durations_h@.len(),
            self.input.intervals@[i as int].index < self.input.loaders@[l as int].rates@.len(),
        ensures
            final(out)@ == old(out)@ + self.rates_at(l as int, i as int)(s as int),
    {
        let index: usize = self.input.intervals[i].index;
        let mut assignments: usize = 0;
        let mut rows: usize = 0;
        let mut dig = N::whole(0);
        let mut reclaim = N::whole(0);
        let ghost (gl, gi, gs) = (l as int, i as int, s as int);
        for k in 0..self.result.activities.len()
            invariant
                gl == l,
                gi == i,
                gs == s,
                l < self.input.loaders@.len(),
                i < self.input.intervals@.len(),
                assignments <= k,
                rows <= k,
                assignments == count_to(k as nat, self.fresh_rows(gl, gi, gs)),
                rows == count_to(k as nat, self.rows_at(gl, gi, gs)),
                dig == sum_to(k as nat, self.worked_tonnes(gl, gi, gs, Activity::Dig)),
                reclaim == sum_to(k as nat, self.worked_tonnes(gl, gi, gs, Activity::Reclaim)),
        {
            if self.is_fresh_row(l, i, s, k) {
                assignments = assignments + 1;
            }
            if self.is_row_at(l, i, s, k) {
                rows = rows + 1;
                match self.result.activities[k].activity {
                    Activity::Dig => {
                        dig = dig.add(self.result.activities[k].tonnes_t);
                    },
                    Activity::Reclaim => {
                        reclaim = reclaim.add(self.result.activities[k].tonnes_t);
                    },
                }
            }
        }
        let loader = &self.input.loaders[l];
        let duration = self.length_of(i, s);
        let rate = loader.rates[index];
        let allowance = self.tolerance().add(N::whole(3).mul(self.dust()).mul(N::whole(rows as u64)));
        let dig_over = dig.sub(rate.dig_tph.mul(duration));
        let reclaim_over = reclaim.sub(rate.reclaim_tph.mul(duration));
        if assignments > 1 {
            out.push(
                ValidationIssue {
                    kind: IssueKind::SeveralSources { loader: loader.id, interval: index, segment: s },
                    magnitude: N::whole(assignments as u64),
                },
            );
        }
        if allowance.is_below(dig_over) {
            out.push(
                ValidationIssue { kind: IssueKind::DigRate { interval: index, segment: s }, magnitude: dig_over },
            );
        }
        if allowance.is_below(reclaim_over) {
            out.push(
                ValidationIssue { kind: IssueKind::ReclaimRate { interval: index, segment: s }, magnitude: reclaim_over },
            );
        }
    }

    fn check_rates(&self, out: &mut Vec<ValidationIssue<N>>)
        requires
            self.auditable(),
        ensures
            final(out)@ == old(out)@ + flat(self.input.loaders@.len(), self.rates_of()),
    {
        let ghost base = out@;
        assert(base + flat(0, self.rates_of()) =~= base);
        for l in 0..self.input.loaders.len()
            invariant
                self.auditable(),
                out@ == base + flat(l as nat, self.rates_of()),
        {
            let ghost inner = out@;
            assert(inner + flat(0, self.rates_in(l as int)) =~= inner);
            for i in 0..self.input.intervals.len()
                invariant
                    self.auditable(),
                    l < self.input.loaders@.len(),
                    out@ == inner + flat(i as nat, self.rates_in(l as int)),
            {
                let budget: usize = self.budget(self.input.intervals[i].index);
                let ghost innermost = out@;
                assert(innermost + flat(0, self.rates_at(l as int, i as int)) =~= innermost);
                for s in 0..budget
                    invariant
                        self.auditable(),
                        l < self.input.loaders@.len(),
                        i < self.input.intervals@.len(),
                        budget == self.budget_spec(self.input.intervals@[i as int].index),
                        out@ == innermost + flat(s as nat, self.rates_at(l as int, i as int)),
                {
                    let ghost was = out@;
                    self.check_rates_at(l, i, s, out);
                    assert(out@ =~= innermost + (flat(s as nat, self.rates_at(l as int, i as int)) + self.rates_at(
                        l as int,
                        i as int,
                    )(s as int)));
                }
                assert(out@ =~= inner + (flat(i as nat, self.rates_in(l as int)) + self.rates_in(l as int)(i as int)));
            }
            assert(out@ =~= base + (flat(l as nat, self.rates_of()) + self.rates_of()(l as int)));
        }
    }

    // Truck hours.

    pub open spec fn truck_used(self, t: int, i: int, s: int) -> spec_fn(int) -> Option<N> {
        |m: int|
            {
                let row = self.result.movements@[m];
                if row.interval == self.input.intervals@[i].index && row.segment == s && row.truck
                    == self.input.trucks@[t].id {
                    Some(row.truck_hours)
                } else {
                    None
                }
            }
    }

    pub open spec fn trucks_at(self, t: int, i: int) -> spec_fn(int) -> Seq<ValidationIssue<N>> {
        |s: int|
            {
                let truck = self.input.trucks@[t];
                let interval = self.input.intervals@[i];
                let units = truck.hours@[interval.index as int].over(interval.length());
                let used = sum_to(self.result.movements@.len(), self.truck_used(t, i, s));
                let excess = used.minus(units.times(self.segment_length(i, s)));
                only_if(
                    self.tolerance_spec().upper(self.dust_spec()).below(excess),
                    issue(
                        IssueKind::TruckShare { truck: truck.id, interval: interval.index, segment: s as usize },
                        excess,
                    ),
                )
            }
    }

    pub open spec fn trucks_in(self, t: int) -> spec_fn(int) -> Seq<ValidationIssue<N>> {
        |i: int| flat(self.budget_spec(self.input.intervals@[i].index), self.trucks_at(t, i))
    }

    pub open spec fn trucks_of(self) -> spec_fn(int) -> Seq<ValidationIssue<N>> {
        |t: int| flat(self.input.intervals@.len(), self.trucks_in(t))
    }

    fn check_trucks_at(&self, t: usize, i: usize, s: usize, out: &mut Vec<ValidationIssue<N>>)
        requires
            t < self.input.trucks@.len(),
            i < self.input.intervals@.len(),
            self.input.intervals@[i as int].index < self.result.segment_durations_h@.len(),
            self.input.intervals@[i as int].index < self.input.trucks@[t as int].hours@.len(),
        ensures
            final(out)@ == old(out)@ + self.trucks_at(t as int, i as int)(s as int),
    {
        let truck = &self.input.trucks[t];
        let interval = self.input.intervals[i];
        let units = truck.hours[interval.index].div(interval.duration_h());
        let mut used = N::whole(0);
        for m in 0..self.result.movements.len()
            invariant
                t < self.input.trucks@.len(),
                i < self.input.intervals@.len(),
                truck == self.input.trucks@[t as int],
                interval == self.input.intervals@[i as int],
                used == sum_to(m as nat, self.truck_used(t as int, i as int, s as int)),
        {
            let row = &self.result.movements[m];
            if row.interval == interval.index && row.segment == s && row.truck == truck.id {
                used = used.add(row.truck_hours);
            }
        }
        let excess = used.sub(units.mul(self.length_of(i, s)));
        if self.tolerance().larger(self.dust()).is_below(excess) {
            out.push(
                ValidationIssue {
                    kind: IssueKind::TruckShare { truck: truck.id, interval: interval.index, segment: s },
                    magnitude: excess,
                },
            );
        }
    }

    fn check_trucks(&self, out: &mut Vec<ValidationIssue<N>>)
        requires
            self.auditable(),
        ensures
            final(out)@ == old(out)@ + flat(self.input.trucks@.len(), self.trucks_of()),
    {
        let ghost base = out@;
        assert(base + flat(0, self.trucks_of()) =~= base);
        for t in 0..self.input.trucks.len()
            invariant
                self.auditable(),
                out@ == base + flat(t as nat, self.trucks_of()),
        {
            let ghost inner = out@;
            assert(inner + flat(0, self.trucks_in(t as int)) =~= inner);
            for i in 0..self.input.intervals.len()
                invariant
                    self.auditable(),
                    t < self.input.trucks@.len(),
                    out@ == inner + flat(i as nat, self.trucks_in(t as int)),
            {
                let budget: usize = self.budget(self.input.intervals[i].index);
                let ghost innermost = out@;
                assert(innermost + flat(0, self.trucks_at(t as int, i as int)) =~= innermost);
                for s in 0..budget
                    invariant
                        self.auditable(),
                        t < self.input.trucks@.len(),
                        i < self.input.intervals@.len(),
                        budget == self.budget_spec(self.input.intervals@[i as int].index),
                        out@ == innermost + flat(s as nat, self.trucks_at(t as int, i as int)),
                {
                    assert(self.input.trucks@[t as int].hours@.len() > self.input.intervals@[i as int].index);
                    self.check_trucks_at(t, i, s, out);
                    assert(out@ =~= innermost + (flat(s as nat, self.trucks_at(t as int, i as int)) + self.trucks_at(
                        t as int,
                        i as int,
                    )(s as int)));
                }
                assert(out@ =~= inner + (flat(i as nat, self.trucks_in(t as int)) + self.trucks_in(t as int)(i as int)));
            }
            assert(out@ =~= base + (flat(t as nat, self.trucks_of()) + self.trucks_of()(t as int)));
        }
    }

    // Crushers and dumps.

    pub open spec fn crushed_on(self, d: int, day: int) -> spec_fn(int) -> Option<N> {
        |m: int|
            {
                let row = self.result.movements@[m];
                if row.destination == self.input.destinations@[d].id
                    && self.input.intervals@[row.interval as int].calendar_day() == day {
                    Some(row.tonnes_t)
                } else {
                    None
                }
            }
    }

    pub open spec fn crusher_day(self, d: int) -> spec_fn(int) -> Seq<ValidationIssue<N>> {
        |day: int|
            match limit_of(self.input.destinations@[d], day) {
                Some(limit) => {
                    let excess = sum_to(self.result.movements@.len(), self.crushed_on(d, day)).minus(limit);
                    only_if(
                        self.tolerance_spec().below(excess),
                        issue(
                            IssueKind::CrusherDay { crusher: self.input.destinations@[d].id, day: day as u64 },
                            excess,
                        ),
                    )
                },
                None => Seq::empty(),
            }
    }

    pub open spec fn crushers_of(self) -> spec_fn(int) -> Seq<ValidationIssue<N>> {
        |d: int|
            if self.input.destinations@[d].kind is Crusher {
                flat(horizon_days(self.input.horizon.end_h), self.crusher_day(d))
            } else {
                Seq::empty()
            }
    }

    fn check_crusher_day(&self, d: usize, day: u64, out: &mut Vec<ValidationIssue<N>>)
        requires
            self.auditable(),
            d < self.input.destinations@.len(),
            self.input.destinations@[d as int].kind is Crusher,
            day < horizon_days(self.input.horizon.end_h),
        ensures
            final(out)@ == old(out)@ + self.crusher_day(d as int)(day as int),
    {
        let destination = &self.input.destinations[d];
        if day >= destination.crusher_daily_t.len() as u64 {
            return;
        }
        if let Some(limit) = destination.crusher_daily_t[day as usize] {
            let mut used = N::whole(0);
            assert(limit_of(self.input.destinations@[d as int], day as int) is Some);
            for m in 0..self.result.movements.len()
                invariant
                    self.auditable(),
                    d < self.input.destinations@.len(),
                    destination == self.input.destinations@[d as int],
                    destination.kind is Crusher,
                    limit_of(self.input.destinations@[d as int], day as int) is Some,
                    day < horizon_days(self.input.horizon.end_h),
                    used == sum_to(m as nat, self.crushed_on(d as int, day as int)),
            {
                let row = &self.result.movements[m];
                if row.destination == destination.id {
                    assert(self.result.movements@[m as int].interval < self.input.intervals@.len());
                    if self.input.intervals[row.interval].day() as u64 == day {
                        used = used.add(row.tonnes_t);
                    }
                }
            }
            let excess = used.sub(limit);
            if self.tolerance().is_below(excess) {
                out.push(
                    ValidationIssue {
                        kind: IssueKind::CrusherDay { crusher: destination.id, day },
                        magnitude: excess,
                    },
                );
            }
        }
    }

    fn check_crushers(&self, out: &mut Vec<ValidationIssue<N>>)
        requires
            self.auditable(),
        ensures
            final(out)@ == old(out)@ + flat(self.input.destinations@.len(), self.crushers_of()),
    {
        let raised: u64 = self.input.horizon.end_h.div(N::whole(24)).ceil();
        let days: u64 = if raised < 1 {
            1
        } else {
            raised
        };
        let ghost base = out@;
        assert(base + flat(0, self.crushers_of()) =~= base);
        for d in 0..self.input.destinations.len()
            invariant
                self.auditable(),
                days == horizon_days(self.input.horizon.end_h),
                out@ == base + flat(d as nat, self.crushers_of()),
        {
            let crusher: bool = match self.input.destinations[d].kind {
                DestinationKind::Crusher => true,
                _ => false,
            };
            let ghost inner = out@;
            if crusher {
                assert(inner + flat(0, self.crusher_day(d as int)) =~= inner);
                for day in 0..days
                    invariant
                        self.auditable(),
                        d < self.input.destinations@.len(),
                        self.input.destinations@[d as int].kind is Crusher,
                        days == horizon_days(self.input.horizon.end_h),
                        out@ == inner + flat(day as nat, self.crusher_day(d as int)),
                {
                    self.check_crusher_day(d, day, out);
                    assert(out@ =~= inner + (flat(day as nat, self.crusher_day(d as int)) + self.crusher_day(d as int)(
                        day as int,
                    )));
                }
            }
            assert(out@ =~= base + (flat(d as nat, self.crushers_of()) + self.crushers_of()(d as int)));
        }
    }

    pub open spec fn received_by(self, d: int) -> spec_fn(int) -> Option<N> {
        |m: int|
            if self.result.movements@[m].destination == self.input.destinations@[d].id {
                Some(self.result.movements@[m].tonnes_t)
            } else {
                None
            }
    }

    pub open spec fn dumps_of(self) -> spec_fn(int) -> Seq<ValidationIssue<N>> {
        |d: int|
            {
                let destination = self.input.destinations@[d];
                if destination.kind is Dump && destination.capacity_t is Some {
                    let excess = sum_to(self.result.movements@.len(), self.received_by(d)).minus(
                        destination.capacity_t->0,
                    );
                    only_if(self.tolerance_spec().below(excess), issue(IssueKind::DumpCapacity, excess))
                } else {
                    Seq::empty()
                }
            }
    }

    fn check_dumps(&self, out: &mut Vec<ValidationIssue<N>>)
        ensures
            final(out)@ == old(out)@ + flat(self.input.destinations@.len(), self.dumps_of()),
    {
        let ghost base = out@;
        assert(base + flat(0, self.dumps_of()) =~= base);
        for d in 0..self.input.destinations.len()
            invariant
                out@ == base + flat(d as nat, self.dumps_of()),
        {
            let destination = &self.input.destinations[d];
            let dump: bool = match destination.kind {
                DestinationKind::Dump => true,
                _ => false,
            };
            if dump {
                if let Some(capacity) = destination.capacity_t {
                    let mut received = N::whole(0);
                    for m in 0..self.result.movements.len()
                        invariant
                            d < self.input.destinations@.len(),
                            destination == self.input.destinations@[d as int],
                            received == sum_to(m as nat, self.received_by(d as int)),
                    {
                        let row = &self.result.movements[m];
                        if row.destination == destination.id {
                            received = received.add(row.tonnes_t);
                        }
                    }
                    let excess = received.sub(capacity);
                    if self.tolerance().is_below(excess) {
                        out.push(ValidationIssue { kind: IssueKind::DumpCapacity, magnitude: excess });
                    }
                }
            }
            assert(out@ =~= base + (flat(d as nat, self.dumps_of()) + self.dumps_of()(d as int)));
        }
    }

    // Values.

    pub open spec fn values_of(self) -> spec_fn(int) -> Seq<ValidationIssue<N>> {
        |m: int|
            {
                let row = self.result.movements@[m];
                let expected = row.tonnes_t.times(worth(row));
                let gap = row.value.minus(expected).magnitude();
                only_if(
                    self.input.horizon.tolerances.objective.upper(
                        self.tolerance_spec().times(expected.magnitude()),
                    ).below(gap),
                    issue(IssueKind::MovementValue, gap),
                )
            }
    }

    fn check_values(&self, out: &mut Vec<ValidationIssue<N>>)
        ensures
            final(out)@ == old(out)@ + flat(self.result.movements@.len(), self.values_of()),
    {
        let ghost base = out@;
        assert(base + flat(0, self.values_of()) =~= base);
        for m in 0..self.result.movements.len()
            invariant
                out@ == base + flat(m as nat, self.values_of()),
        {
            let row = &self.result.movements[m];
            let mut per_tonne = N::whole(0);
            for k in 0..row.cashflow.len()
                invariant
                    m < self.result.movements@.len(),
                    row == self.result.movements@[m as int],
                    per_tonne == sum_to(k as nat, worth_part(*row)),
            {
                per_tonne = per_tonne.add(row.cashflow[k].value_per_tonne);
            }
            let expected = row.tonnes_t.mul(per_tonne);
            let gap = row.value.sub(expected).abs();
            if self.input.horizon.tolerances.objective.larger(self.tolerance().mul(expected.abs())).is_below(gap) {
                out.push(ValidationIssue { kind: IssueKind::MovementValue, magnitude: gap });
            }
            assert(out@ =~= base + (flat(m as nat, self.values_of()) + self.values_of()(m as int)));
        }
    }

    // Ground.

    pub open spec fn dug_from(self, ground: GroundId) -> spec_fn(int) -> bool {
        |k: int|
            self.result.activities@[k].activity is Dig && self.result.activities@[k].source == SourceId::Ground(ground)
    }

    pub open spec fn dug_tonnes(self, ground: GroundId) -> spec_fn(int) -> Option<N> {
        |k: int|
            if self.dug_from(ground)(k) {
                Some(self.result.activities@[k].tonnes_t)
            } else {
                None
            }
    }

    pub open spec fn moved_from(self, ground: GroundId, material: MaterialId) -> spec_fn(int) -> Option<N> {
        |m: int|
            {
                let row = self.result.movements@[m];
                if row.source == SourceId::Ground(ground) && row.material == material {
                    Some(row.tonnes_t)
                } else {
                    None
                }
            }
    }

    /// Everything dug from a block.
    pub open spec fn extracted_from(self, ground: GroundId) -> N {
        sum_to(self.result.activities@.len(), self.dug_tonnes(ground))
    }

    pub open spec fn shares_of(self, g: int) -> spec_fn(int) -> Seq<ValidationIssue<N>> {
        |k: int|
            {
                let ground = self.input.ground@[g];
                let share = ground.material@[k];
                let moved = sum_to(self.result.movements@.len(), self.moved_from(ground.id, share.material));
                let expected = self.extracted_from(ground.id).times(share.fraction);
                let rows = count_to(self.result.activities@.len(), self.dug_from(ground.id));
                let gap = moved.minus(expected).magnitude();
                let allowance = self.tolerance_spec().upper(expected.magnitude().times(self.tolerance_spec())).upper(
                    N::of_whole(3).times(self.dust_spec()).times(N::of_whole(rows as u64)),
                );
                only_if(allowance.below(gap), issue(IssueKind::Composition, gap))
            }
    }

    pub open spec fn ground_of(self) -> spec_fn(int) -> Seq<ValidationIssue<N>> {
        |g: int|
            {
                let ground = self.input.ground@[g];
                let excess = self.extracted_from(ground.id).minus(ground.tonnes_t);
                only_if(
                    self.tolerance_spec().below(excess),
                    issue(IssueKind::GroundOverdrawn { ground: ground.id }, excess),
                ) + flat(ground.material@.len(), self.shares_of(g))
            }
    }

    fn check_share(&self, g: usize, k: usize, extracted: N, rows: usize, out: &mut Vec<ValidationIssue<N>>)
        requires
            g < self.input.ground@.len(),
            k < self.input.ground@[g as int].material@.len(),
            extracted == self.extracted_from(self.input.ground@[g as int].id),
            rows == count_to(self.result.activities@.len(), self.dug_from(self.input.ground@[g as int].id)),
        ensures
            final(out)@ == old(out)@ + self.shares_of(g as int)(k as int),
    {
        let ground = &self.input.ground[g];
        let share = ground.material[k];
        let mut moved = N::whole(0);
        for m in 0..self.result.movements.len()
            invariant
                moved == sum_to(m as nat, self.moved_from(ground.id, share.material)),
        {
            let row = &self.result.movements[m];
            if row.source == SourceId::Ground(ground.id) && row.material == share.material {
                moved = moved.add(row.tonnes_t);
            }
        }
        let expected = extracted.mul(share.fraction);
        let gap = moved.sub(expected).abs();
        let allowance = self.tolerance().larger(expected.abs().mul(self.tolerance())).larger(
            N::whole(3).mul(self.dust()).mul(N::whole(rows as u64)),
        );
        if allowance.is_below(gap) {
            out.push(ValidationIssue { kind: IssueKind::Composition, magnitude: gap });
        }
    }

    fn check_ground(&self, out: &mut Vec<ValidationIssue<N>>)
        ensures
            final(out)@ == old(out)@ + flat(self.input.ground@.len(), self.ground_of()),
    {
        let ghost base = out@;
        assert(base + flat(0, self.ground_of()) =~= base);
        for g in 0..self.input.ground.len()
            invariant
                out@ == base + flat(g as nat, self.ground_of()),
        {
            let ground = &self.input.ground[g];
            let mut extracted = N::whole(0);
            let mut rows: usize = 0;
            for k in 0..self.result.activities.len()
                invariant
                    rows <= k,
                    rows == count_to(k as nat, self.dug_from(ground.id)),
                    extracted == sum_to(k as nat, self.dug_tonnes(ground.id)),
            {
                let row = &self.result.activities[k];
                if row.activity == Activity::Dig && row.source == SourceId::Ground(ground.id) {
                    rows = rows + 1;
                    extracted = extracted.add(row.tonnes_t);
                }
            }
            let excess = extracted.sub(ground.tonnes_t);
            if self.tolerance().is_below(excess) {
                out.push(
                    ValidationIssue { kind: IssueKind::GroundOverdrawn { ground: ground.id }, magnitude: excess },
                );
            }
            let ghost inner = out@;
            assert(inner + flat(0, self.shares_of(g as int)) =~= inner);
            for k in 0..ground.material.len()
                invariant
                    g < self.input.ground@.len(),
                    ground == self.input.ground@[g as int],
                    extracted == self.extracted_from(ground.id),
                    rows == count_to(self.result.activities@.len(), self.dug_from(ground.id)),
                    out@ == inner + flat(k as nat, self.shares_of(g as int)),
            {
                self.check_share(g, k, extracted, rows, out);
                assert(out@ =~= inner + (flat(k as nat, self.shares_of(g as int)) + self.shares_of(g as int)(k as int)));
            }
            assert(out@ =~= base + (flat(g as nat, self.ground_of()) + self.ground_of()(g as int)));
        }
    }

    // Reclaim limits.

    /// The reclaims of a task, where it is the first of its id.
    pub open spec fn reclaims_of(self, t: int) -> spec_fn(int) -> bool {
        |k: int|
            self.result.reclaims@[k].task == self.input.tasks@[t].id && keyed(
                self.input.tasks@,
                self.result.reclaims@[k].task.0,
            ) == Some(t)
    }

    pub open spec fn reclaimed_by(self, t: int) -> spec_fn(int) -> Option<N> {
        |k: int|
            if self.reclaims_of(t)(k) {
                Some(self.result.reclaims@[k].tonnes_t)
            } else {
                None
            }
    }

    pub open spec fn maxima_of(self) -> spec_fn(int) -> Seq<ValidationIssue<N>> {
        |t: int|
            match self.input.tasks@[t].kind {
                TaskKind::Reclaim { approved_sources, maximum_t: Some(maximum) } => {
                    let n = self.result.reclaims@.len();
                    let rows = count_to(n, self.reclaims_of(t));
                    let excess = sum_to(n, self.reclaimed_by(t)).minus(maximum);
                    let allowance = self.tolerance_spec().plus(
                        N::of_whole(3).times(self.dust_spec()).times(N::of_whole(rows as u64)),
                    );
                    only_if(allowance.below(excess), issue(IssueKind::ReclaimMaximum, excess))
                },
                _ => Seq::empty(),
            }
    }

    fn check_maxima(&self, out: &mut Vec<ValidationIssue<N>>)
        ensures
            final(out)@ == old(out)@ + flat(self.input.tasks@.len(), self.maxima_of()),
    {
        let ghost base = out@;
        assert(base + flat(0, self.maxima_of()) =~= base);
        for t in 0..self.input.tasks.len()
            invariant
                out@ == base + flat(t as nat, self.maxima_of()),
        {
            let task = &self.input.tasks[t];
            if let TaskKind::Reclaim { approved_sources: _, maximum_t: Some(maximum) } = &task.kind {
                let mut rows: usize = 0;
                let mut reclaimed = N::whole(0);
                for k in 0..self.result.reclaims.len()
                    invariant
                        t < self.input.tasks@.len(),
                        task == self.input.tasks@[t as int],
                        rows <= k,
                        rows == count_to(k as nat, self.reclaims_of(t as int)),
                        reclaimed == sum_to(k as nat, self.reclaimed_by(t as int)),
                {
                    let row = &self.result.reclaims[k];
                    if row.task == task.id {
                        let first: Option<usize> = find_key(&self.input.tasks, row.task.0);
                        if first == Some(t) {
                            rows = rows + 1;
                            reclaimed = reclaimed.add(row.tonnes_t);
                        }
                    }
                }
                let excess = reclaimed.sub(*maximum);
                let allowance = self.tolerance().add(N::whole(3).mul(self.dust()).mul(N::whole(rows as u64)));
                if allowance.is_below(excess) {
                    out.push(ValidationIssue { kind: IssueKind::ReclaimMaximum, magnitude: excess });
                }
            }
            assert(out@ =~= base + (flat(t as nat, self.maxima_of()) + self.maxima_of()(t as int)));
        }
    }

    /// What the totals of a result have wrong.
    pub open spec fn total_issues(self) -> Seq<ValidationIssue<N>> {
        only_if(!self.all_finite(), issue(IssueKind::NonFinite, N::of_infinity())) + flat(
            self.input.intervals@.len(),
            self.durations_at(),
        ) + flat(self.input.loaders@.len(), self.rates_of()) + flat(self.input.trucks@.len(), self.trucks_of()) + flat(
            self.input.destinations@.len(),
            self.crushers_of(),
        ) + flat(self.input.destinations@.len(), self.dumps_of()) + flat(
            self.result.movements@.len(),
            self.values_of(),
        ) + flat(self.input.ground@.len(), self.ground_of()) + flat(self.input.tasks@.len(), self.maxima_of())
    }

    /// Finds what the totals of a result have wrong.
    pub fn check_totals(&self) -> (r: Vec<ValidationIssue<N>>)
        requires
            self.auditable(),
        ensures
            r@ == self.total_issues(),
    {
        let mut out: Vec<ValidationIssue<N>> = Vec::new();
        if !self.is_all_finite() {
            out.push(ValidationIssue { kind: IssueKind::NonFinite, magnitude: N::infinity() });
        }
        let ghost base = out@;
        assert(base + flat(0, self.durations_at()) =~= base);
        for i in 0..self.input.intervals.len()
            invariant
                out@ == base + flat(i as nat, self.durations_at()),
        {
            self.check_durations_at(i, &mut out);
            assert(out@ =~= base + (flat(i as nat, self.durations_at()) + self.durations_at()(i as int)));
        }
        self.check_rates(&mut out);
        self.check_trucks(&mut out);
        self.check_crushers(&mut out);
        self.check_dumps(&mut out);
        self.check_values(&mut out);
        self.check_ground(&mut out);
        self.check_maxima(&mut out);
        out
    }
}

} // verus!
