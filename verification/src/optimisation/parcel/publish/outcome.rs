//! The result of a parcel model: read off its columns, or empty.
use vstd::prelude::*;

use crate::listing::{count_to, count_within, first_where, sum_to};
use crate::optimisation::parcel::base::Parcels;
use crate::optimisation::parcel::budget::{metadata, resolved};
use crate::optimisation::parcel::columns::ParcelColumn;
use crate::optimisation::parcel::lists::Lists;
use crate::optimisation::parcel::publish::balances::Published;
use crate::optimisation::parcel::publish::receipts::Reading;
use crate::optimisation::result::{
    MovementRecord, OptimisationResult, PublicationAudit, SolveStatistics, SolveStatus, SolveSummary,
};
use crate::scalar::Scalar;

verus! {

pub open spec fn is_column(columns: Seq<ParcelColumn>, column: ParcelColumn) -> spec_fn(int) -> bool {
    |k: int| columns[k] == column
}

/// The value of a column; zero where it is not declared.
pub open spec fn value_of<N: Scalar>(columns: Seq<ParcelColumn>, values: Seq<N>, column: ParcelColumn) -> N {
    match first_where(0, columns.len() as int, is_column(columns, column)) {
        Some(k) => values[k],
        None => N::of_whole(0),
    }
}

fn find_value<N: Scalar>(columns: &Vec<ParcelColumn>, values: &Vec<N>, column: ParcelColumn) -> (r: N)
    requires
        columns@.len() == values@.len(),
    ensures
        r == value_of(columns@, values@, column),
{
    let ghost p = is_column(columns@, column);
    for k in 0..columns.len()
        invariant
            columns@.len() == values@.len(),
            p == is_column(columns@, column),
            first_where(0, columns@.len() as int, p) == first_where(k as int, columns@.len() as int, p),
    {
        if columns[k] == column {
            return values[k];
        }
    }
    N::whole(0)
}

/// Durations that count as more than nothing.
pub open spec fn lasting<N: Scalar>(durations: Seq<N>) -> spec_fn(int) -> bool {
    |s: int| N::of_decimal(1, 6).below(durations[s])
}

/// How many segments of each interval last.
pub fn count_used<N: Scalar>(durations: &Vec<Vec<N>>) -> (r: Vec<usize>)
    ensures
        r@.len() == durations@.len(),
        forall|i: int|
            0 <= i < r@.len() ==> (#[trigger] r@[i]) == count_to(durations@[i]@.len(), lasting(durations@[i]@)),
{
    let mut out: Vec<usize> = Vec::new();
    let least = N::decimal(1, 6);
    for i in 0..durations.len()
        invariant
            least == N::of_decimal(1, 6),
            out@.len() == i,
            forall|q: int|
                0 <= q < out@.len() ==> (#[trigger] out@[q]) == count_to(durations@[q]@.len(), lasting(durations@[q]@)),
    {
        let row = &durations[i];
        let mut count: usize = 0;
        let ghost p = lasting(row@);
        for s in 0..row.len()
            invariant
                least == N::of_decimal(1, 6),
                p == lasting(row@),
                count == count_to(s as nat, p),
        {
            proof {
                count_within(s as nat, p);
            }
            if least.is_below(row[s]) {
                count += 1;
            }
        }
        out.push(count);
    }
    out
}

pub open spec fn value_part<N: Scalar>(records: Seq<MovementRecord<N>>) -> spec_fn(int) -> Option<N> {
    |j: int| Some(records[j].value)
}

/// What the published movements are worth.
pub open spec fn published_worth<N: Scalar>(records: Seq<MovementRecord<N>>) -> N {
    sum_to(records.len(), value_part(records))
}

fn find_published_worth<N: Scalar>(records: &Vec<MovementRecord<N>>) -> (r: N)
    ensures
        r == published_worth(records@),
{
    let mut total = N::whole(0);
    for j in 0..records.len()
        invariant
            total == sum_to(j as nat, value_part(records@)),
    {
        total = total.add(records[j].value);
    }
    total
}

/// What a solver says of a solution.
#[derive(Clone, Copy, Debug)]
pub struct Verdict<N> {
    pub status: SolveStatus,
    pub bound: Option<N>,
    pub gap: N,
    pub preferred: bool,
    pub statistics: SolveStatistics,
}

/// Nothing was moved.
pub open spec fn no_audit<N: Scalar>() -> PublicationAudit<N> {
    PublicationAudit {
        dig_rows_snapped: 0,
        dig_max_adjustment_t: N::of_whole(0),
        dig_total_adjustment_t: N::of_whole(0),
        reclaim_rows_snapped: 0,
        reclaim_max_adjustment_t: N::of_whole(0),
        reclaim_total_adjustment_t: N::of_whole(0),
        parcel_max_adjustment_t: N::of_whole(0),
        parcel_total_adjustment_t: N::of_whole(0),
        max_capacity_excess_t: N::of_whole(0),
        objective_adjustment: N::of_whole(0),
    }
}

/// Every segment takes no time.
pub open spec fn idle<N: Scalar>(budgets: Seq<usize>, durations: Seq<Vec<N>>) -> bool {
    &&& durations.len() == budgets.len()
    &&& forall|i: int|
        0 <= i < durations.len() ==> (#[trigger] durations[i])@ == Seq::new(budgets[i] as nat, |s: int| N::of_whole(0))
}

impl<'a, N: Scalar> Parcels<'a, N> {
    /// A reading holds the values of the columns that the lists stand for.
    pub open spec fn reads(self, columns: Seq<ParcelColumn>, values: Seq<N>, reading: Reading<N>) -> bool {
        &&& self.read(reading)
        &&& forall|i: int, s: int|
            0 <= i < reading.durations@.len() && 0 <= s < self.segments(i) ==> #[trigger] reading.durations@[i]@[s]
                == value_of(columns, values, ParcelColumn::Duration { interval: i as usize, segment: s as usize })
        &&& forall|x: int|
            0 <= x < reading.digs@.len() ==> (#[trigger] reading.digs@[x]) == value_of(
                columns,
                values,
                ParcelColumn::Dig {
                    task: self.digs()[x].task,
                    interval: self.digs()[x].interval,
                    segment: self.digs()[x].segment,
                    stage: self.digs()[x].stage,
                },
            )
        &&& forall|x: int|
            0 <= x < reading.moves@.len() ==> (#[trigger] reading.moves@[x]) == value_of(
                columns,
                values,
                self.moves()[x].column,
            )
        &&& forall|x: int|
            0 <= x < reading.quantities@.len() ==> (#[trigger] reading.quantities@[x]) == value_of(
                columns,
                values,
                ParcelColumn::Quantity { stream: self.parcels()[x].stream, position: self.parcels()[x].position },
            )
        &&& forall|x: int|
            0 <= x < reading.reclaims@.len() ==> (#[trigger] reading.reclaims@[x]) == value_of(
                columns,
                values,
                self.reclaims()[x].column,
            )
    }

    /// Reads the values of a solved model.
    pub fn gather(&self, lists: &Lists<N>, columns: &Vec<ParcelColumn>, values: &Vec<N>) -> (r: Reading<N>)
        requires
            self.ready(),
            self.listed(*lists),
            columns@.len() == values@.len(),
        ensures
            self.reads(columns@, values@, r),
    {
        let mut durations: Vec<Vec<N>> = Vec::new();
        for i in 0..self.input.intervals.len()
            invariant
                self.ready(),
                columns@.len() == values@.len(),
                durations@.len() == i,
                forall|q: int| 0 <= q < i ==> (#[trigger] durations@[q])@.len() == self.segments(q),
                forall|q: int, s: int|
                    0 <= q < i && 0 <= s < self.segments(q) ==> #[trigger] durations@[q]@[s] == value_of(
                        columns@,
                        values@,
                        ParcelColumn::Duration { interval: q as usize, segment: s as usize },
                    ),
        {
            let count: usize = self.budgets[i];
            let mut row: Vec<N> = Vec::new();
            for s in 0..count
                invariant
                    columns@.len() == values@.len(),
                    row@.len() == s,
                    forall|t: int|
                        0 <= t < s ==> #[trigger] row@[t] == value_of(
                            columns@,
                            values@,
                            ParcelColumn::Duration { interval: i, segment: t as usize },
                        ),
            {
                row.push(find_value(columns, values, ParcelColumn::Duration { interval: i, segment: s }));
            }
            durations.push(row);
        }
        let mut digs: Vec<N> = Vec::new();
        for x in 0..lists.digs.len()
            invariant
                self.listed(*lists),
                columns@.len() == values@.len(),
                digs@.len() == x,
                forall|q: int|
                    0 <= q < x ==> (#[trigger] digs@[q]) == value_of(
                        columns@,
                        values@,
                        ParcelColumn::Dig {
                            task: self.digs()[q].task,
                            interval: self.digs()[q].interval,
                            segment: self.digs()[q].segment,
                            stage: self.digs()[q].stage,
                        },
                    ),
        {
            let dig = lists.digs[x];
            digs.push(
                find_value(
                    columns,
                    values,
                    ParcelColumn::Dig {
                        task: dig.task,
                        interval: dig.interval,
                        segment: dig.segment,
                        stage: dig.stage,
                    },
                ),
            );
        }
        let mut moves: Vec<N> = Vec::new();
        for x in 0..lists.moves.len()
            invariant
                self.listed(*lists),
                columns@.len() == values@.len(),
                moves@.len() == x,
                forall|q: int|
                    0 <= q < x ==> (#[trigger] moves@[q]) == value_of(columns@, values@, self.moves()[q].column),
        {
            moves.push(find_value(columns, values, lists.moves[x].column));
        }
        let mut quantities: Vec<N> = Vec::new();
        for x in 0..lists.parcels.len()
            invariant
                self.listed(*lists),
                columns@.len() == values@.len(),
                quantities@.len() == x,
                forall|q: int|
                    0 <= q < x ==> (#[trigger] quantities@[q]) == value_of(
                        columns@,
                        values@,
                        ParcelColumn::Quantity {
                            stream: self.parcels()[q].stream,
                            position: self.parcels()[q].position,
                        },
                    ),
        {
            let parcel = lists.parcels[x];
            quantities.push(
                find_value(
                    columns,
                    values,
                    ParcelColumn::Quantity { stream: parcel.stream, position: parcel.position },
                ),
            );
        }
        let mut reclaims: Vec<N> = Vec::new();
        for x in 0..lists.reclaims.len()
            invariant
                self.listed(*lists),
                columns@.len() == values@.len(),
                reclaims@.len() == x,
                forall|q: int|
                    0 <= q < x ==> (#[trigger] reclaims@[q]) == value_of(columns@, values@, self.reclaims()[q].column),
        {
            reclaims.push(find_value(columns, values, lists.reclaims[x].column));
        }
        Reading { durations, digs, moves, quantities, reclaims }
    }

    /// How far publishing moves a reading.
    pub open spec fn audited(self, reading: Reading<N>, result: OptimisationResult<N>) -> PublicationAudit<N> {
        let digs = self.dig_books(reading).shifts;
        let receipts = self.published_parcels(reading);
        let reclaims = self.published_reclaims(reading, receipts.parcels, receipts.table).shifts;
        PublicationAudit {
            dig_rows_snapped: digs.count,
            dig_max_adjustment_t: digs.most,
            dig_total_adjustment_t: digs.total,
            reclaim_rows_snapped: reclaims.count,
            reclaim_max_adjustment_t: reclaims.most,
            reclaim_total_adjustment_t: reclaims.total,
            parcel_max_adjustment_t: self.parcel_books(reading).most,
            parcel_total_adjustment_t: self.parcel_books(reading).total,
            max_capacity_excess_t: self.excess(
                result.activities@,
                result.movements@,
                result.reclaims@,
                reading.durations@,
            ),
            objective_adjustment: self.raw_objective(reading).minus(published_worth(result.movements@)),
        }
    }

    /// A result is what a reading says, as a solver judges it.
    pub open spec fn tells(self, reading: Reading<N>, verdict: Verdict<N>, result: OptimisationResult<N>) -> bool {
        let receipts = self.published_parcels(reading);
        &&& self.moves_published(reading, result.movements@)
        &&& result.parcels@ == receipts.parcels
        &&& result.reclaims@ == self.published_reclaims(reading, receipts.parcels, receipts.table).rows
        &&& result.activities@ == self.published_activities(self.published_digs(reading), result.reclaims@)
        &&& result.balances@.len() == self.horizon()
        &&& forall|i: int|
            0 <= i < result.balances@.len() ==> self.balanced(
                result.activities@,
                result.movements@,
                result.reclaims@,
                i,
                #[trigger] result.balances@[i],
            )
        &&& result.segment_durations_h == reading.durations
        &&& result.used_segments@.len() == reading.durations@.len()
        &&& forall|i: int|
            0 <= i < result.used_segments@.len() ==> (#[trigger] result.used_segments@[i]) == count_to(
                reading.durations@[i]@.len(),
                lasting(reading.durations@[i]@),
            )
        &&& result.event_budget_restricted == self.restricted(result.activities@, result.parcels@, result.reclaims@)
        &&& result.publication_audit == self.audited(reading, result)
        &&& resolved(*self.input, self.budgets@, result.resolution)
        &&& result.summary.status == verdict.status
        &&& result.summary.objective == Some(published_worth(result.movements@))
        &&& result.summary.raw_solver_objective == Some(self.raw_objective(reading))
        &&& result.summary.best_bound == verdict.bound
        &&& result.summary.relative_gap == (if verdict.gap.finite() {
            Some(verdict.gap)
        } else {
            None
        })
        &&& result.summary.message is None
        &&& result.summary.tie_preferences_applied == verdict.preferred
        &&& result.summary.statistics == verdict.statistics
    }

    /// The result that a solution gives.
    pub fn publish(&self, lists: &Lists<N>, reading: Reading<N>, verdict: Verdict<N>) -> (r: OptimisationResult<N>)
        requires
            self.ready(),
            self.listed(*lists),
            self.read(reading),
        ensures
            self.tells(reading, verdict, r),
    {
        let raw = self.find_raw_objective(lists, &reading);
        let movements = self.publish_moves(lists, &reading);
        let worth = find_published_worth(&movements);
        let (parcels, table, parcel_most, parcel_total) = self.publish_parcels(lists, &reading);
        let (digs, dig_shifts) = self.publish_digs(lists, &reading);
        let (reclaims, reclaim_shifts) = self.publish_reclaims(lists, &reading, &parcels, &table);
        let activities = self.publish_activities(&digs, &reclaims);
        let used_segments = count_used(&reading.durations);
        let published = Published {
            activities: &activities,
            movements: &movements,
            parcels: &parcels,
            reclaims: &reclaims,
            durations: &reading.durations,
        };
        let event_budget_restricted: bool = self.is_restricted(&published);
        let balances = self.publish_balances(&published);
        let excess = self.find_excess(&published);
        let publication_audit = PublicationAudit {
            dig_rows_snapped: dig_shifts.count,
            dig_max_adjustment_t: dig_shifts.most,
            dig_total_adjustment_t: dig_shifts.total,
            reclaim_rows_snapped: reclaim_shifts.count,
            reclaim_max_adjustment_t: reclaim_shifts.most,
            reclaim_total_adjustment_t: reclaim_shifts.total,
            parcel_max_adjustment_t: parcel_most,
            parcel_total_adjustment_t: parcel_total,
            max_capacity_excess_t: excess,
            objective_adjustment: raw.sub(worth),
        };
        let relative_gap = if verdict.gap.is_finite() {
            Some(verdict.gap)
        } else {
            None
        };
        OptimisationResult {
            summary: SolveSummary {
                status: verdict.status,
                objective: Some(worth),
                raw_solver_objective: Some(raw),
                best_bound: verdict.bound,
                relative_gap,
                message: None,
                tie_preferences_applied: verdict.preferred,
                statistics: verdict.statistics,
            },
            resolution: metadata(self.input, self.budgets),
            segment_durations_h: reading.durations,
            used_segments,
            event_budget_restricted,
            publication_audit,
            activities,
            movements,
            parcels,
            reclaims,
            balances,
        }
    }

    /// A result that holds nothing but how the solve ended.
    pub open spec fn holds_nothing(
        self,
        status: SolveStatus,
        message: Option<String>,
        statistics: SolveStatistics,
        result: OptimisationResult<N>,
    ) -> bool {
        &&& result.summary == (SolveSummary::<N> {
            status,
            objective: None,
            raw_solver_objective: None,
            best_bound: None,
            relative_gap: None,
            message,
            tie_preferences_applied: false,
            statistics,
        })
        &&& resolved(*self.input, self.budgets@, result.resolution)
        &&& idle(self.budgets@, result.segment_durations_h@)
        &&& result.used_segments@ == Seq::new(self.budgets@.len(), |i: int| 0usize)
        &&& !result.event_budget_restricted
        &&& result.publication_audit == no_audit::<N>()
        &&& result.activities@.len() == 0
        &&& result.movements@.len() == 0
        &&& result.parcels@.len() == 0
        &&& result.reclaims@.len() == 0
        &&& result.balances@.len() == 0
    }

    /// The result of a solve that found nothing.
    pub fn empty_result(&self, status: SolveStatus, message: Option<String>, statistics: SolveStatistics) -> (r:
        OptimisationResult<N>)
        ensures
            self.holds_nothing(status, message, statistics, r),
    {
        let mut durations: Vec<Vec<N>> = Vec::new();
        let mut used_segments: Vec<usize> = Vec::new();
        for i in 0..self.budgets.len()
            invariant
                durations@.len() == i,
                forall|q: int|
                    0 <= q < i ==> (#[trigger] durations@[q])@ == Seq::new(
                        self.budgets@[q] as nat,
                        |s: int| N::of_whole(0),
                    ),
                used_segments@ =~= Seq::new(i as nat, |i: int| 0usize),
        {
            let count: usize = self.budgets[i];
            let mut row: Vec<N> = Vec::new();
            for s in 0..count
                invariant
                    row@ =~= Seq::new(s as nat, |s: int| N::of_whole(0)),
            {
                row.push(N::whole(0));
            }
            assert(row@ =~= Seq::new(self.budgets@[i as int] as nat, |s: int| N::of_whole(0)));
            durations.push(row);
            used_segments.push(0);
        }
        let zero = N::whole(0);
        OptimisationResult {
            summary: SolveSummary {
                status,
                objective: None,
                raw_solver_objective: None,
                best_bound: None,
                relative_gap: None,
                message,
                tie_preferences_applied: false,
                statistics,
            },
            resolution: metadata(self.input, self.budgets),
            segment_durations_h: durations,
            used_segments,
            event_budget_restricted: false,
            publication_audit: PublicationAudit {
                dig_rows_snapped: 0,
                dig_max_adjustment_t: zero,
                dig_total_adjustment_t: zero,
                reclaim_rows_snapped: 0,
                reclaim_max_adjustment_t: zero,
                reclaim_total_adjustment_t: zero,
                parcel_max_adjustment_t: zero,
                parcel_total_adjustment_t: zero,
                max_capacity_excess_t: zero,
                objective_adjustment: zero,
            },
            activities: Vec::new(),
            movements: Vec::new(),
            parcels: Vec::new(),
            reclaims: Vec::new(),
            balances: Vec::new(),
        }
    }
}

} // verus!
