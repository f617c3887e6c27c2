//! What an optimisation gives back.
use vstd::prelude::*;

use crate::ledger::{Key, Ledger, Pair};
use crate::optimisation::ids::{
    Activity, DestinationId, LoaderId, LotId, MaterialId, RoutingRuleId, SourceId, StockpileId, TaskId, TruckClassId,
};
use crate::optimisation::input::{CashflowContribution, NumericalTolerances};

verus! {

/// How a solve ended.
#[derive(Clone, Copy, Debug, PartialEq, Eq, Structural)]
pub enum SolveStatus {
    Optimal,
    FeasibleLimit,
    Infeasible,
    LimitNoIncumbent,
    Unbounded,
    Cancelled,
    BackendFailure,
}

/// The size of the model that was solved.
#[derive(Clone, Copy, Debug, PartialEq, Eq, Structural)]
pub struct SolveStatistics {
    pub variables: usize,
    pub binaries: usize,
    pub constraints: usize,
}

#[derive(Clone, Debug)]
pub struct SolveSummary<N> {
    pub status: SolveStatus,
    pub objective: Option<N>,
    pub raw_solver_objective: Option<N>,
    pub best_bound: Option<N>,
    pub relative_gap: Option<N>,
    pub message: Option<String>,
    pub tie_preferences_applied: bool,
    pub statistics: SolveStatistics,
}

/// A loader at work on a source.
#[derive(Clone, Copy, Debug)]
pub struct ActivityRecord<N> {
    pub interval: usize,
    pub segment: usize,
    pub loader: LoaderId,
    pub task: TaskId,
    pub activity: Activity,
    pub source: SourceId,
    pub tonnes_t: N,
}

/// Material moved from a source to a destination.
#[derive(Clone, Debug)]
pub struct MovementRecord<N> {
    pub interval: usize,
    pub segment: usize,
    pub loader: LoaderId,
    pub task: TaskId,
    pub source: SourceId,
    pub material: MaterialId,
    pub destination: DestinationId,
    pub truck: TruckClassId,
    pub tonnes_t: N,
    pub truck_hours: N,
    pub routing_rule: RoutingRuleId,
    pub cashflow: Vec<CashflowContribution<N>>,
    pub value: N,
}

/// Material received by a stockpile, released to be reclaimed later.
#[derive(Clone, Copy, Debug)]
pub struct ReceiptParcel<N> {
    pub stockpile: StockpileId,
    pub receipt_interval: usize,
    pub segment: usize,
    pub release_interval: usize,
    pub position: usize,
    pub source: SourceId,
    pub material: MaterialId,
    pub tonnes_t: N,
}

/// Something a stockpile gives up as a whole.
#[derive(Clone, Copy, Debug, PartialEq, Eq, Structural, PartialOrd, Ord, Hash)]
pub enum InventoryUnit {
    Opening(LotId),
    Receipt { interval: usize, segment: usize, position: usize },
}

/// Opening lots come before receipts; receipts go by interval, segment and position.
impl Key for InventoryUnit {
    open spec fn before(self, other: Self) -> bool {
        match (self, other) {
            (InventoryUnit::Opening(a), InventoryUnit::Opening(b)) => a.0 < b.0,
            (InventoryUnit::Opening(_), InventoryUnit::Receipt { .. }) => true,
            (InventoryUnit::Receipt { .. }, InventoryUnit::Opening(_)) => false,
            (
                InventoryUnit::Receipt { interval: i, segment: s, position: p },
                InventoryUnit::Receipt { interval: j, segment: t, position: q },
            ) => i < j || (i == j && (s < t || (s == t && p < q))),
        }
    }

    fn is_before(self, other: Self) -> (r: bool) {
        match (self, other) {
            (InventoryUnit::Opening(a), InventoryUnit::Opening(b)) => a.0 < b.0,
            (InventoryUnit::Opening(_), InventoryUnit::Receipt { .. }) => true,
            (InventoryUnit::Receipt { .. }, InventoryUnit::Opening(_)) => false,
            (
                InventoryUnit::Receipt { interval: i, segment: s, position: p },
                InventoryUnit::Receipt { interval: j, segment: t, position: q },
            ) => i < j || (i == j && (s < t || (s == t && p < q))),
        }
    }

    fn is_key(self, other: Self) -> (r: bool) {
        self == other
    }

    proof fn key_laws(a: Self, b: Self, c: Self) {
    }
}

/// A stockpile and a unit of it.
pub type HeldUnit = Pair<StockpileId, InventoryUnit>;

#[derive(Clone, Copy, Debug)]
pub struct ReclaimRecord<N> {
    pub interval: usize,
    pub segment: usize,
    pub loader: LoaderId,
    pub task: TaskId,
    pub stockpile: StockpileId,
    pub unit: InventoryUnit,
    pub tonnes_t: N,
}

/// What is left, held and received at the end of an interval. Crusher days are
/// keyed by the crusher and the day together.
#[derive(Clone, Debug)]
pub struct BalanceRecord<N> {
    pub interval: usize,
    pub ground_remaining_t: Ledger<u64, N>,
    pub stockpile_closing_t: Ledger<u64, N>,
    pub destination_cumulative_t: Ledger<u64, N>,
    pub crusher_daily_used_t: Ledger<u64, N>,
}

/// How finely the horizon was resolved.
#[derive(Clone, Debug)]
pub struct ResolutionMetadata<N> {
    pub horizon_h: N,
    pub regular_step_h: N,
    pub parcel_target_t: N,
    pub segment_counts: Vec<usize>,
    pub segment_ceiling: usize,
    pub interval_edges_h: Vec<N>,
    pub inventory_dust_t: N,
    pub tolerances: NumericalTolerances<N>,
}

/// How far publishing moved numbers to make them add up.
#[derive(Clone, Copy, Debug)]
pub struct PublicationAudit<N> {
    pub dig_rows_snapped: usize,
    pub dig_max_adjustment_t: N,
    pub dig_total_adjustment_t: N,
    pub reclaim_rows_snapped: usize,
    pub reclaim_max_adjustment_t: N,
    pub reclaim_total_adjustment_t: N,
    pub parcel_max_adjustment_t: N,
    pub parcel_total_adjustment_t: N,
    pub max_capacity_excess_t: N,
    pub objective_adjustment: N,
}

#[derive(Clone, Debug)]
pub struct OptimisationResult<N> {
    pub summary: SolveSummary<N>,
    pub resolution: ResolutionMetadata<N>,
    pub segment_durations_h: Vec<Vec<N>>,
    pub used_segments: Vec<usize>,
    pub event_budget_restricted: bool,
    pub publication_audit: PublicationAudit<N>,
    pub activities: Vec<ActivityRecord<N>>,
    pub movements: Vec<MovementRecord<N>>,
    pub parcels: Vec<ReceiptParcel<N>>,
    pub reclaims: Vec<ReclaimRecord<N>>,
    pub balances: Vec<BalanceRecord<N>>,
}

} // verus!
