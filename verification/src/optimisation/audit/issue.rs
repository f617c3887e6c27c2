//! What an audit finds wrong.
use vstd::prelude::*;

use crate::optimisation::ids::{DestinationId, GroundId, LoaderId, StockpileId, TaskId, TruckClassId};
use crate::text::{decimal_digits, decimal_text};

verus! {

/// The kind of thing an audit finds wrong.
#[derive(Clone, Copy, Debug, PartialEq, Eq, Structural)]
pub enum IssueKind {
    /// A published number is not finite.
    NonFinite,
    /// An interval has no segment durations.
    MissingDurations { interval: usize },
    /// An interval has more or fewer durations than segments.
    DurationCount { found: usize, budget: usize },
    /// Segment durations leave the interval or do not fill it.
    DurationTotal { interval: usize },
    /// A loader works on more than one thing in a segment.
    SeveralSources { loader: LoaderId, interval: usize, segment: usize },
    /// A loader digs more than it can.
    DigRate { interval: usize, segment: usize },
    /// A loader reclaims more than it can.
    ReclaimRate { interval: usize, segment: usize },
    /// A truck class works more hours than a segment has.
    TruckShare { truck: TruckClassId, interval: usize, segment: usize },
    /// A crusher takes more than its day allows.
    CrusherDay { crusher: DestinationId, day: u64 },
    /// A dump takes more than it holds.
    DumpCapacity,
    /// A movement is not worth what its tonnes are.
    MovementValue,
    /// More is dug than there is.
    GroundOverdrawn { ground: GroundId },
    /// Material moved is not what was dug.
    Composition,
    /// A task reclaims more than it may.
    ReclaimMaximum,
    /// A loader works on something while an earlier task could be.
    OrderBypassed { loader: LoaderId, interval: usize, segment: usize, worked: TaskId, eligible: TaskId },
    /// A loader works with nothing to do.
    NoEligibleTask { loader: LoaderId, interval: usize, segment: usize },
    /// A stockpile gives up a unit out of order.
    ReclaimUnit { interval: usize, segment: usize },
    /// More is reclaimed from a unit than it holds.
    UnitOverdrawn,
    /// A unit is reclaimed before its release.
    UnreleasedUnit,
    /// A stockpile is below zero or above its capacity.
    PileOutside { pile: StockpileId, interval: usize, segment: usize },
    /// A published stockpile balance is off.
    PileClosing,
    /// A published ground balance is off.
    GroundClosing,
    /// A parcel is too small or too large.
    ParcelSize,
    /// A parcel is not released one interval after its receipt.
    ReleaseInterval,
    /// Parcels of a receipt are not numbered in order.
    Positions,
    /// Parcels do not hold what was received.
    ParcelTotal,
    /// A stream has more than one parcel under the target.
    SeveralRemainders,
    /// A parcel under the target is not the last of its stream.
    RemainderOrder,
    /// Streams are not spread evenly over the parcels.
    Interleaving,
    /// The reported objective is not the worth of the movements.
    Objective,
    /// The published objective is far from the solver's.
    SolverObjective,
}

/// Something wrong with a published result, and by how much.
#[derive(Clone, Copy, Debug)]
pub struct ValidationIssue<N> {
    pub kind: IssueKind,
    pub magnitude: N,
}

impl IssueKind {
    /// The issue in words.
    pub open spec fn words(self) -> Seq<char> {
        match self {
            IssueKind::NonFinite => "nonfinite solution value"@,
            IssueKind::MissingDurations { interval } => "missing segment durations for interval "@ + decimal_digits(interval as nat),
            IssueKind::DurationCount { found, budget } => "segment duration count "@ + decimal_digits(found as nat) + " does not match the budget "@ + decimal_digits(budget as nat),
            IssueKind::DurationTotal { interval } => "segment durations do not add up to interval "@ + decimal_digits(interval as nat),
            IssueKind::SeveralSources { loader, interval, segment } => "loader LoaderId("@ + decimal_digits(loader.0 as nat) + ") works several sources in interval "@ + decimal_digits(interval as nat) + " segment "@ + decimal_digits(segment as nat),
            IssueKind::DigRate { interval, segment } => "dig rate exceeded in interval "@ + decimal_digits(interval as nat) + " segment "@ + decimal_digits(segment as nat),
            IssueKind::ReclaimRate { interval, segment } => "reclaim rate exceeded in interval "@ + decimal_digits(interval as nat) + " segment "@ + decimal_digits(segment as nat),
            IssueKind::TruckShare { truck, interval, segment } => "truck TruckClassId("@ + decimal_digits(truck.0 as nat) + ") over its segment share in interval "@ + decimal_digits(interval as nat) + " segment "@ + decimal_digits(segment as nat),
            IssueKind::CrusherDay { crusher, day } => "crusher DestinationId("@ + decimal_digits(crusher.0 as nat) + ") day "@ + decimal_digits(day as nat) + " over budget"@,
            IssueKind::DumpCapacity => "dump capacity exceeded"@,
            IssueKind::MovementValue => "movement objective does not reconcile"@,
            IssueKind::GroundOverdrawn { ground } => "ground GroundId("@ + decimal_digits(ground.0 as nat) + ") overdrawn"@,
            IssueKind::Composition => "ground composition was not preserved"@,
            IssueKind::ReclaimMaximum => "reclaim bar maximum exceeded"@,
            IssueKind::OrderBypassed { loader, interval, segment, worked, eligible } => "authored order bypassed: loader LoaderId("@ + decimal_digits(loader.0 as nat) + ") interval "@ + decimal_digits(interval as nat) + " segment "@ + decimal_digits(segment as nat) + " worked Some(TaskId("@ + decimal_digits(worked.0 as nat) + ")) while task TaskId("@ + decimal_digits(eligible.0 as nat) + ") was eligible"@,
            IssueKind::NoEligibleTask { loader, interval, segment } => "loader LoaderId("@ + decimal_digits(loader.0 as nat) + ") worked in interval "@ + decimal_digits(interval as nat) + " segment "@ + decimal_digits(segment as nat) + " with no eligible task"@,
            IssueKind::ReclaimUnit { interval, segment } => "reclaim did not use the eligible FIFO/LIFO unit in interval "@ + decimal_digits(interval as nat) + " segment "@ + decimal_digits(segment as nat),
            IssueKind::UnitOverdrawn => "inventory unit overdrawn"@,
            IssueKind::UnreleasedUnit => "reclaim used an unreleased unit"@,
            IssueKind::PileOutside { pile, interval, segment } => "stockpile StockpileId("@ + decimal_digits(pile.0 as nat) + ") balance outside capacity in interval "@ + decimal_digits(interval as nat) + " segment "@ + decimal_digits(segment as nat),
            IssueKind::PileClosing => "stockpile closing balance does not reconcile"@,
            IssueKind::GroundClosing => "ground remaining balance does not reconcile"@,
            IssueKind::ParcelSize => "invalid receipt parcel size"@,
            IssueKind::ReleaseInterval => "receipt release is not next interval"@,
            IssueKind::Positions => "receipt positions are not contiguous"@,
            IssueKind::ParcelTotal => "receipt parcels do not reconcile with received tonnes"@,
            IssueKind::SeveralRemainders => "stream has several remainder parcels"@,
            IssueKind::RemainderOrder => "remainder parcel does not follow the stream's full parcels"@,
            IssueKind::Interleaving => "receipt interleaving discrepancy exceeded"@,
            IssueKind::Objective => "objective does not reconcile"@,
            IssueKind::SolverObjective => "published objective materially differs from the solver objective"@,
        }
    }

    /// Says what is wrong.
    pub fn message(self) -> (r: String)
        ensures
            r@ == self.words(),
    {
        match self {
            IssueKind::NonFinite => String::from_str("nonfinite solution value"),
            IssueKind::MissingDurations { interval } => String::from_str("missing segment durations for interval ").concat(decimal_text(interval as u64).as_str()),
            IssueKind::DurationCount { found, budget } => String::from_str("segment duration count ").concat(decimal_text(found as u64).as_str()).concat(" does not match the budget ").concat(decimal_text(budget as u64).as_str()),
            IssueKind::DurationTotal { interval } => String::from_str("segment durations do not add up to interval ").concat(decimal_text(interval as u64).as_str()),
            IssueKind::SeveralSources { loader, interval, segment } => String::from_str("loader LoaderId(").concat(decimal_text(loader.0 as u64).as_str()).concat(") works several sources in interval ").concat(decimal_text(interval as u64).as_str()).concat(" segment ").concat(decimal_text(segment as u64).as_str()),
            IssueKind::DigRate { interval, segment } => String::from_str("dig rate exceeded in interval ").concat(decimal_text(interval as u64).as_str()).concat(" segment ").concat(decimal_text(segment as u64).as_str()),
            IssueKind::ReclaimRate { interval, segment } => String::from_str("reclaim rate exceeded in interval ").concat(decimal_text(interval as u64).as_str()).concat(" segment ").concat(decimal_text(segment as u64).as_str()),
            IssueKind::TruckShare { truck, interval, segment } => String::from_str("truck TruckClassId(").concat(decimal_text(truck.0 as u64).as_str()).concat(") over its segment share in interval ").concat(decimal_text(interval as u64).as_str()).concat(" segment ").concat(decimal_text(segment as u64).as_str()),
            IssueKind::CrusherDay { crusher, day } => String::from_str("crusher DestinationId(").concat(decimal_text(crusher.0 as u64).as_str()).concat(") day ").concat(decimal_text(day as u64).as_str()).concat(" over budget"),
            IssueKind::DumpCapacity => String::from_str("dump capacity exceeded"),
            IssueKind::MovementValue => String::from_str("movement objective does not reconcile"),
            IssueKind::GroundOverdrawn { ground } => String::from_str("ground GroundId(").concat(decimal_text(ground.0 as u64).as_str()).concat(") overdrawn"),
            IssueKind::Composition => String::from_str("ground composition was not preserved"),
            IssueKind::ReclaimMaximum => String::from_str("reclaim bar maximum exceeded"),
            IssueKind::OrderBypassed { loader, interval, segment, worked, eligible } => String::from_str("authored order bypassed: loader LoaderId(").concat(decimal_text(loader.0 as u64).as_str()).concat(") interval ").concat(decimal_text(interval as u64).as_str()).concat(" segment ").concat(decimal_text(segment as u64).as_str()).concat(" worked Some(TaskId(").concat(decimal_text(worked.0 as u64).as_str()).concat(")) while task TaskId(").concat(decimal_text(eligible.0 as u64).as_str()).concat(") was eligible"),
            IssueKind::NoEligibleTask { loader, interval, segment } => String::from_str("loader LoaderId(").concat(decimal_text(loader.0 as u64).as_str()).concat(") worked in interval ").concat(decimal_text(interval as u64).as_str()).concat(" segment ").concat(decimal_text(segment as u64).as_str()).concat(" with no eligible task"),
            IssueKind::ReclaimUnit { interval, segment } => String::from_str("reclaim did not use the eligible FIFO/LIFO unit in interval ").concat(decimal_text(interval as u64).as_str()).concat(" segment ").concat(decimal_text(segment as u64).as_str()),
            IssueKind::UnitOverdrawn => String::from_str("inventory unit overdrawn"),
            IssueKind::UnreleasedUnit => String::from_str("reclaim used an unreleased unit"),
            IssueKind::PileOutside { pile, interval, segment } => String::from_str("stockpile StockpileId(").concat(decimal_text(pile.0 as u64).as_str()).concat(") balance outside capacity in interval ").concat(decimal_text(interval as u64).as_str()).concat(" segment ").concat(decimal_text(segment as u64).as_str()),
            IssueKind::PileClosing => String::from_str("stockpile closing balance does not reconcile"),
            IssueKind::GroundClosing => String::from_str("ground remaining balance does not reconcile"),
            IssueKind::ParcelSize => String::from_str("invalid receipt parcel size"),
            IssueKind::ReleaseInterval => String::from_str("receipt release is not next interval"),
            IssueKind::Positions => String::from_str("receipt positions are not contiguous"),
            IssueKind::ParcelTotal => String::from_str("receipt parcels do not reconcile with received tonnes"),
            IssueKind::SeveralRemainders => String::from_str("stream has several remainder parcels"),
            IssueKind::RemainderOrder => String::from_str("remainder parcel does not follow the stream's full parcels"),
            IssueKind::Interleaving => String::from_str("receipt interleaving discrepancy exceeded"),
            IssueKind::Objective => String::from_str("objective does not reconcile"),
            IssueKind::SolverObjective => String::from_str("published objective materially differs from the solver objective"),
        }
    }
}

} // verus!
