//! The columns of a parcel model, known by what they stand for.
use vstd::prelude::*;

use crate::ledger::Key;
use crate::optimisation::ids::{DestinationId, GroundId, MaterialId, SourceId, StockpileId};

verus! {

/// Something that a stockpile gives up as a whole.
#[derive(Clone, Copy, Debug, PartialEq, Eq, Structural, PartialOrd, Ord, Hash)]
pub enum UnitKey {
    /// An opening lot, by its place.
    Opening { pile: StockpileId, opening: usize },
    /// What was received at one position of a cell.
    Receipt { pile: StockpileId, receipt_interval: usize, segment: usize, position: usize },
}

/// One material from one source, brought to a pile in a cell.
#[derive(Clone, Copy, Debug, PartialEq, Eq, Structural, PartialOrd, Ord, Hash)]
pub struct StreamKey {
    pub pile: StockpileId,
    pub interval: usize,
    pub segment: usize,
    pub source: SourceId,
    pub material: MaterialId,
}

/// Blocks come before stockpiles, each by its id.
pub open spec fn source_before(a: SourceId, b: SourceId) -> bool {
    match (a, b) {
        (SourceId::Ground(x), SourceId::Ground(y)) => x.0 < y.0,
        (SourceId::Ground(_), SourceId::Stockpile(_)) => true,
        (SourceId::Stockpile(_), SourceId::Ground(_)) => false,
        (SourceId::Stockpile(x), SourceId::Stockpile(y)) => x.0 < y.0,
    }
}

pub fn is_source_before(a: SourceId, b: SourceId) -> (r: bool)
    ensures
        r == source_before(a, b),
{
    match (a, b) {
        (SourceId::Ground(x), SourceId::Ground(y)) => x.0 < y.0,
        (SourceId::Ground(_), SourceId::Stockpile(_)) => true,
        (SourceId::Stockpile(_), SourceId::Ground(_)) => false,
        (SourceId::Stockpile(x), SourceId::Stockpile(y)) => x.0 < y.0,
    }
}

/// By pile, interval and segment, then by source and material.
impl Key for StreamKey {
    open spec fn before(self, other: Self) -> bool {
        self.pile.0 < other.pile.0 || (self.pile == other.pile && (self.interval < other.interval || (self.interval
            == other.interval && (self.segment < other.segment || (self.segment == other.segment && (source_before(
            self.source,
            other.source,
        ) || (self.source == other.source && self.material.0 < other.material.0)))))))
    }

    fn is_before(self, other: Self) -> (r: bool) {
        self.pile.0 < other.pile.0 || (self.pile == other.pile && (self.interval < other.interval || (self.interval
            == other.interval && (self.segment < other.segment || (self.segment == other.segment && (is_source_before(
            self.source,
            other.source,
        ) || (self.source == other.source && self.material.0 < other.material.0)))))))
    }

    fn is_key(self, other: Self) -> (r: bool) {
        self == other
    }

    proof fn key_laws(a: Self, b: Self, c: Self) {
    }
}

/// A column of the model.
#[derive(Clone, Copy, Debug, PartialEq, Eq, Structural, PartialOrd, Ord, Hash)]
pub enum ParcelColumn {
    /// How long a segment is.
    Duration { interval: usize, segment: usize },
    /// Tonnes left in a block after a segment.
    GroundRemaining { ground: GroundId, interval: usize, segment: usize },
    /// Whether a block is used up before a segment.
    GroundDone { ground: GroundId, interval: usize, segment: usize },
    /// Whether a task is worked on in a segment.
    TaskSelected { task: usize, interval: usize, segment: usize },
    /// Whether a task has work in a segment.
    TaskReady { task: usize, interval: usize, segment: usize },
    /// Whether a stage of a dig task is the one with work.
    StagePicked { task: usize, interval: usize, segment: usize, stage: usize },
    /// Tonnes dug at a stage.
    Dig { task: usize, interval: usize, segment: usize, stage: usize },
    /// Tonnes of a share of what is dug that take a route.
    DigMove { task: usize, interval: usize, segment: usize, stage: usize, share: usize, candidate: usize },
    /// Tonnes of a stream that fill a position.
    Quantity { stream: StreamKey, position: usize },
    /// Whether a stream has a position.
    Assigned { stream: StreamKey, position: usize },
    /// Whether a position holds what is left of a stream.
    Remainder { stream: StreamKey, position: usize },
    /// Tonnes reclaimed from a lot, by the place of its pile among the
    /// approved ones.
    ReclaimLot { task: usize, interval: usize, segment: usize, source: usize, opening: usize },
    /// Tonnes of a material reclaimed from a received unit.
    ReclaimReceipt { task: usize, interval: usize, segment: usize, source: usize, unit: UnitKey, material: MaterialId },
    /// Tonnes of a reclaim that take a route.
    ReclaimMove { reclaim: usize, candidate: usize },
    /// Whether so many positions of a cell of a pile are filled.
    OccupiedCount { pile: StockpileId, interval: usize, segment: usize, count: usize },
    /// Tonnes of a unit at the start of a segment.
    UnitStart { unit: UnitKey, interval: usize, segment: usize },
    /// Whether a unit is empty at the start of a segment.
    UnitEmpty { unit: UnitKey, interval: usize, segment: usize },
    /// Whether every unit before this one is empty.
    UnitChain { unit: UnitKey, interval: usize, segment: usize },
    /// Tonnes on a pile after a segment.
    PileClosing { pile: StockpileId, interval: usize, segment: usize },
    /// Whether a pile has anything to reclaim.
    PileAvailable { pile: StockpileId, interval: usize, segment: usize },
    /// Whether every unit of a pile is empty.
    ChainEnd { pile: StockpileId, interval: usize, segment: usize },
    /// Tonnes that a destination can still take.
    DestinationRemaining { destination: DestinationId, interval: usize, segment: usize },
    /// Whether a destination can still take anything.
    DestinationAvailable { destination: DestinationId, interval: usize, segment: usize },
    /// Whether a material dug at a stage has somewhere to go.
    RouteAvailable { task: usize, interval: usize, segment: usize, stage: usize, material: MaterialId },
}

/// Digging at a stage of a task in a cell.
#[derive(Clone, Copy, Debug, PartialEq, Eq, Structural)]
pub struct DigVariable {
    pub interval: usize,
    pub segment: usize,
    pub task: usize,
    pub stage: usize,
    pub source: GroundId,
}

/// A route taken in a cell.
#[derive(Clone, Copy, Debug, PartialEq, Eq, Structural)]
pub struct MoveVariable {
    pub interval: usize,
    pub segment: usize,
    pub task: usize,
    pub candidate: usize,
    pub source: SourceId,
    pub material: MaterialId,
    pub unit: Option<UnitKey>,
    pub column: ParcelColumn,
}

/// A position that a stream may fill.
#[derive(Clone, Copy, Debug, PartialEq, Eq, Structural)]
pub struct ParcelVariable {
    pub stream: StreamKey,
    pub position: usize,
}

/// What a cell of a pile receives.
#[derive(Clone, Copy, Debug, PartialEq, Eq, Structural)]
pub struct Group {
    pub pile: StockpileId,
    pub interval: usize,
    pub segment: usize,
    pub positions: usize,
}

/// Reclaiming one material of a unit in a cell. The materials of a lot share a
/// column.
#[derive(Clone, Copy, Debug)]
pub struct ReclaimVariable<N> {
    pub interval: usize,
    pub segment: usize,
    pub task: usize,
    pub source: StockpileId,
    pub unit: UnitKey,
    pub material: MaterialId,
    /// The place of the material among those that share the column.
    pub share: usize,
    pub fraction: N,
    pub column: ParcelColumn,
}

} // verus!
