//! What the parts of an optimisation are known by.
use vstd::prelude::*;

use crate::ledger::Key;

verus! {

#[derive(Clone, Copy, Debug, PartialEq, Eq, Structural, PartialOrd, Ord, Hash)]
pub struct LoaderId(pub u32);

#[derive(Clone, Copy, Debug, PartialEq, Eq, Structural, PartialOrd, Ord, Hash)]
pub struct TaskId(pub u32);

#[derive(Clone, Copy, Debug, PartialEq, Eq, Structural, PartialOrd, Ord, Hash)]
pub struct GroundId(pub u32);

#[derive(Clone, Copy, Debug, PartialEq, Eq, Structural, PartialOrd, Ord, Hash)]
pub struct StockpileId(pub u32);

#[derive(Clone, Copy, Debug, PartialEq, Eq, Structural, PartialOrd, Ord, Hash)]
pub struct LotId(pub u32);

#[derive(Clone, Copy, Debug, PartialEq, Eq, Structural, PartialOrd, Ord, Hash)]
pub struct MaterialId(pub u32);

#[derive(Clone, Copy, Debug, PartialEq, Eq, Structural, PartialOrd, Ord, Hash)]
pub struct DestinationId(pub u32);

#[derive(Clone, Copy, Debug, PartialEq, Eq, Structural, PartialOrd, Ord, Hash)]
pub struct TruckClassId(pub u32);

#[derive(Clone, Copy, Debug, PartialEq, Eq, Structural, PartialOrd, Ord, Hash)]
pub struct RoutingRuleId(pub u32);

#[derive(Clone, Copy, Debug, PartialEq, Eq, Structural, PartialOrd, Ord, Hash)]
pub struct CashflowRuleId(pub u32);

/// What a loader does.
#[derive(Clone, Copy, Debug, PartialEq, Eq, Structural, PartialOrd, Ord, Hash)]
pub enum Activity {
    Dig,
    Reclaim,
}

/// Which receipts a stockpile gives up first.
#[derive(Clone, Copy, Debug, PartialEq, Eq, Structural, PartialOrd, Ord, Hash)]
pub enum ReclaimOrder {
    Fifo,
    Lifo,
}

/// Where material is taken from.
#[derive(Clone, Copy, Debug, PartialEq, Eq, Structural, PartialOrd, Ord, Hash)]
pub enum SourceId {
    Ground(GroundId),
    Stockpile(StockpileId),
}

/// What a destination is.
#[derive(Clone, Copy, Debug, PartialEq, Eq, Structural, PartialOrd, Ord, Hash)]
pub enum DestinationKind {
    Crusher,
    Dump,
    Stockpile(StockpileId),
}

impl Key for StockpileId {
    open spec fn before(self, other: Self) -> bool {
        self.0 < other.0
    }

    fn is_before(self, other: Self) -> (r: bool) {
        self.0 < other.0
    }

    fn is_key(self, other: Self) -> (r: bool) {
        self == other
    }

    proof fn key_laws(a: Self, b: Self, c: Self) {
    }
}

impl Key for MaterialId {
    open spec fn before(self, other: Self) -> bool {
        self.0 < other.0
    }

    fn is_before(self, other: Self) -> (r: bool) {
        self.0 < other.0
    }

    fn is_key(self, other: Self) -> (r: bool) {
        self == other
    }

    proof fn key_laws(a: Self, b: Self, c: Self) {
    }
}

impl Key for GroundId {
    open spec fn before(self, other: Self) -> bool {
        self.0 < other.0
    }

    fn is_before(self, other: Self) -> (r: bool) {
        self.0 < other.0
    }

    fn is_key(self, other: Self) -> (r: bool) {
        self == other
    }

    proof fn key_laws(a: Self, b: Self, c: Self) {
    }
}

impl Key for DestinationId {
    open spec fn before(self, other: Self) -> bool {
        self.0 < other.0
    }

    fn is_before(self, other: Self) -> (r: bool) {
        self.0 < other.0
    }

    fn is_key(self, other: Self) -> (r: bool) {
        self == other
    }

    proof fn key_laws(a: Self, b: Self, c: Self) {
    }
}

} // verus!
