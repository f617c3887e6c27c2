//! The columns of a blended model.
use vstd::prelude::*;

use crate::ledger::{put_under, Ledger, Pair};
use crate::optimisation::ids::StockpileId;

verus! {

/// A column of the model, known by what it stands for.
#[derive(Clone, Copy, Debug, PartialEq, Eq, Structural, PartialOrd, Ord, Hash)]
pub enum Column {
    /// How long a segment is.
    Duration { interval: usize, segment: usize },
    /// Tonnes that a candidate moves in a segment.
    Movement { candidate: usize, interval: usize, segment: usize },
    /// Whether a loader works on a task in a segment.
    Active { loader: usize, task: usize, interval: usize, segment: usize },
    /// Whether a task has work for its loader in a segment.
    Ready { loader: usize, task: usize, interval: usize, segment: usize },
    /// Tonnes left in a block after a segment.
    GroundRemaining { source: usize, interval: usize, segment: usize },
    /// Tonnes dug from a block in a segment.
    Extract { source: usize, interval: usize, segment: usize },
    /// Whether a block is used up after a cell.
    Exhausted { source: usize, position: usize },
    /// Tonnes on a pile at the start of an interval.
    OpenT { pile: StockpileId, interval: usize },
    /// What a pile holds of a grade at the start of an interval.
    OpenQ { pile: StockpileId, interval: usize, grade: usize },
    /// Tonnes taken from a pile in an interval.
    ReclT { pile: StockpileId, interval: usize },
    /// What is taken from a pile of a grade in an interval.
    ReclQ { pile: StockpileId, interval: usize, grade: usize },
    ChunkOpenT { pile: StockpileId, chunk: usize, interval: usize },
    ChunkOpenQ { pile: StockpileId, chunk: usize, interval: usize, grade: usize },
    ChunkReclT { pile: StockpileId, chunk: usize, interval: usize },
    ChunkReclQ { pile: StockpileId, chunk: usize, interval: usize, grade: usize },
    ChunkClosed { pile: StockpileId, chunk: usize, interval: usize },
    ChunkEmpty { pile: StockpileId, chunk: usize, interval: usize },
    /// Tonnes that a candidate brings to a chunk in an interval.
    ChunkRecv { pile: StockpileId, chunk: usize, interval: usize, candidate: usize },
    /// Whether a pile holds anything at the start of an interval.
    Stock { pile: StockpileId, interval: usize },
    /// Whether a task has reclaimed all it may before a cell.
    CapGone { loader: usize, task: usize, position: usize },
    /// Whether a qualified route is used in an interval.
    Eligible { qualification: usize, interval: usize },
    /// Whether a route is used under one of its alternatives.
    Picked { qualification: usize, interval: usize, alternative: usize },
    /// Whether a payment's ranges hold in an interval.
    Truth { payment: usize, interval: usize },
    /// Whether one side of a payment's ranges holds.
    Part { payment: usize, interval: usize, side: usize },
    /// Whether one side of a payment's ranges fails.
    Counterpart { payment: usize, interval: usize, side: usize },
    /// Tonnes that a payment is made for.
    Paid { payment: usize, interval: usize, segment: usize },
    /// Whether a loader reclaims from a pile in a segment.
    SourcePicked { loader: usize, pile: StockpileId, interval: usize, segment: usize },
}

pub type Line<N> = crate::optimisation::sheet::Line<Column, N>;

pub type Entry<N> = crate::optimisation::sheet::Entry<Column, N>;

pub type Sheet<N> = crate::optimisation::sheet::Sheet<Column, N>;

/// What was read for the columns that a solution is made of, by what they
/// stand for.
#[derive(Clone, Debug)]
pub struct BlendColumns<V> {
    /// By interval and segment.
    pub duration: Ledger<Pair<usize, usize>, V>,
    /// By candidate, interval and segment.
    pub movement: Ledger<Pair<usize, Pair<usize, usize>>, V>,
    /// By pile, chunk and interval.
    pub chunk_open_t: Ledger<Pair<StockpileId, Pair<usize, usize>>, V>,
    pub chunk_recl_t: Ledger<Pair<StockpileId, Pair<usize, usize>>, V>,
    pub chunk_closed: Ledger<Pair<StockpileId, Pair<usize, usize>>, V>,
    /// By pile, chunk, interval and candidate.
    pub chunk_recv: Ledger<Pair<StockpileId, Pair<usize, Pair<usize, usize>>>, V>,
}

impl<V> BlendColumns<V> {
    /// Nothing read yet.
    pub fn new() -> (r: Self)
        ensures
            r.duration@.len() == 0,
            r.movement@.len() == 0,
            r.chunk_open_t@.len() == 0,
            r.chunk_recl_t@.len() == 0,
            r.chunk_closed@.len() == 0,
            r.chunk_recv@.len() == 0,
    {
        BlendColumns {
            duration: Ledger::new(),
            movement: Ledger::new(),
            chunk_open_t: Ledger::new(),
            chunk_recl_t: Ledger::new(),
            chunk_closed: Ledger::new(),
            chunk_recv: Ledger::new(),
        }
    }

    /// Files what was read for a column; other columns are passed over.
    pub fn record(&mut self, column: Column, value: V)
        ensures
            final(self).duration@ == (match column {
                Column::Duration { interval, segment } => put_under(
                    old(self).duration@,
                    Pair(interval, segment),
                    value,
                ),
                _ => old(self).duration@,
            }),
            final(self).movement@ == (match column {
                Column::Movement { candidate, interval, segment } => put_under(
                    old(self).movement@,
                    Pair(candidate, Pair(interval, segment)),
                    value,
                ),
                _ => old(self).movement@,
            }),
            final(self).chunk_open_t@ == (match column {
                Column::ChunkOpenT { pile, chunk, interval } => put_under(
                    old(self).chunk_open_t@,
                    Pair(pile, Pair(chunk, interval)),
                    value,
                ),
                _ => old(self).chunk_open_t@,
            }),
            final(self).chunk_recl_t@ == (match column {
                Column::ChunkReclT { pile, chunk, interval } => put_under(
                    old(self).chunk_recl_t@,
                    Pair(pile, Pair(chunk, interval)),
                    value,
                ),
                _ => old(self).chunk_recl_t@,
            }),
            final(self).chunk_closed@ == (match column {
                Column::ChunkClosed { pile, chunk, interval } => put_under(
                    old(self).chunk_closed@,
                    Pair(pile, Pair(chunk, interval)),
                    value,
                ),
                _ => old(self).chunk_closed@,
            }),
            final(self).chunk_recv@ == (match column {
                Column::ChunkRecv { pile, chunk, interval, candidate } => put_under(
                    old(self).chunk_recv@,
                    Pair(pile, Pair(chunk, Pair(interval, candidate))),
                    value,
                ),
                _ => old(self).chunk_recv@,
            }),
    {
        match column {
            Column::Duration { interval, segment } => self.duration.put(Pair(interval, segment), value),
            Column::Movement { candidate, interval, segment } => self.movement.put(
                Pair(candidate, Pair(interval, segment)),
                value,
            ),
            Column::ChunkOpenT { pile, chunk, interval } => self.chunk_open_t.put(
                Pair(pile, Pair(chunk, interval)),
                value,
            ),
            Column::ChunkReclT { pile, chunk, interval } => self.chunk_recl_t.put(
                Pair(pile, Pair(chunk, interval)),
                value,
            ),
            Column::ChunkClosed { pile, chunk, interval } => self.chunk_closed.put(
                Pair(pile, Pair(chunk, interval)),
                value,
            ),
            Column::ChunkRecv { pile, chunk, interval, candidate } => self.chunk_recv.put(
                Pair(pile, Pair(chunk, Pair(interval, candidate))),
                value,
            ),
            _ => {},
        }
    }
}

} // verus!
