//! Reading a solution off the values of a solved model.
use vstd::prelude::*;

use crate::ledger::held_under;
use crate::listing::{flat, folded, sum_to};
use crate::optimisation::blended::formulation::model::BlendColumns;
use crate::optimisation::blended::report::{BlendSolution, ChunkRow, ExtractionAdjustments, MovementRow};
use crate::scalar::Scalar;

verus! {

/// Tonnes that are too little to be kept.
pub open spec fn negligible<N: Scalar>(tonnes: N) -> bool {
    tonnes.magnitude().at_most(N::of_decimal(1, 9))
}

fn is_negligible<N: Scalar>(tonnes: N) -> (r: bool)
    ensures
        r == negligible(tonnes),
{
    tonnes.abs().is_at_most(N::decimal(1, 9))
}

impl<N: Scalar> BlendColumns<N> {
    pub open spec fn movement_row(self) -> spec_fn(int) -> Seq<MovementRow<N>> {
        |i: int|
            {
                let (key, tonnes) = self.movement@[i];
                if negligible(tonnes) {
                    Seq::empty()
                } else {
                    seq![MovementRow { candidate: key.0, interval: key.1.0, segment: key.1.1, tonnes_t: tonnes }]
                }
            }
    }

    /// The movements that are made.
    pub open spec fn movement_rows(self) -> Seq<MovementRow<N>> {
        flat(self.movement@.len(), self.movement_row())
    }

    pub open spec fn movement_dropped(self) -> spec_fn(ExtractionAdjustments<N>, int) -> ExtractionAdjustments<N> {
        |adjustments: ExtractionAdjustments<N>, i: int|
            {
                let tonnes = self.movement@[i].1;
                if negligible(tonnes) && !tonnes.same(N::of_whole(0)) {
                    adjustments.with_movement(tonnes)
                } else {
                    adjustments
                }
            }
    }

    /// Receipt `r` is one of the chunk and interval of opening `i`.
    pub open spec fn receipt_of(self, i: int, r: int) -> bool {
        let opening = self.chunk_open_t@[i].0;
        let receipt = self.chunk_recv@[r].0;
        receipt.0 == opening.0 && receipt.1.0 == opening.1.0 && receipt.1.1.0 == opening.1.1
    }

    pub open spec fn receipt(self, i: int) -> spec_fn(int) -> Seq<(usize, N)> {
        |r: int|
            {
                let (key, tonnes) = self.chunk_recv@[r];
                if self.receipt_of(i, r) && !negligible(tonnes) {
                    seq![(key.1.1.1, tonnes)]
                } else {
                    Seq::empty()
                }
            }
    }

    pub open spec fn receipts(self, i: int) -> Seq<(usize, N)> {
        flat(self.chunk_recv@.len(), self.receipt(i))
    }

    pub open spec fn receipt_dropped(self, i: int) -> spec_fn(ExtractionAdjustments<N>, int) -> ExtractionAdjustments<N> {
        |adjustments: ExtractionAdjustments<N>, r: int|
            {
                let tonnes = self.chunk_recv@[r].1;
                if self.receipt_of(i, r) && negligible(tonnes) && !tonnes.same(N::of_whole(0)) {
                    adjustments.with_chunk_receipt(tonnes)
                } else {
                    adjustments
                }
            }
    }

    pub open spec fn chunk_dropped(self) -> spec_fn(ExtractionAdjustments<N>, int) -> ExtractionAdjustments<N> {
        |adjustments: ExtractionAdjustments<N>, i: int|
            folded(self.chunk_recv@.len(), adjustments, self.receipt_dropped(i))
    }

    /// What is dropped as too little: movements, then receipts chunk by chunk.
    pub open spec fn dropped(self) -> ExtractionAdjustments<N> {
        folded(
            self.chunk_open_t@.len(),
            folded(self.movement@.len(), ExtractionAdjustments::nothing(), self.movement_dropped()),
            self.chunk_dropped(),
        )
    }

    /// A row says what was read for the chunk and interval of opening `i`.
    pub open spec fn chunk_row(self, i: int, row: ChunkRow<N>) -> bool {
        let (key, open) = self.chunk_open_t@[i];
        &&& row.pile == key.0
        &&& row.chunk == key.1.0
        &&& row.interval == key.1.1
        &&& row.open_t == open
        &&& row.reclaimed_t == (match held_under(self.chunk_recl_t@, key) {
            Some(tonnes) => tonnes,
            None => N::of_whole(0),
        })
        &&& row.closed == (match held_under(self.chunk_closed@, key) {
            Some(flag) => N::of_decimal(5, 1).below(flag),
            None => false,
        })
        &&& row.receipts@ == self.receipts(i)
        &&& row.received_t == sum_to(self.receipts(i).len(), receipt_tonnes(self.receipts(i)))
    }

    /// A solution says what was read for the columns.
    pub open spec fn read_as(self, objective: N, solution: BlendSolution<N>) -> bool {
        &&& solution.movements@ == self.movement_rows()
        &&& solution.durations@ == self.duration@
        &&& solution.chunks@.len() == self.chunk_open_t@.len()
        &&& forall|i: int| 0 <= i < solution.chunks@.len() ==> self.chunk_row(i, #[trigger] solution.chunks@[i])
        &&& solution.reported_objective == objective
        &&& solution.adjustments == self.dropped()
    }
}

pub open spec fn receipt_tonnes<N: Scalar>(receipts: Seq<(usize, N)>) -> spec_fn(int) -> Option<N> {
    |r: int| Some(receipts[r].1)
}

fn extract_chunk<N: Scalar>(columns: &BlendColumns<N>, i: usize, adjustments: &mut ExtractionAdjustments<N>) -> (row: ChunkRow<
    N,
>)
    requires
        i < columns.chunk_open_t@.len(),
    ensures
        columns.chunk_row(i as int, row),
        *final(adjustments) == columns.chunk_dropped()(*old(adjustments), i as int),
{
    let key = columns.chunk_open_t.entries[i].0;
    let mut receipts: Vec<(usize, N)> = Vec::new();
    let ghost start = *adjustments;
    let ghost step = columns.receipt_dropped(i as int);
    let ghost each = columns.receipt(i as int);
    for r in 0..columns.chunk_recv.entries.len()
        invariant
            i < columns.chunk_open_t@.len(),
            key == columns.chunk_open_t@[i as int].0,
            step == columns.receipt_dropped(i as int),
            each == columns.receipt(i as int),
            receipts@ == flat(r as nat, each),
            *adjustments == folded(r as nat, start, step),
    {
        let entry = columns.chunk_recv.entries[r];
        assert(entry == columns.chunk_recv@[r as int]);
        let ours: bool = entry.0.0 == key.0 && entry.0.1.0 == key.1.0 && entry.0.1.1.0 == key.1.1;
        if ours {
            if is_negligible(entry.1) {
                if !entry.1.is_same(N::whole(0)) {
                    adjustments.chunk_receipt(entry.1);
                }
            } else {
                receipts.push((entry.0.1.1.1, entry.1));
            }
        }
        assert(receipts@ =~= flat(r as nat, each) + each(r as int));
    }
    let mut received = N::whole(0);
    for r in 0..receipts.len()
        invariant
            received == sum_to(r as nat, receipt_tonnes(receipts@)),
    {
        received = received.add(receipts[r].1);
    }
    ChunkRow {
        pile: key.0,
        chunk: key.1.0,
        interval: key.1.1,
        open_t: columns.chunk_open_t.entries[i].1,
        reclaimed_t: match columns.chunk_recl_t.get(key) {
            Some(tonnes) => tonnes,
            None => N::whole(0),
        },
        closed: match columns.chunk_closed.get(key) {
            Some(flag) => N::decimal(5, 1).is_below(flag),
            None => false,
        },
        received_t: received,
        receipts,
    }
}

/// Reads a solution off what was read for the columns of a solved model.
pub fn extract_solution<N: Scalar>(columns: &BlendColumns<N>, objective: N) -> (r: BlendSolution<N>)
    ensures
        columns.read_as(objective, r),
{
    let mut adjustments: ExtractionAdjustments<N> = ExtractionAdjustments::none();
    let mut movements: Vec<MovementRow<N>> = Vec::new();
    let ghost each = columns.movement_row();
    let ghost step = columns.movement_dropped();
    let ghost start = ExtractionAdjustments::<N>::nothing();
    for i in 0..columns.movement.entries.len()
        invariant
            each == columns.movement_row(),
            step == columns.movement_dropped(),
            movements@ == flat(i as nat, each),
            adjustments == folded(i as nat, start, step),
    {
        let entry = columns.movement.entries[i];
        assert(entry == columns.movement@[i as int]);
        if is_negligible(entry.1) {
            if !entry.1.is_same(N::whole(0)) {
                adjustments.movement(entry.1);
            }
        } else {
            movements.push(
                MovementRow { candidate: entry.0.0, interval: entry.0.1.0, segment: entry.0.1.1, tonnes_t: entry.1 },
            );
        }
        assert(movements@ =~= flat(i as nat, each) + each(i as int));
    }
    let mut chunks: Vec<ChunkRow<N>> = Vec::new();
    let ghost begun = adjustments;
    let ghost next = columns.chunk_dropped();
    for i in 0..columns.chunk_open_t.entries.len()
        invariant
            next == columns.chunk_dropped(),
            chunks@.len() == i,
            forall|j: int| 0 <= j < chunks@.len() ==> columns.chunk_row(j, #[trigger] chunks@[j]),
            adjustments == folded(i as nat, begun, next),
    {
        let row = extract_chunk(columns, i, &mut adjustments);
        chunks.push(row);
    }
    BlendSolution { movements, durations: columns.duration.copy(), chunks, reported_objective: objective, adjustments }
}

} // verus!
