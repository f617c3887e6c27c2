//! What is made of what a solver says, told of the readings alone.
use vstd::prelude::*;

use crate::ledger::held_under;
use crate::listing::{flat, folded, sum_to};
use crate::optimisation::audit::limits::same_sum;
use crate::optimisation::blended::extraction::{negligible, receipt_tonnes};
use crate::optimisation::blended::formulation::model::BlendColumns;
use crate::optimisation::blended::report::{ChunkRow, ExtractionAdjustments, MovementRow};
use crate::optimisation::points::summed;
use crate::scalar::{shrunk, size, Fixed, Scalar};

verus! {

proof fn billionth(tonnes: Fixed)
    requires
        tonnes.0 > i64::MIN,
    ensures
        negligible(tonnes) == (size(tonnes.0 as int) <= 1),
{
    reveal_with_fuel(shrunk, 10);
    assert(Fixed::of_decimal(1, 9).0 == 1);
}

/// Each reading is of a candidate, an interval and a segment.
pub open spec fn row_of(columns: BlendColumns<Fixed>, i: int) -> MovementRow<Fixed> {
    let (key, tonnes) = columns.movement@[i];
    MovementRow { candidate: key.0, interval: key.1.0, segment: key.1.1, tonnes_t: tonnes }
}

/// Row `row` is of reading `i`, which is of more than a billionth.
pub open spec fn comes_of(columns: BlendColumns<Fixed>, i: int, row: MovementRow<Fixed>) -> bool {
    0 <= i < columns.movement@.len() && size(columns.movement@[i].1.0 as int) > 1 && row == row_of(columns, i)
}

/// A row is of some reading of more than a billionth.
pub open spec fn is_read(columns: BlendColumns<Fixed>, row: MovementRow<Fixed>) -> bool {
    exists|i: int| #[trigger] comes_of(columns, i, row)
}

proof fn rows_listed(columns: BlendColumns<Fixed>, n: nat)
    requires
        n <= columns.movement@.len(),
        forall|i: int| 0 <= i < n ==> (#[trigger] columns.movement@[i]).1.0 > i64::MIN,
    ensures
        ({
            let rows = flat(n, columns.movement_row());
            &&& forall|i: int|
                0 <= i < n && size((#[trigger] columns.movement@[i]).1.0 as int) > 1 ==> exists|r: int|
                    0 <= r < rows.len() && #[trigger] rows[r] == row_of(columns, i)
            &&& forall|r: int|
                0 <= r < rows.len() ==> is_read(columns, #[trigger] rows[r])
        }),
    decreases n,
{
    if n > 0 {
        let m = (n - 1) as nat;
        rows_listed(columns, m);
        let (before, rows) = (flat(m, columns.movement_row()), flat(n, columns.movement_row()));
        let last = columns.movement@[m as int];
        billionth(last.1);
        assert(rows == before + columns.movement_row()(m as int));
        assert forall|i: int|
            0 <= i < n && size((#[trigger] columns.movement@[i]).1.0 as int) > 1 implies exists|r: int|
            0 <= r < rows.len() && #[trigger] rows[r] == row_of(columns, i) by {
            if i < m {
                let r = choose|r: int| 0 <= r < before.len() && #[trigger] before[r] == row_of(columns, i);
                assert(rows[r] == before[r]);
            } else {
                assert(rows[before.len() as int] == row_of(columns, i));
            }
        }
        assert forall|r: int| 0 <= r < rows.len() implies is_read(columns, #[trigger] rows[r]) by {
            if r < before.len() {
                assert(rows[r] == before[r]);
            } else {
                assert(comes_of(columns, m as int, rows[r]));
            }
        }
    }
}

/// Every reading of more than a billionth of a tonne becomes a row of its
/// candidate, interval and segment, and there is no other row.
pub proof fn readings_become_rows(columns: BlendColumns<Fixed>)
    requires
        forall|i: int| 0 <= i < columns.movement@.len() ==> (#[trigger] columns.movement@[i]).1.0 > i64::MIN,
    ensures
        forall|i: int|
            0 <= i < columns.movement@.len() && size((#[trigger] columns.movement@[i]).1.0 as int) > 1 ==> exists|r: int|
                0 <= r < columns.movement_rows().len() && #[trigger] columns.movement_rows()[r] == row_of(columns, i),
        forall|r: int|
            0 <= r < columns.movement_rows().len() ==> is_read(columns, #[trigger] columns.movement_rows()[r]),
{
    let n = columns.movement@.len();
    rows_listed(columns, n);
    let rows = flat(n, columns.movement_row());
    assert(columns.movement_rows() == rows);
    assert forall|i: int| 0 <= i < n && size((#[trigger] columns.movement@[i]).1.0 as int) > 1 implies exists|r: int|
        0 <= r < columns.movement_rows().len() && #[trigger] columns.movement_rows()[r] == row_of(columns, i) by {
        let r = choose|r: int| 0 <= r < rows.len() && #[trigger] rows[r] == row_of(columns, i);
        assert(columns.movement_rows()[r] == row_of(columns, i));
    }
    assert forall|r: int| 0 <= r < columns.movement_rows().len() implies is_read(
        columns,
        #[trigger] columns.movement_rows()[r],
    ) by {
        assert(is_read(columns, rows[r]));
    }
}

/// What each reading of no more than a billionth of a tonne amounts to.
pub open spec fn too_little(columns: BlendColumns<Fixed>) -> spec_fn(int) -> int {
    |i: int|
        if size(columns.movement@[i].1.0 as int) <= 1 {
            size(columns.movement@[i].1.0 as int)
        } else {
            0
        }
}

/// What is dropped of the movements is what the readings of no more than a
/// billionth amount to, and it is told in full.
pub proof fn dropped_movements_are_told(columns: BlendColumns<Fixed>, n: nat)
    requires
        n <= columns.movement@.len(),
        n <= usize::MAX,
        n < 1_000_000_000_000_000_000,
        forall|i: int| 0 <= i < n ==> (#[trigger] columns.movement@[i]).1.0 > i64::MIN,
    ensures
        ({
            let told = folded(n, ExtractionAdjustments::<Fixed>::nothing(), columns.movement_dropped());
            &&& told.movement_total_t.0 == summed(n, too_little(columns))
            &&& told.movement_count == summed(n, too_little(columns))
            &&& 0 <= summed(n, too_little(columns)) <= n
        }),
    decreases n,
{
    if n > 0 {
        let m = (n - 1) as nat;
        dropped_movements_are_told(columns, m);
        let tonnes = columns.movement@[m as int].1;
        billionth(tonnes);
        let before = folded(m, ExtractionAdjustments::<Fixed>::nothing(), columns.movement_dropped());
        assert(folded(n, ExtractionAdjustments::<Fixed>::nothing(), columns.movement_dropped())
            == columns.movement_dropped()(before, m as int));
        assert(tonnes.same(Fixed::of_whole(0)) == (tonnes.0 == 0));
    }
}

/// A chunk row says what was read of its chunk, and that it is closed exactly
/// where its flag is over a half.
pub proof fn chunk_rows_say_what_was_read(columns: BlendColumns<Fixed>, i: int, row: ChunkRow<Fixed>)
    requires
        0 <= i < columns.chunk_open_t@.len(),
        columns.chunk_row(i, row),
    ensures
        ({
            let (key, open) = columns.chunk_open_t@[i];
            &&& row.pile == key.0 && row.chunk == key.1.0 && row.interval == key.1.1
            &&& row.open_t == open
            &&& row.reclaimed_t.0 == (match held_under(columns.chunk_recl_t@, key) {
                Some(tonnes) => tonnes.0 as int,
                None => 0,
            })
            &&& row.closed == (held_under(columns.chunk_closed@, key) matches Some(flag) && flag.0 > 500_000_000)
            &&& row.received_t == sum_to(row.receipts@.len(), received(row))
        }),
{
    reveal_with_fuel(shrunk, 10);
    assert(Fixed::of_decimal(5, 1).0 == 500_000_000);
    same_sum(row.receipts@.len(), receipt_tonnes(row.receipts@), received(row));
}

/// What each receipt of a chunk row brings.
pub open spec fn received(row: ChunkRow<Fixed>) -> spec_fn(int) -> Option<Fixed> {
    |r: int| Some(row.receipts@[r].1)
}

} // verus!
