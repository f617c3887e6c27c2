//! What a parcel model asks of piles, of the units they hold and of the room at
//! destinations, told of the amounts alone.
use vstd::prelude::*;

use crate::optimisation::ids::{DestinationId, StockpileId};
use crate::optimisation::input::opening_total;
use crate::optimisation::parcel::amounts::{moved, moves_weigh, reclaimed, reclaims_weigh, tonnes};
use crate::optimisation::parcel::base::{unit_dust, Parcels};
use crate::optimisation::parcel::columns::{MoveVariable, ParcelColumn, ParcelVariable, ReclaimVariable, UnitKey};
use crate::optimisation::parcel::select::{MoveSelector, ParcelPart, ParcelSelector, ReclaimSelector};
use crate::optimisation::parcel::workings::{filled, parcels_weigh};
use crate::optimisation::points::{difference, joined_terms, keeps, one_term, two_terms, weighed};
use crate::optimisation::sheet::{at_least_row, at_most_row, less_one, one};
use crate::scalar::{Fixed, Scalar, STEPS};

verus! {

/// Positions of a cell of a pile.
pub open spec fn in_cell(pile: StockpileId, i: int, s: int) -> spec_fn(ParcelVariable) -> bool {
    |p: ParcelVariable| p.stream.pile == pile && p.stream.interval == i && p.stream.segment == s
}

/// One position of a cell of a pile.
pub open spec fn at_place(pile: StockpileId, i: usize, s: usize, position: usize) -> spec_fn(ParcelVariable) -> bool {
    |p: ParcelVariable|
        p.stream.pile == pile && p.stream.interval == i && p.stream.segment == s && p.position == position
}

/// Reclaims from a pile in a cell.
pub open spec fn from_pile(pile: StockpileId, i: int, s: int) -> spec_fn(ReclaimVariable<Fixed>) -> bool {
    |r: ReclaimVariable<Fixed>| r.source == pile && r.interval == i && r.segment == s
}

/// Reclaims from a unit in a cell.
pub open spec fn from_unit(unit: UnitKey, i: int, s: int) -> spec_fn(ReclaimVariable<Fixed>) -> bool {
    |r: ReclaimVariable<Fixed>| r.unit == unit && r.interval == i && r.segment == s
}

/// What a pile holds after a cell.
pub open spec fn holds(pile: StockpileId, i: int, s: int, point: spec_fn(ParcelColumn) -> int) -> int {
    point(ParcelColumn::PileClosing { pile, interval: i as usize, segment: s as usize })
}

/// What a unit holds at the start of a cell.
pub open spec fn starts_with(unit: UnitKey, i: int, s: int, point: spec_fn(ParcelColumn) -> int) -> int {
    point(ParcelColumn::UnitStart { unit, interval: i as usize, segment: s as usize })
}

/// Whether a unit is empty at the start of a cell.
pub open spec fn is_empty(unit: UnitKey, i: int, s: int, point: spec_fn(ParcelColumn) -> int) -> int {
    point(ParcelColumn::UnitEmpty { unit, interval: i as usize, segment: s as usize })
}

proof fn units_are()
    ensures
        one::<Fixed>().0 == 1_000_000_000,
        less_one::<Fixed>().0 == -1_000_000_000,
{
}

/// The closing row of a pile holds exactly where it holds after a cell what it
/// held before, or its opening at the start, with what fills its positions there
/// and without what is reclaimed.
pub proof fn closing_rows(model: Parcels<Fixed>, p: int, i: int, s: int, point: spec_fn(ParcelColumn) -> int)
    requires
        0 <= p < model.input.stockpiles@.len(),
        0 <= i < model.input.intervals@.len() <= usize::MAX,
        0 <= s < model.segments(i),
        i > 0 ==> model.segments(i - 1) > 0,
    ensures
        keeps(model.closing_line(p, i, s), point) == ({
            let pile = model.input.stockpiles@[p];
            let before = if s > 0 {
                holds(pile.id, i, s - 1, point)
            } else if i > 0 {
                holds(pile.id, i - 1, model.segments(i - 1) - 1, point)
            } else {
                opening_total(pile.opening@).0 as int
            };
            holds(pile.id, i, s, point) == before + filled(model, in_cell(pile.id, i, s), point) - reclaimed(
                model,
                from_pile(pile.id, i, s),
                point,
            )
        }),
{
    units_are();
    let pile = model.input.stockpiles@[p];
    let closing = model.closing(pile.id, i, s);
    let at = ParcelSelector::OfCell { pile: pile.id, interval: i as usize, segment: s as usize };
    let off = ReclaimSelector::OfPile { pile: pile.id, interval: i as usize, segment: s as usize };
    let into = model.parcel_terms(at, ParcelPart::Quantity, less_one::<Fixed>());
    let out = model.reclaim_terms(off, one::<Fixed>());
    parcels_weigh(model, at, less_one::<Fixed>(), in_cell(pile.id, i, s), point);
    reclaims_weigh(model, off, one::<Fixed>(), from_pile(pile.id, i, s), point);
    joined_terms(into, out, point);
    let (x, y) = (filled(model, in_cell(pile.id, i, s), point), reclaimed(model, from_pile(pile.id, i, s), point));
    assert(weighed(into + out, point) == -1_000_000_000 * x + 1_000_000_000 * y);
    match model.cell_before(i, s) {
        None => {
            joined_terms(seq![(closing, one::<Fixed>())], into + out, point);
            one_term(closing, point);
        },
        Some(cell) => {
            let prior = model.closing(pile.id, cell.0, cell.1);
            joined_terms(seq![(closing, one::<Fixed>()), (prior, less_one::<Fixed>())], into + out, point);
            difference(closing, prior, point);
        },
    }
}

/// The opening row of a unit holds exactly where it starts a cell with its tonnes
/// at the start; with what filled its position, in the interval after it came;
/// and with what it started the cell before with and without what was reclaimed
/// of it there, otherwise.
pub proof fn unit_rows(model: Parcels<Fixed>, p: int, unit: UnitKey, i: int, s: int, point: spec_fn(ParcelColumn) -> int)
    requires
        0 <= p < model.input.stockpiles@.len(),
        0 <= i < model.input.intervals@.len() <= usize::MAX,
        0 <= s < model.segments(i),
        i > 0 ==> model.segments(i - 1) > 0,
        unit matches UnitKey::Receipt { receipt_interval, .. } ==> receipt_interval < i,
    ensures
        keeps(model.unit_opening(p, unit, i, s), point) == ({
            let carried = if s > 0 {
                starts_with(unit, i, s - 1, point) - reclaimed(model, from_unit(unit, i, s - 1), point)
            } else {
                starts_with(unit, i - 1, model.segments(i - 1) - 1, point) - reclaimed(
                    model,
                    from_unit(unit, i - 1, model.segments(i - 1) - 1),
                    point,
                )
            };
            starts_with(unit, i, s, point) == match unit {
                UnitKey::Opening { opening, .. } => if i == 0 && s == 0 {
                    model.input.stockpiles@[p].opening@[opening as int].tonnes_t.0 as int
                } else {
                    carried
                },
                UnitKey::Receipt { receipt_interval, segment, position, .. } => if i == receipt_interval + 1 && s == 0 {
                    filled(
                        model,
                        at_place(model.input.stockpiles@[p].id, receipt_interval, segment, position),
                        point,
                    )
                } else {
                    carried
                },
            }
        }),
{
    units_are();
    let start = model.unit_start(unit, i, s);
    one_term(start, point);
    if let Some(cell) = model.cell_before(i, s) {
        let prior = model.unit_start(unit, cell.0, cell.1);
        let sel = model.of_unit(unit, cell.0, cell.1);
        let first = seq![(start, one::<Fixed>()), (prior, less_one::<Fixed>())];
        let out = model.reclaim_terms(sel, one::<Fixed>());
        reclaims_weigh(model, sel, one::<Fixed>(), from_unit(unit, cell.0, cell.1), point);
        let y = reclaimed(model, from_unit(unit, cell.0, cell.1), point);
        assert(weighed(out, point) == 1_000_000_000 * y);
        joined_terms(first, out, point);
        difference(start, prior, point);
    }
    if let UnitKey::Receipt { receipt_interval, segment, position, .. } = unit {
        let pile = model.input.stockpiles@[p].id;
        let at = ParcelSelector::At { pile, interval: receipt_interval, segment, position };
        let place = at_place(pile, receipt_interval, segment, position);
        parcels_weigh(model, at, less_one::<Fixed>(), place, point);
        let into = model.parcel_terms(at, ParcelPart::Quantity, less_one::<Fixed>());
        let x = filled(model, place, point);
        assert(weighed(into, point) == -1_000_000_000 * x);
        joined_terms(seq![(start, one::<Fixed>())], into, point);
    }
}

/// A unit that is flagged empty holds no more than a trace, and one that is not
/// holds at least that.
pub proof fn empty_units_hold_a_trace(model: Parcels<Fixed>, p: int, i: int, s: int, j: int, point: spec_fn(ParcelColumn) -> int)
    requires
        0 <= j < model.live(p, i).len(),
        keeps(model.unit_line(p, i, s)(j)[0], point),
        keeps(model.unit_line(p, i, s)(j)[1], point),
        i64::MIN <= unit_dust(*model.input).0 + model.unit_bound(p, model.live(p, i)[j]).0 <= i64::MAX,
    ensures
        ({
            let unit = model.live(p, i)[j];
            let trace = unit_dust(*model.input).0;
            &&& is_empty(unit, i, s, point) == STEPS ==> starts_with(unit, i, s, point) <= trace
            &&& is_empty(unit, i, s, point) == 0 ==> starts_with(unit, i, s, point) >= trace
        }),
{
    units_are();
    let unit = model.live(p, i)[j];
    let (start, empty) = (model.unit_start(unit, i, s), model.unit_empty(unit, i, s));
    let (bound, dust) = (model.unit_bound(p, unit), unit_dust(*model.input));
    let lines = model.unit_line(p, i, s)(j);
    let (a, b) = (
        seq![(start, one::<Fixed>()), (empty, bound)],
        seq![(start, one::<Fixed>()), (empty, dust)],
    );
    assert(lines[0] == at_most_row(a, dust.plus(bound)));
    assert(lines[1] == at_least_row(b, dust));
    two_terms(a, point);
    two_terms(b, point);
    let (o, x, e, w, d) = (one::<Fixed>().0 as int, point(start), point(empty), bound.0 as int, dust.0 as int);
    assert(o * x == 1_000_000_000 * x) by (nonlinear_arith)
        requires
            o == 1_000_000_000,
    ;
    if e == 1_000_000_000 {
        assert(w * e == 1_000_000_000 * w && d * e == 1_000_000_000 * d) by (nonlinear_arith)
            requires
                e == 1_000_000_000,
        ;
    }
    if e == 0 {
        assert(w * e == 0 && d * e == 0) by (nonlinear_arith)
            requires
                e == 0,
        ;
    }
}

// Room.

/// What a destination can still take at the start of a cell.
pub open spec fn room_of(destination: DestinationId, i: int, s: int, point: spec_fn(ParcelColumn) -> int) -> int {
    point(ParcelColumn::DestinationRemaining { destination, interval: i as usize, segment: s as usize })
}

/// Routes to a destination in a cell.
pub open spec fn goes_to(model: Parcels<Fixed>, destination: DestinationId, i: int, s: int) -> spec_fn(
    MoveVariable,
) -> bool {
    |m: MoveVariable|
        model.input.movements@[m.candidate as int].destination == destination && m.interval == i && m.segment == s
}

/// The row of the room at a destination that is no pile holds, in a cell that
/// comes after another, exactly where it is what was left in the cell before
/// without what went there; a crusher starts each day afresh.
pub proof fn room_rows(model: Parcels<Fixed>, d: int, i: int, s: int, point: spec_fn(ParcelColumn) -> int)
    requires
        0 <= d < model.input.destinations@.len(),
        !(model.input.destinations@[d].kind is Stockpile),
        0 <= i < model.input.intervals@.len() <= usize::MAX,
        0 <= s < model.segments(i),
        i > 0 ==> model.segments(i - 1) > 0,
        i > 0 || s > 0,
    ensures
        ({
            let destination = model.input.destinations@[d];
            let (pi, ps) = if s > 0 {
                (i, s - 1)
            } else {
                (i - 1, model.segments(i - 1) - 1)
            };
            let fresh = destination.kind is Crusher && model.input.intervals@[pi].start_h.over(
                Fixed::of_whole(24),
            ).floored() != model.input.intervals@[i].start_h.over(Fixed::of_whole(24)).floored();
            keeps(model.room_line(d, i, s), point) == (if fresh {
                room_of(destination.id, i, s, point) == model.full(destination, i).0
            } else {
                STEPS * room_of(destination.id, i, s, point) == STEPS * room_of(destination.id, pi, ps, point) - moved(
                    model,
                    goes_to(model, destination.id, pi, ps),
                    tonnes(),
                    point,
                )
            })
        }),
{
    units_are();
    let destination = model.input.destinations@[d];
    let room = model.room(d, i, s);
    one_term(room, point);
    let cell = model.cell_before(i, s)->0;
    let prior = model.room(d, cell.0, cell.1);
    let sel = MoveSelector::To { destination: destination.id, interval: cell.0 as usize, segment: cell.1 as usize };
    let went = model.move_terms(sel, one::<Fixed>());
    moves_weigh(model, sel, one::<Fixed>(), goes_to(model, destination.id, cell.0, cell.1), tonnes(), point);
    joined_terms(seq![(room, one::<Fixed>()), (prior, less_one::<Fixed>())], went, point);
    difference(room, prior, point);
}

} // verus!
