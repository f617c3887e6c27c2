//! What holds of every point that a model admits.
use vstd::prelude::*;

use crate::listing::flat;
use crate::optimisation::blended::formulation::base::{segments_of, Formulation, Selector};
use crate::optimisation::blended::formulation::formulate::model_of;
use crate::optimisation::blended::formulation::model::Column;
use crate::optimisation::blended::input::BlendInput;
use crate::optimisation::ids::ReclaimOrder;
use crate::optimisation::points::{
    feasible, feasible_one, feasible_parts, first_of_three, first_of_two, joined_terms, keeps, kept, two_terms, weighed,
};
use crate::optimisation::sheet::{at_most_row, binary, continuous, equal_row, less_one, nil, one};
use crate::scalar::{Fixed, Scalar, STEPS};

verus! {

/// The model of an input admits a point.
#[verifier::opaque]
pub open spec fn admits(input: &BlendInput<Fixed>, point: spec_fn(Column) -> int) -> bool {
    feasible(model_of(*input), point)
}

/// The model of an input.
pub open spec fn whole_of(input: &BlendInput<Fixed>) -> Formulation<Fixed> {
    Formulation { input, segments: segments_of(*input) }
}

proof fn pile_feasible(input: &BlendInput<Fixed>, p: int, point: spec_fn(Column) -> int)
    requires
        admits(input, point),
        0 <= p < input.piles@.len(),
    ensures
        feasible(whole_of(input).pile_lines()(p), point),
{
    reveal(admits);
    let whole = whole_of(input);
    let piles = flat(input.piles@.len(), whole.pile_lines());
    let routes = flat(whole.route_rules().len(), whole.route_lines());
    let payments = flat(input.conditional_values@.len(), whole.payment_lines());
    let sources = flat(input.loaders@.len(), whole.source_lines());
    let a = whole.cell_lines() + piles;
    let b = a + whole.rule_lines();
    let c = b + routes;
    let d = c + payments;
    assert(model_of(*input) == d + sources);
    feasible_parts(d, sources, point);
    feasible_parts(c, payments, point);
    feasible_parts(b, routes, point);
    feasible_parts(a, whole.rule_lines(), point);
    feasible_parts(whole.cell_lines(), piles, point);
    feasible_one(input.piles@.len(), whole.pile_lines(), p, point);
}

proof fn plain_feasible(input: &BlendInput<Fixed>, p: int, k: int, point: spec_fn(Column) -> int)
    requires
        admits(input, point),
        0 <= p < input.piles@.len(),
        input.piles@[p].chunks@.len() == 0,
        0 <= k < input.intervals@.len(),
    ensures
        ({
            let whole = whole_of(input);
            &&& 0 <= point(whole.open_t(p, k))
            &&& 0 <= point(whole.recl_t(p, k)) <= point(whole.open_t(p, k))
            &&& feasible(seq![whole.tonnes_balance(p, k)], point)
            &&& feasible(flat(whole.grades(), whole.recl_columns(p, k)), point)
            &&& feasible(flat(whole.grades(), whole.open_columns(p, k)), point)
            &&& feasible(flat(whole.grades(), whole.mix_lines(p, k)), point)
        }),
{
    let whole = whole_of(input);
    pile_feasible(input, p, point);
    assert(feasible(whole.plain_pile(p), point));
    feasible_one(whole.horizon(), whole.plain_interval(p), k, point);
    let capacity = whole.pile(p).capacity_t;
    let opening = seq![continuous(whole.open_t(p, k), capacity)];
    let opened = flat(whole.grades(), whole.open_columns(p, k));
    let balance = seq![whole.tonnes_balance(p, k)];
    let grades = flat(whole.grades(), whole.grade_balance(p, k));
    let taking = seq![continuous(whole.recl_t(p, k), capacity)];
    let taken = flat(whole.grades(), whole.recl_columns(p, k));
    let held = seq![
        whole.taken_row(p, k),
        at_most_row(seq![(whole.recl_t(p, k), one::<Fixed>()), (whole.open_t(p, k), less_one::<Fixed>())], nil::<Fixed>()),
    ];
    let mixes = flat(whole.grades(), whole.mix_lines(p, k));
    let room = whole.occupancy(p, k, seq![(whole.open_t(p, k), one::<Fixed>())]);
    let a = opening + opened;
    let b = a + balance;
    let c = b + grades;
    let d = c + taking;
    let e = d + taken;
    let f = e + held;
    let g = f + mixes;
    assert(whole.plain_interval(p)(k) == g + room);
    feasible_parts(g, room, point);
    feasible_parts(f, mixes, point);
    feasible_parts(e, held, point);
    feasible_parts(d, taken, point);
    feasible_parts(c, taking, point);
    feasible_parts(b, grades, point);
    feasible_parts(a, balance, point);
    feasible_parts(opening, opened, point);
    kept(opening, 0, point);
    kept(taking, 0, point);
    kept(held, 1, point);
    first_of_two(whole.recl_t(p, k), whole.open_t(p, k), less_one::<Fixed>(), nil::<Fixed>(), point);
}

/// A pile without chunks gives up no more than it held at the start of the
/// interval, and one that is empty gives up nothing of any grade.
pub proof fn empty_pile_supplies_nothing(input: &BlendInput<Fixed>, p: int, k: int, g: int, point: spec_fn(Column) -> int)
    requires
        admits(input, point),
        0 <= p < input.piles@.len(),
        input.piles@[p].chunks@.len() == 0,
        0 <= k < input.intervals@.len(),
        0 <= g < input.grades.fields@.len(),
    ensures
        ({
            let whole = whole_of(input);
            &&& point(whole.recl_t(p, k)) <= point(whole.open_t(p, k))
            &&& point(whole.open_t(p, k)) == 0 ==> {
                &&& point(whole.recl_t(p, k)) == 0
                &&& point(whole.recl_q(p, k, g)) == 0
                &&& point(whole.open_q(p, k, g)) == 0
            }
        }),
{
    let whole = whole_of(input);
    plain_feasible(input, p, k, point);
    feasible_one(whole.grades(), whole.recl_columns(p, k), g, point);
    feasible_one(whole.grades(), whole.open_columns(p, k), g, point);
    feasible_one(whole.grades(), whole.mix_lines(p, k), g, point);
    kept(whole.recl_columns(p, k)(g), 0, point);
    kept(whole.open_columns(p, k)(g), 0, point);
    let lines = whole.mix_lines(p, k)(g);
    kept(lines, 1, point);
    kept(lines, 2, point);
    let weight = whole.ceiling(g).opposite();
    first_of_two(whole.recl_q(p, k, g), whole.recl_t(p, k), weight, nil::<Fixed>(), point);
    first_of_two(whole.open_q(p, k, g), whole.open_t(p, k), weight, nil::<Fixed>(), point);
}

/// What a row says of what is held next, held before, brought and gone.
proof fn held_over(
    next: Column,
    before: Column,
    brought: Seq<(Column, Fixed)>,
    gone: Column,
    point: spec_fn(Column) -> int,
)
    requires
        keeps(
            equal_row(
                (seq![(next, one::<Fixed>()), (before, less_one::<Fixed>())] + brought).push((gone, one::<Fixed>())),
                nil::<Fixed>(),
            ),
            point,
        ),
    ensures
        STEPS * (point(next) - point(before) + point(gone)) + weighed(brought, point) == 0,
{
    let first = seq![(next, one::<Fixed>()), (before, less_one::<Fixed>())];
    let last = (gone, one::<Fixed>());
    let terms = (first + brought).push(last);
    assert(terms.drop_last() =~= first + brought);
    joined_terms(first, brought, point);
    two_terms(first, point);
    let (x, y, z) = (point(next), point(before), point(gone));
    assert(one::<Fixed>().0 == 1_000_000_000 && less_one::<Fixed>().0 == -1_000_000_000);
    let (u, v) = (first[0].1.0 as int, first[1].1.0 as int);
    assert(u * x == 1_000_000_000 * x && v * y == -1_000_000_000 * y) by (nonlinear_arith)
        requires
            u == 1_000_000_000,
            v == -1_000_000_000,
    ;
    assert(weighed(first, point) == 1_000_000_000 * x - 1_000_000_000 * y);
    reveal(weighed);
    assert(weighed(terms, point) == weighed(first, point) + weighed(brought, point) + 1_000_000_000 * z);
    assert(1_000_000_000 * (x - y + z) == 1_000_000_000 * x - 1_000_000_000 * y + 1_000_000_000 * z);
}

proof fn plain_balance(input: &BlendInput<Fixed>, p: int, k: int, point: spec_fn(Column) -> int)
    requires
        admits(input, point),
        0 <= p < input.piles@.len(),
        input.piles@[p].chunks@.len() == 0,
        0 < k < input.intervals@.len(),
    ensures
        keeps(whole_of(input).tonnes_balance(p, k), point),
{
    plain_feasible(input, p, k, point);
    kept(seq![whole_of(input).tonnes_balance(p, k)], 0, point);
}

proof fn plain_mix(input: &BlendInput<Fixed>, p: int, k: int, g: int, point: spec_fn(Column) -> int)
    requires
        admits(input, point),
        0 <= p < input.piles@.len(),
        input.piles@[p].chunks@.len() == 0,
        0 <= k < input.intervals@.len(),
        0 <= g < input.grades.fields@.len(),
    ensures
        keeps(whole_of(input).mix_lines(p, k)(g)[0], point),
{
    let whole = whole_of(input);
    plain_feasible(input, p, k, point);
    feasible_one(whole.grades(), whole.mix_lines(p, k), g, point);
    kept(whole.mix_lines(p, k)(g), 0, point);
}

/// What a pile without chunks holds next is what it held and what was brought,
/// without what was taken; and what is taken of a grade has the share of what
/// is held of it.
pub proof fn plain_pile_conserves(input: &BlendInput<Fixed>, p: int, k: int, g: int, point: spec_fn(Column) -> int)
    requires
        admits(input, point),
        0 <= p < input.piles@.len(),
        input.piles@[p].chunks@.len() == 0,
        0 <= k < input.intervals@.len(),
        0 <= g < input.grades.fields@.len(),
    ensures
        ({
            let whole = whole_of(input);
            let brought = whole.run_terms(Selector::Bring { pile: whole.pile(p).id }, k, whole.segments as nat);
            &&& k + 1 < input.intervals@.len() ==> STEPS * (point(whole.open_t(p, k + 1)) - point(whole.open_t(p, k))
                + point(whole.recl_t(p, k))) + weighed(brought, point) == 0
            &&& point(whole.recl_q(p, k, g)) * point(whole.open_t(p, k)) == point(whole.recl_t(p, k)) * point(
                whole.open_q(p, k, g),
            )
        }),
{
    let whole = whole_of(input);
    plain_mix(input, p, k, g, point);
    if k + 1 < input.intervals@.len() {
        plain_balance(input, p, k + 1, point);
        let brought = whole.run_terms(Selector::Bring { pile: whole.pile(p).id }, k, whole.segments as nat);
        held_over(whole.open_t(p, k + 1), whole.open_t(p, k), brought, whole.recl_t(p, k), point);
    }
}

proof fn chunk_feasible(input: &BlendInput<Fixed>, p: int, c: int, k: int, point: spec_fn(Column) -> int)
    requires
        admits(input, point),
        0 <= p < input.piles@.len(),
        0 <= c < input.piles@[p].chunks@.len(),
        0 <= k < input.intervals@.len(),
    ensures
        ({
            let whole = whole_of(input);
            &&& feasible(whole.chunk_columns(p, c)(k), point)
            &&& feasible(whole.chunk_drawing(p, c, k), point)
            &&& feasible(flat(whole.candidates(), whole.chunk_receiving(p, c, k)), point)
            &&& feasible(flat(whole.grades(), whole.chunk_mixing(p, c, k)), point)
            &&& feasible(whole.chunk_turns(p, c, k), point)
        }),
{
    let whole = whole_of(input);
    pile_feasible(input, p, point);
    let columns = flat(whole.chunk_count(p), whole.chunk_column_lines(p));
    let rows = flat(whole.chunk_count(p), whole.chunk_lines(p));
    let room = flat(whole.horizon(), whole.chunk_occupancy(p));
    let totals = flat(whole.horizon(), whole.chunk_totals(p));
    assert(whole.chunked_pile(p) == columns + rows + room + totals);
    feasible_parts(columns + rows + room, totals, point);
    feasible_parts(columns + rows, room, point);
    feasible_parts(columns, rows, point);
    feasible_one(whole.chunk_count(p), whole.chunk_column_lines(p), c, point);
    feasible_one(whole.horizon(), whole.chunk_columns(p, c), k, point);
    feasible_one(whole.chunk_count(p), whole.chunk_lines(p), c, point);
    feasible_parts(flat(whole.horizon(), whole.chunk_rows(p, c)), whole.chunk_fill(p, c), point);
    feasible_one(whole.horizon(), whole.chunk_rows(p, c), k, point);
    let a = whole.chunk_closing(p, c, k) + seq![whole.chunk_balance(p, c, k)];
    let b = a + flat(whole.grades(), whole.chunk_grade_balance(p, c, k));
    let d = b + flat(whole.candidates(), whole.chunk_receiving(p, c, k));
    let e = d + whole.chunk_drawing(p, c, k);
    let f = e + flat(whole.grades(), whole.chunk_mixing(p, c, k));
    assert(whole.chunk_rows(p, c)(k) == f + whole.chunk_turns(p, c, k));
    feasible_parts(f, whole.chunk_turns(p, c, k), point);
    feasible_parts(e, flat(whole.grades(), whole.chunk_mixing(p, c, k)), point);
    feasible_parts(d, whole.chunk_drawing(p, c, k), point);
    feasible_parts(b, flat(whole.candidates(), whole.chunk_receiving(p, c, k)), point);
}

proof fn chunk_values(input: &BlendInput<Fixed>, p: int, c: int, k: int, point: spec_fn(Column) -> int)
    requires
        admits(input, point),
        0 <= p < input.piles@.len(),
        0 <= c < input.piles@[p].chunks@.len(),
        0 <= k < input.intervals@.len(),
    ensures
        ({
            let whole = whole_of(input);
            &&& 0 <= point(whole.chunk_draw(p, c, k)) <= point(whole.chunk_open(p, c, k))
            &&& point(whole.chunk_closed(p, c, k)) == 0 || point(whole.chunk_closed(p, c, k)) == STEPS
            &&& point(whole.chunk_empty(p, c, k)) == 0 || point(whole.chunk_empty(p, c, k)) == STEPS
            &&& point(whole.chunk_empty(p, c, k)) == STEPS ==> point(whole.chunk_open(p, c, k)) == 0
            &&& point(whole.chunk_draw(p, c, k)) > 0 ==> point(whole.chunk_closed(p, c, k)) == STEPS
            &&& feasible(flat(whole.grades(), whole.chunk_grade_columns(p, c, k)), point)
        }),
{
    let whole = whole_of(input);
    chunk_feasible(input, p, c, k, point);
    let cap = whole.pile(p).chunks@[c];
    let opening = seq![continuous(whole.chunk_open(p, c, k), cap)];
    let grades = flat(whole.grades(), whole.chunk_grade_columns(p, c, k));
    let middle = seq![
        continuous(whole.chunk_draw(p, c, k), cap),
        binary(whole.chunk_closed(p, c, k)),
        binary(whole.chunk_empty(p, c, k)),
    ];
    let received = flat(whole.candidates(), whole.chunk_recv_column(p, c, k));
    assert(whole.chunk_columns(p, c)(k) == opening + grades + middle + received);
    feasible_parts(opening + grades + middle, received, point);
    feasible_parts(opening + grades, middle, point);
    feasible_parts(opening, grades, point);
    kept(opening, 0, point);
    kept(middle, 0, point);
    kept(middle, 1, point);
    kept(middle, 2, point);
    let rows = whole.chunk_drawing(p, c, k);
    kept(rows, 0, point);
    kept(rows, 1, point);
    kept(rows, 2, point);
    let bound = whole.draw_bound(p, c, k).opposite();
    first_of_two(whole.chunk_draw(p, c, k), whole.chunk_closed(p, c, k), bound, nil::<Fixed>(), point);
    first_of_two(whole.chunk_draw(p, c, k), whole.chunk_open(p, c, k), less_one::<Fixed>(), nil::<Fixed>(), point);
    first_of_two(whole.chunk_open(p, c, k), whole.chunk_empty(p, c, k), cap, cap, point);
}

proof fn undrawn_chunk(input: &BlendInput<Fixed>, p: int, c: int, k: int, g: int, point: spec_fn(Column) -> int)
    requires
        admits(input, point),
        0 <= p < input.piles@.len(),
        0 <= c < input.piles@[p].chunks@.len(),
        0 <= k < input.intervals@.len(),
        0 <= g < input.grades.fields@.len(),
        point(whole_of(input).chunk_draw(p, c, k)) == 0,
    ensures
        point(whole_of(input).chunk_draw_q(p, c, k, g)) == 0,
{
    let whole = whole_of(input);
    chunk_feasible(input, p, c, k, point);
    chunk_values(input, p, c, k, point);
    feasible_one(whole.grades(), whole.chunk_grade_columns(p, c, k), g, point);
    kept(whole.chunk_grade_columns(p, c, k)(g), 1, point);
    feasible_one(whole.grades(), whole.chunk_mixing(p, c, k), g, point);
    kept(whole.chunk_mixing(p, c, k)(g), 1, point);
    let weight = whole.ceiling(g).opposite();
    first_of_two(whole.chunk_draw_q(p, c, k, g), whole.chunk_draw(p, c, k), weight, nil::<Fixed>(), point);
}

proof fn closed_chunk(input: &BlendInput<Fixed>, p: int, c: int, k: int, m: int, point: spec_fn(Column) -> int)
    requires
        admits(input, point),
        0 <= p < input.piles@.len(),
        0 <= c < input.piles@[p].chunks@.len(),
        0 <= k < input.intervals@.len(),
        0 <= m < input.movements@.len(),
        whole_of(input).feeds(p, m),
        point(whole_of(input).chunk_closed(p, c, k)) == STEPS,
    ensures
        point(whole_of(input).chunk_recv(p, c, k, m)) <= 0,
{
    let whole = whole_of(input);
    chunk_feasible(input, p, c, k, point);
    feasible_one(whole.candidates(), whole.chunk_receiving(p, c, k), m, point);
    let bound = whole.receipt_bound(p, c, k);
    let row = at_most_row(
        seq![(whole.chunk_recv(p, c, k, m), one::<Fixed>()), (whole.chunk_closed(p, c, k), bound)],
        bound,
    );
    assert(whole.chunk_receiving(p, c, k)(m)[0] == row);
    kept(whole.chunk_receiving(p, c, k)(m), 0, point);
    first_of_two(whole.chunk_recv(p, c, k, m), whole.chunk_closed(p, c, k), bound, bound, point);
}

/// A chunk gives up nothing before it is closed, no more than it holds, and
/// nothing of any grade where it is empty; once it is closed it takes nothing.
pub proof fn chunks_close_before_they_give(
    input: &BlendInput<Fixed>,
    p: int,
    c: int,
    k: int,
    g: int,
    m: int,
    point: spec_fn(Column) -> int,
)
    requires
        admits(input, point),
        0 <= p < input.piles@.len(),
        0 <= c < input.piles@[p].chunks@.len(),
        0 <= k < input.intervals@.len(),
        0 <= g < input.grades.fields@.len(),
        0 <= m < input.movements@.len(),
    ensures
        ({
            let whole = whole_of(input);
            &&& point(whole.chunk_draw(p, c, k)) <= point(whole.chunk_open(p, c, k))
            &&& point(whole.chunk_draw(p, c, k)) > 0 ==> point(whole.chunk_closed(p, c, k)) == STEPS
            &&& point(whole.chunk_draw(p, c, k)) == 0 ==> point(whole.chunk_draw_q(p, c, k, g)) == 0
            &&& whole.feeds(p, m) && point(whole.chunk_recv(p, c, k, m)) > 0 ==> point(whole.chunk_closed(p, c, k)) == 0
        }),
{
    let whole = whole_of(input);
    chunk_values(input, p, c, k, point);
    if point(whole.chunk_draw(p, c, k)) == 0 {
        undrawn_chunk(input, p, c, k, g, point);
    }
    if whole.feeds(p, m) && point(whole.chunk_closed(p, c, k)) == STEPS {
        closed_chunk(input, p, c, k, m, point);
    }
}

/// Chunks are drawn in the order of their pile: first in, first out waits for
/// every earlier chunk to be empty; last in, first out for every later chunk
/// that is closed.
pub proof fn chunks_are_drawn_in_turn(
    input: &BlendInput<Fixed>,
    p: int,
    c: int,
    other: int,
    k: int,
    point: spec_fn(Column) -> int,
)
    requires
        admits(input, point),
        0 <= p < input.piles@.len(),
        0 <= c < input.piles@[p].chunks@.len(),
        0 <= other < input.piles@[p].chunks@.len(),
        0 <= k < input.intervals@.len(),
        point(whole_of(input).chunk_draw(p, c, k)) > 0,
        match input.piles@[p].order {
            ReclaimOrder::Fifo => other < c,
            ReclaimOrder::Lifo => c < other && point(whole_of(input).chunk_closed(p, other, k)) == STEPS,
        },
    ensures
        point(whole_of(input).chunk_open(p, other, k)) == 0,
{
    let whole = whole_of(input);
    chunk_feasible(input, p, c, k, point);
    chunk_values(input, p, c, k, point);
    chunk_values(input, p, other, k, point);
    match input.piles@[p].order {
        ReclaimOrder::Fifo => {
            feasible_one(c as nat, whole.chunk_after_older(p, c, k), other, point);
            kept(whole.chunk_after_older(p, c, k)(other), 0, point);
            let bound = whole.draw_bound(p, c, k).opposite();
            first_of_two(whole.chunk_draw(p, c, k), whole.chunk_empty(p, other, k), bound, nil::<Fixed>(), point);
        },
        ReclaimOrder::Lifo => {
            let x = other - c - 1;
            feasible_one((whole.chunk_count(p) - c - 1) as nat, whole.chunk_after_newer(p, c, k), x, point);
            kept(whole.chunk_after_newer(p, c, k)(x), 0, point);
            let bound = whole.draw_bound(p, c, k);
            let (closed, empty) = (whole.chunk_closed(p, other, k), whole.chunk_empty(p, other, k));
            if point(empty) == 0 {
                first_of_three(whole.chunk_draw(p, c, k), empty, bound.opposite(), closed, bound, point);
            }
        },
    }
}

proof fn chunk_closing_feasible(input: &BlendInput<Fixed>, p: int, c: int, k: int, point: spec_fn(Column) -> int)
    requires
        admits(input, point),
        0 <= p < input.piles@.len(),
        0 <= c < input.piles@[p].chunks@.len(),
        0 <= k < input.intervals@.len(),
    ensures
        feasible(whole_of(input).chunk_closing(p, c, k), point),
        feasible(whole_of(input).chunk_fill(p, c), point),
{
    let whole = whole_of(input);
    pile_feasible(input, p, point);
    let columns = flat(whole.chunk_count(p), whole.chunk_column_lines(p));
    let rows = flat(whole.chunk_count(p), whole.chunk_lines(p));
    let room = flat(whole.horizon(), whole.chunk_occupancy(p));
    let totals = flat(whole.horizon(), whole.chunk_totals(p));
    assert(whole.chunked_pile(p) == columns + rows + room + totals);
    feasible_parts(columns + rows + room, totals, point);
    feasible_parts(columns + rows, room, point);
    feasible_parts(columns, rows, point);
    feasible_one(whole.chunk_count(p), whole.chunk_lines(p), c, point);
    feasible_parts(flat(whole.horizon(), whole.chunk_rows(p, c)), whole.chunk_fill(p, c), point);
    feasible_one(whole.horizon(), whole.chunk_rows(p, c), k, point);
    let closing = whole.chunk_closing(p, c, k);
    let balance = seq![whole.chunk_balance(p, c, k)];
    let a = closing + balance;
    let b = a + flat(whole.grades(), whole.chunk_grade_balance(p, c, k));
    let d = b + flat(whole.candidates(), whole.chunk_receiving(p, c, k));
    let e = d + whole.chunk_drawing(p, c, k);
    let f = e + flat(whole.grades(), whole.chunk_mixing(p, c, k));
    assert(whole.chunk_rows(p, c)(k) == f + whole.chunk_turns(p, c, k));
    feasible_parts(f, whole.chunk_turns(p, c, k), point);
    feasible_parts(e, flat(whole.grades(), whole.chunk_mixing(p, c, k)), point);
    feasible_parts(d, whole.chunk_drawing(p, c, k), point);
    feasible_parts(b, flat(whole.candidates(), whole.chunk_receiving(p, c, k)), point);
    feasible_parts(a, flat(whole.grades(), whole.chunk_grade_balance(p, c, k)), point);
    feasible_parts(closing, balance, point);
}

proof fn closing_steps(input: &BlendInput<Fixed>, p: int, c: int, k: int, point: spec_fn(Column) -> int)
    requires
        admits(input, point),
        0 <= p < input.piles@.len(),
        0 <= c < input.piles@[p].chunks@.len(),
        0 <= k < input.intervals@.len(),
    ensures
        ({
            let whole = whole_of(input);
            &&& c > 0 ==> point(whole.chunk_closed(p, c, k)) <= point(whole.chunk_closed(p, c - 1, k))
            &&& k + 1 < input.intervals@.len() ==> point(whole.chunk_closed(p, c, k)) <= point(
                whole.chunk_closed(p, c, k + 1),
            )
        }),
{
    let whole = whole_of(input);
    chunk_closing_feasible(input, p, c, k, point);
    let closed = (whole.chunk_closed(p, c, k), one::<Fixed>());
    let lines = whole.chunk_closing(p, c, k);
    let full = match whole.chunk_opening(p, c) {
        Some(tonnes) => nil::<Fixed>().below(tonnes),
        None => false,
    };
    let first = if full {
        seq![equal_row(seq![closed], one::<Fixed>())]
    } else {
        Seq::empty()
    };
    let second = if c > 0 {
        seq![at_most_row(seq![closed, (whole.chunk_closed(p, c - 1, k), less_one::<Fixed>())], nil::<Fixed>())]
    } else {
        Seq::empty()
    };
    let third = if k + 1 < whole.horizon() {
        seq![at_most_row(seq![closed, (whole.chunk_closed(p, c, k + 1), less_one::<Fixed>())], nil::<Fixed>())]
    } else {
        Seq::empty()
    };
    assert(lines == first + second + third);
    feasible_parts(first + second, third, point);
    feasible_parts(first, second, point);
    if c > 0 {
        kept(second, 0, point);
        first_of_two(closed.0, whole.chunk_closed(p, c - 1, k), less_one::<Fixed>(), nil::<Fixed>(), point);
    }
    if k + 1 < whole.horizon() {
        kept(third, 0, point);
        first_of_two(closed.0, whole.chunk_closed(p, c, k + 1), less_one::<Fixed>(), nil::<Fixed>(), point);
    }
}

/// A chunk that is closed stays closed.
pub proof fn chunks_close_once(input: &BlendInput<Fixed>, p: int, c: int, k: int, later: int, point: spec_fn(Column) -> int)
    requires
        admits(input, point),
        0 <= p < input.piles@.len(),
        0 <= c < input.piles@[p].chunks@.len(),
        0 <= k <= later < input.intervals@.len(),
        point(whole_of(input).chunk_closed(p, c, k)) == STEPS,
    ensures
        point(whole_of(input).chunk_closed(p, c, later)) == STEPS,
    decreases later - k,
{
    if k < later {
        closing_steps(input, p, c, k, point);
        chunk_values(input, p, c, k + 1, point);
        chunks_close_once(input, p, c, k + 1, later, point);
    }
}

/// Chunks are closed in order: where one is closed, so are all before it.
pub proof fn chunks_close_in_order(
    input: &BlendInput<Fixed>,
    p: int,
    c: int,
    earlier: int,
    k: int,
    point: spec_fn(Column) -> int,
)
    requires
        admits(input, point),
        0 <= p < input.piles@.len(),
        0 <= earlier <= c < input.piles@[p].chunks@.len(),
        0 <= k < input.intervals@.len(),
        point(whole_of(input).chunk_closed(p, c, k)) == STEPS,
    ensures
        point(whole_of(input).chunk_closed(p, earlier, k)) == STEPS,
    decreases c - earlier,
{
    if earlier < c {
        closing_steps(input, p, c, k, point);
        chunk_values(input, p, c - 1, k, point);
        chunks_close_in_order(input, p, c - 1, earlier, k, point);
    }
}

/// A chunk receives only while it is open, and only once every chunk before it
/// is closed.
pub proof fn chunks_receive_in_turn(
    input: &BlendInput<Fixed>,
    p: int,
    c: int,
    earlier: int,
    k: int,
    m: int,
    point: spec_fn(Column) -> int,
)
    requires
        admits(input, point),
        0 <= p < input.piles@.len(),
        0 <= earlier < c < input.piles@[p].chunks@.len(),
        0 <= k < input.intervals@.len(),
        0 <= m < input.movements@.len(),
        whole_of(input).feeds(p, m),
        point(whole_of(input).chunk_recv(p, c, k, m)) > 0,
    ensures
        point(whole_of(input).chunk_closed(p, c, k)) == 0,
        point(whole_of(input).chunk_closed(p, earlier, k)) == STEPS,
{
    let whole = whole_of(input);
    chunk_values(input, p, c, k, point);
    chunk_values(input, p, c - 1, k, point);
    if point(whole.chunk_closed(p, c, k)) == STEPS {
        closed_chunk(input, p, c, k, m, point);
    }
    chunk_feasible(input, p, c, k, point);
    feasible_one(whole.candidates(), whole.chunk_receiving(p, c, k), m, point);
    let bound = whole.receipt_bound(p, c, k);
    let (received, previous) = (whole.chunk_recv(p, c, k, m), whole.chunk_closed(p, c - 1, k));
    let row = at_most_row(seq![(received, one::<Fixed>()), (previous, bound.opposite())], nil::<Fixed>());
    assert(whole.chunk_receiving(p, c, k)(m)[1] == row);
    kept(whole.chunk_receiving(p, c, k)(m), 1, point);
    first_of_two(received, previous, bound.opposite(), nil::<Fixed>(), point);
    chunks_close_in_order(input, p, c - 1, earlier, k, point);
}

/// A chunk holds no more than its room at any time, and receives no more than
/// that over the whole horizon.
pub proof fn chunks_keep_to_capacity(input: &BlendInput<Fixed>, p: int, c: int, k: int, point: spec_fn(Column) -> int)
    requires
        admits(input, point),
        0 <= p < input.piles@.len(),
        0 <= c < input.piles@[p].chunks@.len(),
        0 <= k < input.intervals@.len(),
    ensures
        ({
            let whole = whole_of(input);
            let room = input.piles@[p].chunks@[c].0;
            let received = flat(whole.horizon(), whole.fill_interval(p, c));
            &&& 0 <= point(whole.chunk_open(p, c, k)) <= room
            &&& received.len() > 0 ==> weighed(received, point) <= room * STEPS
        }),
{
    let whole = whole_of(input);
    chunk_feasible(input, p, c, k, point);
    chunk_closing_feasible(input, p, c, k, point);
    let cap = whole.pile(p).chunks@[c];
    let opening = seq![continuous(whole.chunk_open(p, c, k), cap)];
    let grades = flat(whole.grades(), whole.chunk_grade_columns(p, c, k));
    let middle = seq![
        continuous(whole.chunk_draw(p, c, k), cap),
        binary(whole.chunk_closed(p, c, k)),
        binary(whole.chunk_empty(p, c, k)),
    ];
    let brought = flat(whole.candidates(), whole.chunk_recv_column(p, c, k));
    assert(whole.chunk_columns(p, c)(k) == opening + grades + middle + brought);
    feasible_parts(opening + grades + middle, brought, point);
    feasible_parts(opening + grades, middle, point);
    feasible_parts(opening, grades, point);
    kept(opening, 0, point);
    if flat(whole.horizon(), whole.fill_interval(p, c)).len() > 0 {
        kept(whole.chunk_fill(p, c), 0, point);
    }
}

} // verus!
