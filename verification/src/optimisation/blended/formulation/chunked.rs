//! The columns and rows of blended piles with chunks: each chunk is filled,
//! closed and drawn down in turn.
use vstd::prelude::*;

use crate::listing::{flat, folded, sum_to};
use crate::optimisation::blended::chunks::{chunk_key, chunk_number, chunks_fit, number_fits};
use crate::optimisation::blended::formulation::base::{Formulation, Selector};
use crate::optimisation::blended::formulation::model::{Column, Line, Sheet};
use crate::optimisation::blended::input::{candidate_rate, delivers, delivers_to_pile, loader_rate};
use crate::optimisation::ids::ReclaimOrder;
use crate::optimisation::sheet::{
    at_most_row, binary, continuous, equal_row, less_one, nil, one, term, terms_of, terms_of_three,
};
use crate::scalar::Scalar;

verus! {

impl<'a, N: Scalar> Formulation<'a, N> {
    pub open spec fn chunk_count(self, p: int) -> nat {
        self.pile(p).chunks@.len()
    }

    pub open spec fn chunk_open(self, p: int, c: int, k: int) -> Column {
        Column::ChunkOpenT { pile: self.pile(p).id, chunk: c as usize, interval: k as usize }
    }

    pub open spec fn chunk_open_q(self, p: int, c: int, k: int, g: int) -> Column {
        Column::ChunkOpenQ { pile: self.pile(p).id, chunk: c as usize, interval: k as usize, grade: g as usize }
    }

    pub open spec fn chunk_draw(self, p: int, c: int, k: int) -> Column {
        Column::ChunkReclT { pile: self.pile(p).id, chunk: c as usize, interval: k as usize }
    }

    pub open spec fn chunk_draw_q(self, p: int, c: int, k: int, g: int) -> Column {
        Column::ChunkReclQ { pile: self.pile(p).id, chunk: c as usize, interval: k as usize, grade: g as usize }
    }

    pub open spec fn chunk_closed(self, p: int, c: int, k: int) -> Column {
        Column::ChunkClosed { pile: self.pile(p).id, chunk: c as usize, interval: k as usize }
    }

    pub open spec fn chunk_empty(self, p: int, c: int, k: int) -> Column {
        Column::ChunkEmpty { pile: self.pile(p).id, chunk: c as usize, interval: k as usize }
    }

    pub open spec fn chunk_recv(self, p: int, c: int, k: int, m: int) -> Column {
        Column::ChunkRecv { pile: self.pile(p).id, chunk: c as usize, interval: k as usize, candidate: m as usize }
    }

    /// Candidate `m` brings material to the pile.
    pub open spec fn feeds(self, p: int, m: int) -> bool {
        delivers(self.candidate(m), self.pile(p).id, self.input.destinations@)
    }

    fn does_feed(&self, p: usize, m: usize) -> (r: bool)
        requires
            p < self.input.piles@.len(),
            m < self.candidates(),
        ensures
            r == self.feeds(p as int, m as int),
    {
        delivers_to_pile(&self.input.movements[m], self.input.piles[p].id, &self.input.destinations)
    }

    /// What a chunk holds at the start, where that is given.
    pub open spec fn chunk_opening(self, p: int, c: int) -> Option<N> {
        self.pile(p).opening_in(c)
    }

    /// What a chunk holds of a grade at the start.
    pub open spec fn chunk_opening_q(self, p: int, c: int, g: int) -> N {
        self.pile(p).opening_in_of(c, g)
    }

    /// The most that one candidate can bring in interval `k`.
    pub open spec fn receipt_peak(self, p: int, k: int) -> spec_fn(N, int) -> N {
        |peak: N, m: int|
            match candidate_rate(*self.input, self.candidate(m), k as usize) {
                Some(rate) => if self.feeds(p, m) {
                    peak.upper(rate.times(self.length(k)))
                } else {
                    peak
                },
                None => peak,
            }
    }

    /// What the loader of a candidate can take in interval `k`, told of its
    /// first candidate.
    pub open spec fn draw_part(self, p: int, k: int) -> spec_fn(int) -> Option<N> {
        |m: int|
            match candidate_rate(*self.input, self.candidate(m), k as usize) {
                Some(rate) => if self.first_lift(m, self.pile(p).id) {
                    Some(rate.times(self.length(k)))
                } else {
                    None
                },
                None => None,
            }
    }

    /// The most that a chunk can receive from one candidate in interval `k`.
    pub open spec fn receipt_bound(self, p: int, c: int, k: int) -> N {
        self.pile(p).chunks@[c].lower(folded(self.candidates(), nil::<N>(), self.receipt_peak(p, k))).upper(nil::<N>())
    }

    /// The most that can be taken from a chunk in interval `k`.
    pub open spec fn draw_bound(self, p: int, c: int, k: int) -> N {
        self.pile(p).chunks@[c].lower(sum_to(self.candidates(), self.draw_part(p, k))).upper(nil::<N>())
    }

    fn find_receipt_bound(&self, p: usize, c: usize, k: usize) -> (r: N)
        requires
            p < self.input.piles@.len(),
            c < self.chunk_count(p as int),
            k < self.horizon(),
        ensures
            r == self.receipt_bound(p as int, c as int, k as int),
    {
        let length = self.input.intervals[k].duration_h();
        let mut peak = N::whole(0);
        for m in 0..self.input.movements.len()
            invariant
                p < self.input.piles@.len(),
                length == self.length(k as int),
                peak == folded(m as nat, nil::<N>(), self.receipt_peak(p as int, k as int)),
        {
            if let Some(rate) = loader_rate(self.input, &self.input.movements[m], k) {
                if self.does_feed(p, m) {
                    peak = peak.larger(rate.mul(length));
                }
            }
        }
        self.input.piles[p].chunks[c].smaller(peak).larger(N::whole(0))
    }

    fn find_draw_bound(&self, p: usize, c: usize, k: usize) -> (r: N)
        requires
            p < self.input.piles@.len(),
            c < self.chunk_count(p as int),
            k < self.horizon(),
        ensures
            r == self.draw_bound(p as int, c as int, k as int),
    {
        let length = self.input.intervals[k].duration_h();
        let pile = self.input.piles[p].id;
        let mut total = N::whole(0);
        for m in 0..self.input.movements.len()
            invariant
                p < self.input.piles@.len(),
                pile == self.pile(p as int).id,
                length == self.length(k as int),
                total == sum_to(m as nat, self.draw_part(p as int, k as int)),
        {
            let candidate = &self.input.movements[m];
            if let Some(rate) = loader_rate(self.input, candidate, k) {
                if self.is_first_lift(m, pile) {
                    total = total.add(rate.mul(length));
                }
            }
        }
        self.input.piles[p].chunks[c].smaller(total).larger(N::whole(0))
    }

    // Columns.

    pub open spec fn chunk_grade_columns(self, p: int, c: int, k: int) -> spec_fn(int) -> Seq<Line<N>> {
        |g: int|
            {
                let upper = self.pile(p).chunks@[c].times(self.ceiling(g));
                seq![
                    continuous(self.chunk_open_q(p, c, k, g), upper),
                    continuous(self.chunk_draw_q(p, c, k, g), upper),
                ]
            }
    }

    pub open spec fn chunk_recv_column(self, p: int, c: int, k: int) -> spec_fn(int) -> Seq<Line<N>> {
        |m: int|
            if self.feeds(p, m) {
                seq![continuous(self.chunk_recv(p, c, k, m), self.pile(p).chunks@[c])]
            } else {
                Seq::empty()
            }
    }

    pub open spec fn chunk_columns(self, p: int, c: int) -> spec_fn(int) -> Seq<Line<N>> {
        |k: int|
            {
                let cap = self.pile(p).chunks@[c];
                seq![continuous(self.chunk_open(p, c, k), cap)] + flat(
                    self.grades(),
                    self.chunk_grade_columns(p, c, k),
                ) + seq![
                    continuous(self.chunk_draw(p, c, k), cap),
                    binary(self.chunk_closed(p, c, k)),
                    binary(self.chunk_empty(p, c, k)),
                ] + flat(self.candidates(), self.chunk_recv_column(p, c, k))
            }
    }

    pub open spec fn chunk_column_lines(self, p: int) -> spec_fn(int) -> Seq<Line<N>> {
        |c: int| flat(self.horizon(), self.chunk_columns(p, c))
    }

    fn write_chunk_columns(&self, sheet: &mut Sheet<N>, p: usize, c: usize, k: usize)
        requires
            self.ready_to_write(),
            p < self.input.piles@.len(),
            c < self.chunk_count(p as int),
        ensures
            final(sheet)@ == old(sheet)@ + self.chunk_columns(p as int, c as int)(k as int),
    {
        let ghost (gp, gc, gk) = (p as int, c as int, k as int);
        let pile = self.input.piles[p].id;
        let cap = self.input.piles[p].chunks[c];
        let grades: usize = self.input.grades.count();
        let ghost base = sheet@;
        sheet.cont(Column::ChunkOpenT { pile, chunk: c, interval: k }, cap);
        let ghost inner = sheet@;
        let ghost graded = self.chunk_grade_columns(gp, gc, gk);
        assert(inner + flat(0, graded) =~= inner);
        for g in 0..grades
            invariant
                gp == p,
                gc == c,
                gk == k,
                self.ready_to_write(),
                p < self.input.piles@.len(),
                pile == self.pile(gp).id,
                cap == self.pile(gp).chunks@[gc],
                grades == self.grades(),
                graded == self.chunk_grade_columns(gp, gc, gk),
                sheet@ == inner + flat(g as nat, graded),
        {
            let upper = cap.mul(self.find_ceiling(g));
            sheet.cont(Column::ChunkOpenQ { pile, chunk: c, interval: k, grade: g }, upper);
            sheet.cont(Column::ChunkReclQ { pile, chunk: c, interval: k, grade: g }, upper);
            assert(sheet@ =~= inner + (flat(g as nat, graded) + graded(g as int)));
        }
        sheet.cont(Column::ChunkReclT { pile, chunk: c, interval: k }, cap);
        sheet.binary(Column::ChunkClosed { pile, chunk: c, interval: k });
        sheet.binary(Column::ChunkEmpty { pile, chunk: c, interval: k });
        let ghost middle = sheet@;
        let ghost fed = self.chunk_recv_column(gp, gc, gk);
        assert(middle + flat(0, fed) =~= middle);
        for m in 0..self.input.movements.len()
            invariant
                gp == p,
                gc == c,
                gk == k,
                p < self.input.piles@.len(),
                pile == self.pile(gp).id,
                cap == self.pile(gp).chunks@[gc],
                fed == self.chunk_recv_column(gp, gc, gk),
                sheet@ == middle + flat(m as nat, fed),
        {
            if self.does_feed(p, m) {
                sheet.cont(Column::ChunkRecv { pile, chunk: c, interval: k, candidate: m }, cap);
            }
            assert(sheet@ =~= middle + (flat(m as nat, fed) + fed(m as int)));
        }
        assert(sheet@ =~= base + self.chunk_columns(gp, gc)(gk));
    }

    // Opening, closing and balance of a chunk.

    /// What each candidate brings to a chunk, taken away.
    pub open spec fn recv_away(self, p: int, c: int, k: int) -> spec_fn(int) -> Seq<(Column, N)> {
        |m: int|
            if self.feeds(p, m) {
                seq![(self.chunk_recv(p, c, k, m), less_one::<N>())]
            } else {
                Seq::empty()
            }
    }

    /// What each candidate brings to a chunk of a grade, taken away.
    pub open spec fn recv_grade_away(self, p: int, c: int, k: int, g: int) -> spec_fn(int) -> Seq<(Column, N)> {
        |m: int|
            match self.input.grades.fraction_at(self.candidate(m).material, g) {
                Some(fraction) => if self.feeds(p, m) {
                    seq![(self.chunk_recv(p, c, k, m), fraction.opposite())]
                } else {
                    Seq::empty()
                },
                None => Seq::empty(),
            }
    }

    pub open spec fn chunk_balance(self, p: int, c: int, k: int) -> Line<N> {
        let opening = (self.chunk_open(p, c, k), one::<N>());
        if k == 0 {
            equal_row(
                seq![opening],
                match self.chunk_opening(p, c) {
                    Some(tonnes) => tonnes,
                    None => nil::<N>(),
                },
            )
        } else {
            equal_row(
                seq![
                    opening,
                    (self.chunk_open(p, c, k - 1), less_one::<N>()),
                    (self.chunk_draw(p, c, k - 1), one::<N>()),
                ] + flat(self.candidates(), self.recv_away(p, c, k - 1)),
                nil::<N>(),
            )
        }
    }

    pub open spec fn chunk_grade_balance(self, p: int, c: int, k: int) -> spec_fn(int) -> Seq<Line<N>> {
        |g: int|
            {
                let opening = (self.chunk_open_q(p, c, k, g), one::<N>());
                seq![
                    if k == 0 {
                        equal_row(seq![opening], self.chunk_opening_q(p, c, g))
                    } else {
                        equal_row(
                            seq![
                                opening,
                                (self.chunk_open_q(p, c, k - 1, g), less_one::<N>()),
                                (self.chunk_draw_q(p, c, k - 1, g), one::<N>()),
                            ] + flat(self.candidates(), self.recv_grade_away(p, c, k - 1, g)),
                            nil::<N>(),
                        )
                    },
                ]
            }
    }

    /// When a chunk is closed: from the start where it holds anything then,
    /// after the chunk before it, and for good.
    pub open spec fn chunk_closing(self, p: int, c: int, k: int) -> Seq<Line<N>> {
        let closed = (self.chunk_closed(p, c, k), one::<N>());
        let full = match self.chunk_opening(p, c) {
            Some(tonnes) => nil::<N>().below(tonnes),
            None => false,
        };
        (if full {
            seq![equal_row(seq![closed], one::<N>())]
        } else {
            Seq::empty()
        }) + (if c > 0 {
            seq![at_most_row(seq![closed, (self.chunk_closed(p, c - 1, k), less_one::<N>())], nil::<N>())]
        } else {
            Seq::empty()
        }) + (if k + 1 < self.horizon() {
            seq![at_most_row(seq![closed, (self.chunk_closed(p, c, k + 1), less_one::<N>())], nil::<N>())]
        } else {
            Seq::empty()
        })
    }

    fn write_chunk_closing(&self, sheet: &mut Sheet<N>, p: usize, c: usize, k: usize)
        requires
            p < self.input.piles@.len(),
            k < self.horizon(),
        ensures
            final(sheet)@ == old(sheet)@ + self.chunk_closing(p as int, c as int, k as int),
    {
        let ghost base = sheet@;
        let pile = self.input.piles[p].id;
        let horizon: usize = self.input.intervals.len();
        let closed = Column::ChunkClosed { pile, chunk: c, interval: k };
        let full: bool = match self.input.piles[p].chunk_holds(c) {
            Some(tonnes) => N::whole(0).is_below(tonnes),
            None => false,
        };
        if full {
            sheet.eq(term(closed, N::whole(1)), N::whole(1));
        }
        if c > 0 {
            let previous = Column::ChunkClosed { pile, chunk: c - 1, interval: k };
            sheet.leq(terms_of(closed, N::whole(1), previous, N::whole(1).neg()), N::whole(0));
        }
        if k + 1 < horizon {
            let next = Column::ChunkClosed { pile, chunk: c, interval: k + 1 };
            sheet.leq(terms_of(closed, N::whole(1), next, N::whole(1).neg()), N::whole(0));
        }
        assert(sheet@ =~= base + self.chunk_closing(p as int, c as int, k as int));
    }

    fn write_chunk_balance(&self, sheet: &mut Sheet<N>, p: usize, c: usize, k: usize)
        requires
            p < self.input.piles@.len(),
        ensures
            final(sheet)@ == old(sheet)@.push(self.chunk_balance(p as int, c as int, k as int)),
    {
        let pile = self.input.piles[p].id;
        let opening = Column::ChunkOpenT { pile, chunk: c, interval: k };
        if k == 0 {
            let held = match self.input.piles[p].chunk_holds(c) {
                Some(tonnes) => tonnes,
                None => N::whole(0),
            };
            sheet.eq(term(opening, N::whole(1)), held);
        } else {
            let mut terms = terms_of_three(
                opening,
                N::whole(1),
                Column::ChunkOpenT { pile, chunk: c, interval: k - 1 },
                N::whole(1).neg(),
                Column::ChunkReclT { pile, chunk: c, interval: k - 1 },
                N::whole(1),
            );
            let ghost first = terms@;
            let ghost f = self.recv_away(p as int, c as int, k - 1);
            assert(first + flat(0, f) =~= first);
            for m in 0..self.input.movements.len()
                invariant
                    k > 0,
                    p < self.input.piles@.len(),
                    pile == self.pile(p as int).id,
                    f == self.recv_away(p as int, c as int, k - 1),
                    terms@ == first + flat(m as nat, f),
            {
                if self.does_feed(p, m) {
                    terms.push(
                        (Column::ChunkRecv { pile, chunk: c, interval: k - 1, candidate: m }, N::whole(1).neg()),
                    );
                }
                assert(terms@ =~= first + (flat(m as nat, f) + f(m as int)));
            }
            sheet.eq(terms, N::whole(0));
        }
    }

    fn write_chunk_grade_balance(&self, sheet: &mut Sheet<N>, p: usize, c: usize, k: usize, g: usize)
        requires
            p < self.input.piles@.len(),
        ensures
            final(sheet)@ == old(sheet)@ + self.chunk_grade_balance(p as int, c as int, k as int)(g as int),
    {
        let ghost base = sheet@;
        let pile = self.input.piles[p].id;
        let opening = Column::ChunkOpenQ { pile, chunk: c, interval: k, grade: g };
        if k == 0 {
            sheet.eq(term(opening, N::whole(1)), self.input.piles[p].chunk_holds_of(c, g));
        } else {
            let mut terms = terms_of_three(
                opening,
                N::whole(1),
                Column::ChunkOpenQ { pile, chunk: c, interval: k - 1, grade: g },
                N::whole(1).neg(),
                Column::ChunkReclQ { pile, chunk: c, interval: k - 1, grade: g },
                N::whole(1),
            );
            let ghost first = terms@;
            let ghost f = self.recv_grade_away(p as int, c as int, k - 1, g as int);
            assert(first + flat(0, f) =~= first);
            for m in 0..self.input.movements.len()
                invariant
                    k > 0,
                    p < self.input.piles@.len(),
                    pile == self.pile(p as int).id,
                    f == self.recv_grade_away(p as int, c as int, k - 1, g as int),
                    terms@ == first + flat(m as nat, f),
            {
                if let Some(fraction) = self.input.grades.fraction(self.input.movements[m].material, g) {
                    if self.does_feed(p, m) {
                        terms.push((Column::ChunkRecv { pile, chunk: c, interval: k - 1, candidate: m }, fraction.neg()));
                    }
                }
                assert(terms@ =~= first + (flat(m as nat, f) + f(m as int)));
            }
            sheet.eq(terms, N::whole(0));
        }
        assert(sheet@ =~= base + self.chunk_grade_balance(p as int, c as int, k as int)(g as int));
    }

    // Receiving and drawing.

    /// A chunk receives only while open, and only once the one before it is closed.
    pub open spec fn chunk_receiving(self, p: int, c: int, k: int) -> spec_fn(int) -> Seq<Line<N>> {
        |m: int|
            if self.feeds(p, m) {
                let bound = self.receipt_bound(p, c, k);
                let received = (self.chunk_recv(p, c, k, m), one::<N>());
                seq![at_most_row(seq![received, (self.chunk_closed(p, c, k), bound)], bound)] + (if c > 0 {
                    seq![
                        at_most_row(seq![received, (self.chunk_closed(p, c - 1, k), bound.opposite())], nil::<N>()),
                    ]
                } else {
                    Seq::empty()
                })
            } else {
                Seq::empty()
            }
    }

    /// A chunk is drawn only once closed, and no further than it holds.
    pub open spec fn chunk_drawing(self, p: int, c: int, k: int) -> Seq<Line<N>> {
        let cap = self.pile(p).chunks@[c];
        let draw = (self.chunk_draw(p, c, k), one::<N>());
        seq![
            at_most_row(seq![draw, (self.chunk_closed(p, c, k), self.draw_bound(p, c, k).opposite())], nil::<N>()),
            at_most_row(seq![draw, (self.chunk_open(p, c, k), less_one::<N>())], nil::<N>()),
            at_most_row(seq![(self.chunk_open(p, c, k), one::<N>()), (self.chunk_empty(p, c, k), cap)], cap),
        ]
    }

    pub open spec fn chunk_mixing(self, p: int, c: int, k: int) -> spec_fn(int) -> Seq<Line<N>> {
        |g: int|
            seq![
                Line::Mix {
                    pile: self.pile(p).id,
                    key: chunk_number(c, k, self.horizon() as int) as usize,
                    grade: g as usize,
                    recl_q: self.chunk_draw_q(p, c, k, g),
                    open_t: self.chunk_open(p, c, k),
                    recl_t: self.chunk_draw(p, c, k),
                    open_q: self.chunk_open_q(p, c, k, g),
                },
                at_most_row(
                    seq![
                        (self.chunk_draw_q(p, c, k, g), one::<N>()),
                        (self.chunk_draw(p, c, k), self.ceiling(g).opposite()),
                    ],
                    nil::<N>(),
                ),
                at_most_row(
                    seq![
                        (self.chunk_open_q(p, c, k, g), one::<N>()),
                        (self.chunk_open(p, c, k), self.ceiling(g).opposite()),
                    ],
                    nil::<N>(),
                ),
            ]
    }

    /// A chunk waits for the older ones to be empty.
    pub open spec fn chunk_after_older(self, p: int, c: int, k: int) -> spec_fn(int) -> Seq<Line<N>> {
        |j: int|
            seq![
                at_most_row(
                    seq![
                        (self.chunk_draw(p, c, k), one::<N>()),
                        (self.chunk_empty(p, j, k), self.draw_bound(p, c, k).opposite()),
                    ],
                    nil::<N>(),
                ),
            ]
    }

    /// A chunk waits for the newer ones that are closed to be empty.
    pub open spec fn chunk_after_newer(self, p: int, c: int, k: int) -> spec_fn(int) -> Seq<Line<N>> {
        |x: int|
            {
                let j = c + 1 + x;
                let bound = self.draw_bound(p, c, k);
                seq![
                    at_most_row(
                        seq![
                            (self.chunk_draw(p, c, k), one::<N>()),
                            (self.chunk_empty(p, j, k), bound.opposite()),
                            (self.chunk_closed(p, j, k), bound),
                        ],
                        bound,
                    ),
                ]
            }
    }

    pub open spec fn chunk_turns(self, p: int, c: int, k: int) -> Seq<Line<N>> {
        match self.pile(p).order {
            ReclaimOrder::Fifo => flat(c as nat, self.chunk_after_older(p, c, k)),
            ReclaimOrder::Lifo => flat((self.chunk_count(p) - c - 1) as nat, self.chunk_after_newer(p, c, k)),
        }
    }

    pub open spec fn chunk_rows(self, p: int, c: int) -> spec_fn(int) -> Seq<Line<N>> {
        |k: int|
            self.chunk_closing(p, c, k) + seq![self.chunk_balance(p, c, k)] + flat(
                self.grades(),
                self.chunk_grade_balance(p, c, k),
            ) + flat(self.candidates(), self.chunk_receiving(p, c, k)) + self.chunk_drawing(p, c, k) + flat(
                self.grades(),
                self.chunk_mixing(p, c, k),
            ) + self.chunk_turns(p, c, k)
    }

    fn write_chunk_receiving(&self, sheet: &mut Sheet<N>, p: usize, c: usize, k: usize)
        requires
            p < self.input.piles@.len(),
            c < self.chunk_count(p as int),
            k < self.horizon(),
        ensures
            final(sheet)@ == old(sheet)@ + flat(
                self.candidates(),
                self.chunk_receiving(p as int, c as int, k as int),
            ),
    {
        let ghost (gp, gc, gk) = (p as int, c as int, k as int);
        let pile = self.input.piles[p].id;
        let bound = self.find_receipt_bound(p, c, k);
        let closed = Column::ChunkClosed { pile, chunk: c, interval: k };
        let ghost base = sheet@;
        let ghost line = self.chunk_receiving(gp, gc, gk);
        assert(base + flat(0, line) =~= base);
        for m in 0..self.input.movements.len()
            invariant
                gp == p,
                gc == c,
                gk == k,
                p < self.input.piles@.len(),
                pile == self.pile(gp).id,
                bound == self.receipt_bound(gp, gc, gk),
                closed == self.chunk_closed(gp, gc, gk),
                line == self.chunk_receiving(gp, gc, gk),
                sheet@ == base + flat(m as nat, line),
        {
            if self.does_feed(p, m) {
                let received = Column::ChunkRecv { pile, chunk: c, interval: k, candidate: m };
                sheet.leq(terms_of(received, N::whole(1), closed, bound), bound);
                if c > 0 {
                    let previous = Column::ChunkClosed { pile, chunk: c - 1, interval: k };
                    sheet.leq(terms_of(received, N::whole(1), previous, bound.neg()), N::whole(0));
                }
            }
            assert(sheet@ =~= base + (flat(m as nat, line) + line(m as int)));
        }
    }

    fn write_chunk_drawing(&self, sheet: &mut Sheet<N>, p: usize, c: usize, k: usize)
        requires
            p < self.input.piles@.len(),
            c < self.chunk_count(p as int),
            k < self.horizon(),
        ensures
            final(sheet)@ == old(sheet)@ + self.chunk_drawing(p as int, c as int, k as int),
    {
        let ghost base = sheet@;
        let pile = self.input.piles[p].id;
        let cap = self.input.piles[p].chunks[c];
        let draw = Column::ChunkReclT { pile, chunk: c, interval: k };
        let open = Column::ChunkOpenT { pile, chunk: c, interval: k };
        let closed = Column::ChunkClosed { pile, chunk: c, interval: k };
        let empty = Column::ChunkEmpty { pile, chunk: c, interval: k };
        let bound = self.find_draw_bound(p, c, k);
        sheet.leq(terms_of(draw, N::whole(1), closed, bound.neg()), N::whole(0));
        sheet.leq(terms_of(draw, N::whole(1), open, N::whole(1).neg()), N::whole(0));
        sheet.leq(terms_of(open, N::whole(1), empty, cap), cap);
        assert(sheet@ =~= base + self.chunk_drawing(p as int, c as int, k as int));
    }

    fn write_chunk_mixing(&self, sheet: &mut Sheet<N>, p: usize, c: usize, k: usize)
        requires
            self.ready_to_write(),
            p < self.input.piles@.len(),
            c < self.chunk_count(p as int),
            k < self.horizon(),
        ensures
            final(sheet)@ == old(sheet)@ + flat(self.grades(), self.chunk_mixing(p as int, c as int, k as int)),
    {
        let ghost (gp, gc, gk) = (p as int, c as int, k as int);
        let pile = self.input.piles[p].id;
        let grades: usize = self.input.grades.count();
        let horizon: usize = self.input.intervals.len();
        let draw = Column::ChunkReclT { pile, chunk: c, interval: k };
        let open = Column::ChunkOpenT { pile, chunk: c, interval: k };
        proof {
            assert(chunks_fit(self.input.piles@[gp].chunks@.len(), self.horizon()));
            number_fits(gc, gk, self.chunk_count(gp), self.horizon());
        }
        let key: usize = chunk_key(c, k, horizon);
        let ghost base = sheet@;
        let ghost line = self.chunk_mixing(gp, gc, gk);
        assert(base + flat(0, line) =~= base);
        for g in 0..grades
            invariant
                gp == p,
                gc == c,
                gk == k,
                self.ready_to_write(),
                p < self.input.piles@.len(),
                pile == self.pile(gp).id,
                grades == self.grades(),
                key == chunk_number(gc, gk, self.horizon() as int),
                draw == self.chunk_draw(gp, gc, gk),
                open == self.chunk_open(gp, gc, gk),
                line == self.chunk_mixing(gp, gc, gk),
                sheet@ == base + flat(g as nat, line),
        {
            let q_open = Column::ChunkOpenQ { pile, chunk: c, interval: k, grade: g };
            let q_draw = Column::ChunkReclQ { pile, chunk: c, interval: k, grade: g };
            sheet.mix(pile, key, g, q_draw, open, draw, q_open);
            sheet.leq(terms_of(q_draw, N::whole(1), draw, self.find_ceiling(g).neg()), N::whole(0));
            sheet.leq(terms_of(q_open, N::whole(1), open, self.find_ceiling(g).neg()), N::whole(0));
            assert(sheet@ =~= base + (flat(g as nat, line) + line(g as int)));
        }
    }

    fn write_chunk_turns(&self, sheet: &mut Sheet<N>, p: usize, c: usize, k: usize)
        requires
            p < self.input.piles@.len(),
            c < self.chunk_count(p as int),
            k < self.horizon(),
        ensures
            final(sheet)@ == old(sheet)@ + self.chunk_turns(p as int, c as int, k as int),
    {
        let ghost (gp, gc, gk) = (p as int, c as int, k as int);
        let pile = self.input.piles[p].id;
        let count: usize = self.input.piles[p].chunks.len();
        let bound = self.find_draw_bound(p, c, k);
        let draw = Column::ChunkReclT { pile, chunk: c, interval: k };
        let ghost base = sheet@;
        match self.input.piles[p].order {
            ReclaimOrder::Fifo => {
                let ghost line = self.chunk_after_older(gp, gc, gk);
                assert(base + flat(0, line) =~= base);
                for j in 0..c
                    invariant
                        gp == p,
                        gc == c,
                        gk == k,
                        pile == self.pile(gp).id,
                        bound == self.draw_bound(gp, gc, gk),
                        draw == self.chunk_draw(gp, gc, gk),
                        line == self.chunk_after_older(gp, gc, gk),
                        sheet@ == base + flat(j as nat, line),
                {
                    let older = Column::ChunkEmpty { pile, chunk: j, interval: k };
                    sheet.leq(terms_of(draw, N::whole(1), older, bound.neg()), N::whole(0));
                    assert(sheet@ =~= base + (flat(j as nat, line) + line(j as int)));
                }
            },
            ReclaimOrder::Lifo => {
                let more: usize = count - c - 1;
                let ghost line = self.chunk_after_newer(gp, gc, gk);
                assert(base + flat(0, line) =~= base);
                for x in 0..more
                    invariant
                        gp == p,
                        gc == c,
                        gk == k,
                        c < count,
                        more == count - c - 1,
                        pile == self.pile(gp).id,
                        bound == self.draw_bound(gp, gc, gk),
                        draw == self.chunk_draw(gp, gc, gk),
                        line == self.chunk_after_newer(gp, gc, gk),
                        sheet@ == base + flat(x as nat, line),
                {
                    let j: usize = c + 1 + x;
                    let newer = Column::ChunkEmpty { pile, chunk: j, interval: k };
                    let released = Column::ChunkClosed { pile, chunk: j, interval: k };
                    sheet.leq(terms_of_three(draw, N::whole(1), newer, bound.neg(), released, bound), bound);
                    assert(sheet@ =~= base + (flat(x as nat, line) + line(x as int)));
                }
            },
        }
    }

    fn write_chunk_rows(&self, sheet: &mut Sheet<N>, p: usize, c: usize, k: usize)
        requires
            self.ready_to_write(),
            p < self.input.piles@.len(),
            c < self.chunk_count(p as int),
            k < self.horizon(),
        ensures
            final(sheet)@ == old(sheet)@ + self.chunk_rows(p as int, c as int)(k as int),
    {
        let grades: usize = self.input.grades.count();
        let ghost base = sheet@;
        self.write_chunk_closing(sheet, p, c, k);
        self.write_chunk_balance(sheet, p, c, k);
        let ghost inner = sheet@;
        let ghost line = self.chunk_grade_balance(p as int, c as int, k as int);
        assert(inner + flat(0, line) =~= inner);
        for g in 0..grades
            invariant
                p < self.input.piles@.len(),
                grades == self.grades(),
                line == self.chunk_grade_balance(p as int, c as int, k as int),
                sheet@ == inner + flat(g as nat, line),
        {
            self.write_chunk_grade_balance(sheet, p, c, k, g);
            assert(sheet@ =~= inner + (flat(g as nat, line) + line(g as int)));
        }
        self.write_chunk_receiving(sheet, p, c, k);
        self.write_chunk_drawing(sheet, p, c, k);
        self.write_chunk_mixing(sheet, p, c, k);
        self.write_chunk_turns(sheet, p, c, k);
        assert(sheet@ =~= base + self.chunk_rows(p as int, c as int)(k as int));
    }

    // Filling.

    pub open spec fn fill_term(self, p: int, c: int, k: int) -> spec_fn(int) -> Seq<(Column, N)> {
        |m: int|
            if self.feeds(p, m) {
                seq![(self.chunk_recv(p, c, k, m), one::<N>())]
            } else {
                Seq::empty()
            }
    }

    pub open spec fn fill_interval(self, p: int, c: int) -> spec_fn(int) -> Seq<(Column, N)> {
        |k: int| flat(self.candidates(), self.fill_term(p, c, k))
    }

    /// A chunk receives no more than it holds over the whole horizon.
    pub open spec fn chunk_fill(self, p: int, c: int) -> Seq<Line<N>> {
        let terms = flat(self.horizon(), self.fill_interval(p, c));
        if terms.len() == 0 {
            Seq::empty()
        } else {
            seq![at_most_row(terms, self.pile(p).chunks@[c])]
        }
    }

    pub open spec fn chunk_lines(self, p: int) -> spec_fn(int) -> Seq<Line<N>> {
        |c: int| flat(self.horizon(), self.chunk_rows(p, c)) + self.chunk_fill(p, c)
    }

    fn write_chunk_fill(&self, sheet: &mut Sheet<N>, p: usize, c: usize)
        requires
            p < self.input.piles@.len(),
            c < self.chunk_count(p as int),
        ensures
            final(sheet)@ == old(sheet)@ + self.chunk_fill(p as int, c as int),
    {
        let ghost base = sheet@;
        let pile = self.input.piles[p].id;
        let mut terms: Vec<(Column, N)> = Vec::new();
        let ghost each = self.fill_interval(p as int, c as int);
        for k in 0..self.input.intervals.len()
            invariant
                p < self.input.piles@.len(),
                pile == self.pile(p as int).id,
                each == self.fill_interval(p as int, c as int),
                terms@ == flat(k as nat, each),
        {
            let ghost inner = terms@;
            let ghost f = self.fill_term(p as int, c as int, k as int);
            assert(inner + flat(0, f) =~= inner);
            for m in 0..self.input.movements.len()
                invariant
                    p < self.input.piles@.len(),
                    pile == self.pile(p as int).id,
                    f == self.fill_term(p as int, c as int, k as int),
                    terms@ == inner + flat(m as nat, f),
            {
                if self.does_feed(p, m) {
                    terms.push((Column::ChunkRecv { pile, chunk: c, interval: k, candidate: m }, N::whole(1)));
                }
                assert(terms@ =~= inner + (flat(m as nat, f) + f(m as int)));
            }
            assert(terms@ =~= flat(k as nat, each) + each(k as int));
        }
        if terms.len() > 0 {
            sheet.leq(terms, self.input.piles[p].chunks[c]);
        }
        assert(sheet@ =~= base + self.chunk_fill(p as int, c as int));
    }

    // The pile as a whole.

    /// What the chunks of a pile hold at the start of an interval.
    pub open spec fn chunk_opening_terms(self, p: int, k: int) -> Seq<(Column, N)> {
        Seq::new(self.chunk_count(p), |c: int| (self.chunk_open(p, c, k), one::<N>()))
    }

    /// Writes out what the chunks of a pile hold at the start of an interval.
    pub fn find_chunk_opening_terms(&self, p: usize, k: usize) -> (r: Vec<(Column, N)>)
        requires
            p < self.input.piles@.len(),
        ensures
            r@ == self.chunk_opening_terms(p as int, k as int),
    {
        let pile = &self.input.piles[p];
        let mut terms: Vec<(Column, N)> = Vec::new();
        let ghost all = self.chunk_opening_terms(p as int, k as int);
        for c in 0..pile.chunks.len()
            invariant
                pile == self.pile(p as int),
                all == self.chunk_opening_terms(p as int, k as int),
                terms@ =~= all.take(c as int),
        {
            terms.push((Column::ChunkOpenT { pile: pile.id, chunk: c, interval: k }, N::whole(1)));
        }
        assert(terms@ =~= all);
        terms
    }

    pub open spec fn chunk_occupancy(self, p: int) -> spec_fn(int) -> Seq<Line<N>> {
        |k: int| self.occupancy(p, k, self.chunk_opening_terms(p, k))
    }

    pub open spec fn split_terms(self, p: int, k: int, m: int) -> Seq<(Column, N)> {
        Seq::new(self.chunk_count(p), |c: int| (self.chunk_recv(p, c, k, m), one::<N>()))
    }

    /// What a movement brings is split over the chunks.
    pub open spec fn split_line(self, p: int, k: int) -> spec_fn(int) -> Seq<Line<N>> {
        |m: int|
            if self.feeds(p, m) {
                seq![
                    equal_row(
                        self.split_terms(p, k, m) + self.run_of(
                            Selector::Bring { pile: self.pile(p).id },
                            m,
                            k,
                            self.segments as nat,
                        ),
                        nil::<N>(),
                    ),
                ]
            } else {
                Seq::empty()
            }
    }

    pub open spec fn draw_sum_terms(self, p: int, k: int) -> Seq<(Column, N)> {
        Seq::new(self.chunk_count(p), |c: int| (self.chunk_draw(p, c, k), less_one::<N>()))
    }

    pub open spec fn draw_q_sum_terms(self, p: int, k: int, g: int) -> Seq<(Column, N)> {
        Seq::new(self.chunk_count(p), |c: int| (self.chunk_draw_q(p, c, k, g), less_one::<N>()))
    }

    pub open spec fn draw_q_sum(self, p: int, k: int) -> spec_fn(int) -> Seq<Line<N>> {
        |g: int|
            seq![
                continuous(self.recl_q(p, k, g), self.pile(p).capacity_t.times(self.ceiling(g))),
                equal_row(
                    seq![(self.recl_q(p, k, g), one::<N>())] + self.draw_q_sum_terms(p, k, g),
                    nil::<N>(),
                ),
            ]
    }

    /// What a pile receives and gives up is what its chunks do together.
    pub open spec fn chunk_totals(self, p: int) -> spec_fn(int) -> Seq<Line<N>> {
        |k: int|
            flat(self.candidates(), self.split_line(p, k)) + seq![
                continuous(self.recl_t(p, k), self.pile(p).capacity_t),
                equal_row(seq![(self.recl_t(p, k), one::<N>())] + self.draw_sum_terms(p, k), nil::<N>()),
            ] + flat(self.grades(), self.draw_q_sum(p, k)) + seq![self.taken_row(p, k)]
    }

    /// The lines of a pile with chunks.
    pub open spec fn chunked_pile(self, p: int) -> Seq<Line<N>> {
        flat(self.chunk_count(p), self.chunk_column_lines(p)) + flat(self.chunk_count(p), self.chunk_lines(p)) + flat(
            self.horizon(),
            self.chunk_occupancy(p),
        ) + flat(self.horizon(), self.chunk_totals(p))
    }

    fn write_splits(&self, sheet: &mut Sheet<N>, p: usize, k: usize)
        requires
            p < self.input.piles@.len(),
        ensures
            final(sheet)@ == old(sheet)@ + flat(self.candidates(), self.split_line(p as int, k as int)),
    {
        let pile = self.input.piles[p].id;
        let count: usize = self.input.piles[p].chunks.len();
        let ghost base = sheet@;
        let ghost line = self.split_line(p as int, k as int);
        assert(base + flat(0, line) =~= base);
        for m in 0..self.input.movements.len()
            invariant
                p < self.input.piles@.len(),
                pile == self.pile(p as int).id,
                count == self.chunk_count(p as int),
                line == self.split_line(p as int, k as int),
                sheet@ == base + flat(m as nat, line),
        {
            if self.does_feed(p, m) {
                let mut terms: Vec<(Column, N)> = Vec::new();
                let ghost all = self.split_terms(p as int, k as int, m as int);
                for c in 0..count
                    invariant
                        pile == self.pile(p as int).id,
                        count == self.chunk_count(p as int),
                        all == self.split_terms(p as int, k as int, m as int),
                        terms@ =~= all.take(c as int),
                {
                    terms.push((Column::ChunkRecv { pile, chunk: c, interval: k, candidate: m }, N::whole(1)));
                }
                assert(terms@ =~= all);
                self.add_run_of(&mut terms, Selector::Bring { pile }, m, k, self.segments);
                sheet.eq(terms, N::whole(0));
            }
            assert(sheet@ =~= base + (flat(m as nat, line) + line(m as int)));
        }
    }

    fn write_draw_q_sum(&self, sheet: &mut Sheet<N>, p: usize, k: usize, g: usize)
        requires
            self.ready_to_write(),
            p < self.input.piles@.len(),
            g < self.grades(),
        ensures
            final(sheet)@ == old(sheet)@ + self.draw_q_sum(p as int, k as int)(g as int),
    {
        let ghost base = sheet@;
        let pile = self.input.piles[p].id;
        let count: usize = self.input.piles[p].chunks.len();
        let total = Column::ReclQ { pile, interval: k, grade: g };
        sheet.cont(total, self.input.piles[p].capacity_t.mul(self.find_ceiling(g)));
        let mut terms = term(total, N::whole(1));
        let ghost first = terms@;
        let ghost all = self.draw_q_sum_terms(p as int, k as int, g as int);
        for c in 0..count
            invariant
                pile == self.pile(p as int).id,
                count == self.chunk_count(p as int),
                all == self.draw_q_sum_terms(p as int, k as int, g as int),
                terms@ =~= first + all.take(c as int),
        {
            terms.push((Column::ChunkReclQ { pile, chunk: c, interval: k, grade: g }, N::whole(1).neg()));
        }
        assert(all.take(count as int) =~= all);
        sheet.eq(terms, N::whole(0));
        assert(sheet@ =~= base + self.draw_q_sum(p as int, k as int)(g as int));
    }

    fn write_chunk_totals(&self, sheet: &mut Sheet<N>, p: usize, k: usize)
        requires
            self.ready_to_write(),
            p < self.input.piles@.len(),
        ensures
            final(sheet)@ == old(sheet)@ + self.chunk_totals(p as int)(k as int),
    {
        let ghost base = sheet@;
        let pile = self.input.piles[p].id;
        let count: usize = self.input.piles[p].chunks.len();
        let grades: usize = self.input.grades.count();
        self.write_splits(sheet, p, k);
        let total = Column::ReclT { pile, interval: k };
        sheet.cont(total, self.input.piles[p].capacity_t);
        let mut terms = term(total, N::whole(1));
        let ghost first = terms@;
        let ghost all = self.draw_sum_terms(p as int, k as int);
        for c in 0..count
            invariant
                pile == self.pile(p as int).id,
                count == self.chunk_count(p as int),
                all == self.draw_sum_terms(p as int, k as int),
                terms@ =~= first + all.take(c as int),
        {
            terms.push((Column::ChunkReclT { pile, chunk: c, interval: k }, N::whole(1).neg()));
        }
        assert(all.take(count as int) =~= all);
        sheet.eq(terms, N::whole(0));
        let ghost inner = sheet@;
        let ghost line = self.draw_q_sum(p as int, k as int);
        assert(inner + flat(0, line) =~= inner);
        for g in 0..grades
            invariant
                self.ready_to_write(),
                p < self.input.piles@.len(),
                grades == self.grades(),
                line == self.draw_q_sum(p as int, k as int),
                sheet@ == inner + flat(g as nat, line),
        {
            self.write_draw_q_sum(sheet, p, k, g);
            assert(sheet@ =~= inner + (flat(g as nat, line) + line(g as int)));
        }
        let mut taken = term(total, N::whole(1));
        self.add_run(&mut taken, Selector::Take { pile }, k, self.segments);
        sheet.eq(taken, N::whole(0));
        assert(sheet@ =~= base + self.chunk_totals(p as int)(k as int));
    }

    fn write_all_chunk_columns(&self, sheet: &mut Sheet<N>, p: usize)
        requires
            self.ready_to_write(),
            p < self.input.piles@.len(),
        ensures
            final(sheet)@ == old(sheet)@ + flat(self.chunk_count(p as int), self.chunk_column_lines(p as int)),
    {
        let count: usize = self.input.piles[p].chunks.len();
        let ghost base = sheet@;
        let ghost all = self.chunk_column_lines(p as int);
        assert(base + flat(0, all) =~= base);
        for c in 0..count
            invariant
                self.ready_to_write(),
                p < self.input.piles@.len(),
                count == self.chunk_count(p as int),
                all == self.chunk_column_lines(p as int),
                sheet@ == base + flat(c as nat, all),
        {
            let ghost inner = sheet@;
            let ghost line = self.chunk_columns(p as int, c as int);
            assert(inner + flat(0, line) =~= inner);
            for k in 0..self.input.intervals.len()
                invariant
                    self.ready_to_write(),
                    p < self.input.piles@.len(),
                    c < self.chunk_count(p as int),
                    line == self.chunk_columns(p as int, c as int),
                    sheet@ == inner + flat(k as nat, line),
            {
                self.write_chunk_columns(sheet, p, c, k);
                assert(sheet@ =~= inner + (flat(k as nat, line) + line(k as int)));
            }
            assert(sheet@ =~= base + (flat(c as nat, all) + all(c as int)));
        }
    }

    fn write_all_chunk_rows(&self, sheet: &mut Sheet<N>, p: usize)
        requires
            self.ready_to_write(),
            p < self.input.piles@.len(),
        ensures
            final(sheet)@ == old(sheet)@ + flat(self.chunk_count(p as int), self.chunk_lines(p as int)),
    {
        let count: usize = self.input.piles[p].chunks.len();
        let ghost base = sheet@;
        let ghost all = self.chunk_lines(p as int);
        assert(base + flat(0, all) =~= base);
        for c in 0..count
            invariant
                self.ready_to_write(),
                p < self.input.piles@.len(),
                count == self.chunk_count(p as int),
                all == self.chunk_lines(p as int),
                sheet@ == base + flat(c as nat, all),
        {
            let ghost inner = sheet@;
            let ghost line = self.chunk_rows(p as int, c as int);
            assert(inner + flat(0, line) =~= inner);
            for k in 0..self.input.intervals.len()
                invariant
                    self.ready_to_write(),
                    p < self.input.piles@.len(),
                    c < self.chunk_count(p as int),
                    line == self.chunk_rows(p as int, c as int),
                    sheet@ == inner + flat(k as nat, line),
            {
                self.write_chunk_rows(sheet, p, c, k);
                assert(sheet@ =~= inner + (flat(k as nat, line) + line(k as int)));
            }
            self.write_chunk_fill(sheet, p, c);
            assert(sheet@ =~= base + (flat(c as nat, all) + all(c as int)));
        }
    }

    /// Writes a pile with chunks.
    pub fn write_chunked_pile(&self, sheet: &mut Sheet<N>, p: usize)
        requires
            self.ready_to_write(),
            p < self.input.piles@.len(),
        ensures
            final(sheet)@ == old(sheet)@ + self.chunked_pile(p as int),
    {
        let ghost base = sheet@;
        self.write_all_chunk_columns(sheet, p);
        self.write_all_chunk_rows(sheet, p);
        let ghost middle = sheet@;
        let ghost held = self.chunk_occupancy(p as int);
        assert(middle + flat(0, held) =~= middle);
        for k in 0..self.input.intervals.len()
            invariant
                p < self.input.piles@.len(),
                held == self.chunk_occupancy(p as int),
                sheet@ == middle + flat(k as nat, held),
        {
            let opening = self.find_chunk_opening_terms(p, k);
            self.write_occupancy(sheet, p, k, &opening);
            assert(sheet@ =~= middle + (flat(k as nat, held) + held(k as int)));
        }
        let ghost later = sheet@;
        let ghost line = self.chunk_totals(p as int);
        assert(later + flat(0, line) =~= later);
        for k in 0..self.input.intervals.len()
            invariant
                self.ready_to_write(),
                p < self.input.piles@.len(),
                line == self.chunk_totals(p as int),
                sheet@ == later + flat(k as nat, line),
        {
            self.write_chunk_totals(sheet, p, k);
            assert(sheet@ =~= later + (flat(k as nat, line) + line(k as int)));
        }
        assert(sheet@ =~= base + self.chunked_pile(p as int));
    }
}

} // verus!
