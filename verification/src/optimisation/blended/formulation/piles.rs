//! The columns and rows of blended piles without chunks.
use vstd::prelude::*;

use crate::listing::flat;
use crate::optimisation::blended::formulation::base::{Formulation, Selector};
use crate::optimisation::blended::formulation::model::{Column, Line, Sheet};
use crate::optimisation::blended::input::{delivers, delivers_to_pile, entry_or_zero, BlendPile};
use crate::optimisation::ids::{Activity, SourceId};
use crate::optimisation::sheet::{at_least_row, at_most_row, continuous, equal_row, less_one, nil, one, term, terms_of};
use crate::scalar::Scalar;

verus! {

impl<'a, N: Scalar> Formulation<'a, N> {
    pub open spec fn pile(self, p: int) -> BlendPile<N> {
        self.input.piles@[p]
    }

    pub open spec fn open_t(self, p: int, k: int) -> Column {
        Column::OpenT { pile: self.pile(p).id, interval: k as usize }
    }

    pub open spec fn open_q(self, p: int, k: int, g: int) -> Column {
        Column::OpenQ { pile: self.pile(p).id, interval: k as usize, grade: g as usize }
    }

    pub open spec fn recl_t(self, p: int, k: int) -> Column {
        Column::ReclT { pile: self.pile(p).id, interval: k as usize }
    }

    pub open spec fn recl_q(self, p: int, k: int, g: int) -> Column {
        Column::ReclQ { pile: self.pile(p).id, interval: k as usize, grade: g as usize }
    }

    // What a pile holds within an interval.

    /// What candidate `c` adds to a pile: one where it brings, less one where
    /// it takes, nothing where it does both or neither.
    pub open spec fn balance(self, p: int, c: int) -> Option<N> {
        let brings = delivers(self.candidate(c), self.pile(p).id, self.input.destinations@);
        let takes = self.takes_from(c, self.pile(p).id);
        let weight = match (brings, takes) {
            (true, true) => nil::<N>().plus(one::<N>()).minus(one::<N>()),
            (true, false) => nil::<N>().plus(one::<N>()),
            _ => nil::<N>().minus(one::<N>()),
        };
        if (brings || takes) && !weight.same(nil::<N>()) {
            Some(weight)
        } else {
            None
        }
    }

    pub open spec fn balance_term(self, p: int, k: int, n: nat) -> spec_fn(int) -> Seq<(Column, N)> {
        |c: int|
            match self.balance(p, c) {
                Some(weight) => if self.moves(c, k) {
                    Seq::new(n, |s: int| (self.movement(c, k, s), weight))
                } else {
                    Seq::empty()
                },
                None => Seq::empty(),
            }
    }

    /// What a pile holds after `n` segments, beside its opening.
    pub open spec fn balance_terms(self, p: int, k: int, n: nat) -> Seq<(Column, N)> {
        flat(self.candidates(), self.balance_term(p, k, n))
    }

    pub open spec fn occupancy_line(self, p: int, k: int, opening: Seq<(Column, N)>) -> spec_fn(int) -> Seq<Line<N>> {
        |s: int|
            {
                let terms = opening + self.balance_terms(p, k, (s + 1) as nat);
                seq![at_most_row(terms, self.pile(p).capacity_t), at_least_row(terms, nil::<N>())]
            }
    }

    /// A pile stays between empty and full in every segment.
    pub open spec fn occupancy(self, p: int, k: int, opening: Seq<(Column, N)>) -> Seq<Line<N>> {
        flat(self.segments as nat, self.occupancy_line(p, k, opening))
    }

    fn find_balance(&self, p: usize, c: usize) -> (r: Option<N>)
        requires
            p < self.input.piles@.len(),
            c < self.candidates(),
        ensures
            r == self.balance(p as int, c as int),
    {
        let pile = self.input.piles[p].id;
        let candidate = &self.input.movements[c];
        let brings: bool = delivers_to_pile(candidate, pile, &self.input.destinations);
        let takes: bool = candidate.activity == Activity::Reclaim && candidate.source == SourceId::Stockpile(pile);
        if !brings && !takes {
            return None;
        }
        let mut weight = N::whole(0);
        if brings {
            weight = weight.add(N::whole(1));
        }
        if takes {
            weight = weight.sub(N::whole(1));
        }
        if weight.is_same(N::whole(0)) {
            None
        } else {
            Some(weight)
        }
    }

    fn add_balance(&self, terms: &mut Vec<(Column, N)>, p: usize, k: usize, n: usize)
        requires
            p < self.input.piles@.len(),
        ensures
            final(terms)@ == old(terms)@ + self.balance_terms(p as int, k as int, n as nat),
    {
        let ghost base = terms@;
        let ghost f = self.balance_term(p as int, k as int, n as nat);
        assert(base + flat(0, f) =~= base);
        for c in 0..self.input.movements.len()
            invariant
                p < self.input.piles@.len(),
                f == self.balance_term(p as int, k as int, n as nat),
                terms@ == base + flat(c as nat, f),
        {
            let ghost inner = terms@;
            if let Some(weight) = self.find_balance(p, c) {
                if self.can_move(c, k) {
                    let ghost all = f(c as int);
                    for s in 0..n
                        invariant
                            all == Seq::new(n as nat, |s: int| (self.movement(c as int, k as int, s), weight)),
                            terms@ =~= inner + all.take(s as int),
                    {
                        terms.push((Column::Movement { candidate: c, interval: k, segment: s }, weight));
                    }
                    assert(all.take(n as int) =~= all);
                }
            }
            assert(terms@ =~= base + (flat(c as nat, f) + f(c as int)));
        }
    }

    /// Writes that a pile stays between empty and full.
    pub fn write_occupancy(&self, sheet: &mut Sheet<N>, p: usize, k: usize, opening: &Vec<(Column, N)>)
        requires
            p < self.input.piles@.len(),
        ensures
            final(sheet)@ == old(sheet)@ + self.occupancy(p as int, k as int, opening@),
    {
        let capacity = self.input.piles[p].capacity_t;
        let ghost base = sheet@;
        let ghost line = self.occupancy_line(p as int, k as int, opening@);
        assert(base + flat(0, line) =~= base);
        for s in 0..self.segments
            invariant
                p < self.input.piles@.len(),
                capacity == self.pile(p as int).capacity_t,
                line == self.occupancy_line(p as int, k as int, opening@),
                sheet@ == base + flat(s as nat, line),
        {
            let mut above: Vec<(Column, N)> = crate::listing::copied(opening);
            self.add_balance(&mut above, p, k, s + 1);
            let below: Vec<(Column, N)> = crate::listing::copied(&above);
            sheet.leq(above, capacity);
            sheet.geq(below, N::whole(0));
            assert(sheet@ =~= base + (flat(s as nat, line) + line(s as int)));
        }
    }

    // Piles without chunks.

    pub open spec fn open_columns(self, p: int, k: int) -> spec_fn(int) -> Seq<Line<N>> {
        |g: int| seq![continuous(self.open_q(p, k, g), self.pile(p).capacity_t.times(self.ceiling(g)))]
    }

    pub open spec fn recl_columns(self, p: int, k: int) -> spec_fn(int) -> Seq<Line<N>> {
        |g: int| seq![continuous(self.recl_q(p, k, g), self.pile(p).capacity_t.times(self.ceiling(g)))]
    }

    /// What a pile holds at the start of an interval.
    pub open spec fn tonnes_balance(self, p: int, k: int) -> Line<N> {
        let opening = (self.open_t(p, k), one::<N>());
        if k == 0 {
            equal_row(seq![opening], self.pile(p).opening_t)
        } else {
            equal_row(
                (seq![opening, (self.open_t(p, k - 1), less_one::<N>())] + self.run_terms(
                    Selector::Bring { pile: self.pile(p).id },
                    k - 1,
                    self.segments as nat,
                )).push((self.recl_t(p, k - 1), one::<N>())),
                nil::<N>(),
            )
        }
    }

    /// What a pile holds of a grade at the start of an interval.
    pub open spec fn grade_balance(self, p: int, k: int) -> spec_fn(int) -> Seq<Line<N>> {
        |g: int|
            {
                let opening = (self.open_q(p, k, g), one::<N>());
                seq![
                    if k == 0 {
                        equal_row(seq![opening], entry_or_zero(self.pile(p).opening_q@, g))
                    } else {
                        equal_row(
                            (seq![opening, (self.open_q(p, k - 1, g), less_one::<N>())] + self.run_terms(
                                Selector::BringGrade { pile: self.pile(p).id, grade: g as usize },
                                k - 1,
                                self.segments as nat,
                            )).push((self.recl_q(p, k - 1, g), one::<N>())),
                            nil::<N>(),
                        )
                    },
                ]
            }
    }

    /// What is taken of a grade mixes with what is held.
    pub open spec fn mix_lines(self, p: int, k: int) -> spec_fn(int) -> Seq<Line<N>> {
        |g: int|
            seq![
                Line::Mix {
                    pile: self.pile(p).id,
                    key: k as usize,
                    grade: g as usize,
                    recl_q: self.recl_q(p, k, g),
                    open_t: self.open_t(p, k),
                    recl_t: self.recl_t(p, k),
                    open_q: self.open_q(p, k, g),
                },
                at_most_row(
                    seq![(self.recl_q(p, k, g), one::<N>()), (self.recl_t(p, k), self.ceiling(g).opposite())],
                    nil::<N>(),
                ),
                at_most_row(
                    seq![(self.open_q(p, k, g), one::<N>()), (self.open_t(p, k), self.ceiling(g).opposite())],
                    nil::<N>(),
                ),
            ]
    }

    pub open spec fn taken_row(self, p: int, k: int) -> Line<N> {
        equal_row(
            seq![(self.recl_t(p, k), one::<N>())] + self.run_terms(
                Selector::Take { pile: self.pile(p).id },
                k,
                self.segments as nat,
            ),
            nil::<N>(),
        )
    }

    pub open spec fn plain_interval(self, p: int) -> spec_fn(int) -> Seq<Line<N>> {
        |k: int|
            {
                let capacity = self.pile(p).capacity_t;
                seq![continuous(self.open_t(p, k), capacity)] + flat(self.grades(), self.open_columns(p, k)) + seq![
                    self.tonnes_balance(p, k),
                ] + flat(self.grades(), self.grade_balance(p, k)) + seq![continuous(self.recl_t(p, k), capacity)] + flat(
                    self.grades(),
                    self.recl_columns(p, k),
                ) + seq![
                    self.taken_row(p, k),
                    at_most_row(
                        seq![(self.recl_t(p, k), one::<N>()), (self.open_t(p, k), less_one::<N>())],
                        nil::<N>(),
                    ),
                ] + flat(self.grades(), self.mix_lines(p, k)) + self.occupancy(
                    p,
                    k,
                    seq![(self.open_t(p, k), one::<N>())],
                )
            }
    }

    /// The lines of a pile without chunks.
    pub open spec fn plain_pile(self, p: int) -> Seq<Line<N>> {
        flat(self.horizon(), self.plain_interval(p))
    }

    fn write_columns(&self, sheet: &mut Sheet<N>, p: usize, k: usize, open: bool)
        requires
            self.ready_to_write(),
            p < self.input.piles@.len(),
        ensures
            final(sheet)@ == old(sheet)@ + flat(
                self.grades(),
                if open {
                    self.open_columns(p as int, k as int)
                } else {
                    self.recl_columns(p as int, k as int)
                },
            ),
    {
        let pile = self.input.piles[p].id;
        let capacity = self.input.piles[p].capacity_t;
        let grades: usize = self.input.grades.count();
        let ghost base = sheet@;
        let ghost line = if open {
            self.open_columns(p as int, k as int)
        } else {
            self.recl_columns(p as int, k as int)
        };
        assert(base + flat(0, line) =~= base);
        for g in 0..grades
            invariant
                self.ready_to_write(),
                p < self.input.piles@.len(),
                pile == self.pile(p as int).id,
                capacity == self.pile(p as int).capacity_t,
                grades == self.grades(),
                line == if open {
                    self.open_columns(p as int, k as int)
                } else {
                    self.recl_columns(p as int, k as int)
                },
                sheet@ == base + flat(g as nat, line),
        {
            let upper = capacity.mul(self.find_ceiling(g));
            if open {
                sheet.cont(Column::OpenQ { pile, interval: k, grade: g }, upper);
            } else {
                sheet.cont(Column::ReclQ { pile, interval: k, grade: g }, upper);
            }
            assert(sheet@ =~= base + (flat(g as nat, line) + line(g as int)));
        }
    }

    fn write_tonnes_balance(&self, sheet: &mut Sheet<N>, p: usize, k: usize)
        requires
            p < self.input.piles@.len(),
        ensures
            final(sheet)@ == old(sheet)@.push(self.tonnes_balance(p as int, k as int)),
    {
        let pile = &self.input.piles[p];
        let opening = Column::OpenT { pile: pile.id, interval: k };
        if k == 0 {
            sheet.eq(term(opening, N::whole(1)), pile.opening_t);
        } else {
            let prior = Column::OpenT { pile: pile.id, interval: k - 1 };
            let mut terms = terms_of(opening, N::whole(1), prior, N::whole(1).neg());
            self.add_run(&mut terms, Selector::Bring { pile: pile.id }, k - 1, self.segments);
            terms.push((Column::ReclT { pile: pile.id, interval: k - 1 }, N::whole(1)));
            sheet.eq(terms, N::whole(0));
        }
    }

    fn write_grade_balances(&self, sheet: &mut Sheet<N>, p: usize, k: usize)
        requires
            self.ready_to_write(),
            p < self.input.piles@.len(),
        ensures
            final(sheet)@ == old(sheet)@ + flat(self.grades(), self.grade_balance(p as int, k as int)),
    {
        let pile = &self.input.piles[p];
        let grades: usize = self.input.grades.count();
        let ghost base = sheet@;
        let ghost line = self.grade_balance(p as int, k as int);
        assert(base + flat(0, line) =~= base);
        for g in 0..grades
            invariant
                p < self.input.piles@.len(),
                pile == self.pile(p as int),
                grades == self.grades(),
                line == self.grade_balance(p as int, k as int),
                sheet@ == base + flat(g as nat, line),
        {
            let opening = Column::OpenQ { pile: pile.id, interval: k, grade: g };
            if k == 0 {
                let held = if g < pile.opening_q.len() {
                    pile.opening_q[g]
                } else {
                    N::whole(0)
                };
                sheet.eq(term(opening, N::whole(1)), held);
            } else {
                let prior = Column::OpenQ { pile: pile.id, interval: k - 1, grade: g };
                let mut terms = terms_of(opening, N::whole(1), prior, N::whole(1).neg());
                self.add_run(&mut terms, Selector::BringGrade { pile: pile.id, grade: g }, k - 1, self.segments);
                terms.push((Column::ReclQ { pile: pile.id, interval: k - 1, grade: g }, N::whole(1)));
                sheet.eq(terms, N::whole(0));
            }
            assert(sheet@ =~= base + (flat(g as nat, line) + line(g as int)));
        }
    }

    fn write_mixes(&self, sheet: &mut Sheet<N>, p: usize, k: usize)
        requires
            self.ready_to_write(),
            p < self.input.piles@.len(),
        ensures
            final(sheet)@ == old(sheet)@ + flat(self.grades(), self.mix_lines(p as int, k as int)),
    {
        let pile = self.input.piles[p].id;
        let grades: usize = self.input.grades.count();
        let open_t = Column::OpenT { pile, interval: k };
        let recl_t = Column::ReclT { pile, interval: k };
        let ghost base = sheet@;
        let ghost line = self.mix_lines(p as int, k as int);
        assert(base + flat(0, line) =~= base);
        for g in 0..grades
            invariant
                self.ready_to_write(),
                p < self.input.piles@.len(),
                pile == self.pile(p as int).id,
                grades == self.grades(),
                open_t == self.open_t(p as int, k as int),
                recl_t == self.recl_t(p as int, k as int),
                line == self.mix_lines(p as int, k as int),
                sheet@ == base + flat(g as nat, line),
        {
            let open_q = Column::OpenQ { pile, interval: k, grade: g };
            let recl_q = Column::ReclQ { pile, interval: k, grade: g };
            sheet.mix(pile, k, g, recl_q, open_t, recl_t, open_q);
            sheet.leq(terms_of(recl_q, N::whole(1), recl_t, self.find_ceiling(g).neg()), N::whole(0));
            sheet.leq(terms_of(open_q, N::whole(1), open_t, self.find_ceiling(g).neg()), N::whole(0));
            assert(sheet@ =~= base + (flat(g as nat, line) + line(g as int)));
        }
    }

    fn write_plain_interval(&self, sheet: &mut Sheet<N>, p: usize, k: usize)
        requires
            self.ready_to_write(),
            p < self.input.piles@.len(),
        ensures
            final(sheet)@ == old(sheet)@ + self.plain_interval(p as int)(k as int),
    {
        let pile = self.input.piles[p].id;
        let capacity = self.input.piles[p].capacity_t;
        let open_t = Column::OpenT { pile, interval: k };
        let recl_t = Column::ReclT { pile, interval: k };
        let ghost base = sheet@;
        sheet.cont(open_t, capacity);
        self.write_columns(sheet, p, k, true);
        self.write_tonnes_balance(sheet, p, k);
        self.write_grade_balances(sheet, p, k);
        sheet.cont(recl_t, capacity);
        self.write_columns(sheet, p, k, false);
        let mut taken = term(recl_t, N::whole(1));
        self.add_run(&mut taken, Selector::Take { pile }, k, self.segments);
        sheet.eq(taken, N::whole(0));
        sheet.leq(terms_of(recl_t, N::whole(1), open_t, N::whole(1).neg()), N::whole(0));
        self.write_mixes(sheet, p, k);
        let opening = term(open_t, N::whole(1));
        self.write_occupancy(sheet, p, k, &opening);
        assert(sheet@ =~= base + self.plain_interval(p as int)(k as int));
    }

    /// Writes a pile without chunks.
    pub fn write_plain_pile(&self, sheet: &mut Sheet<N>, p: usize)
        requires
            self.ready_to_write(),
            p < self.input.piles@.len(),
        ensures
            final(sheet)@ == old(sheet)@ + self.plain_pile(p as int),
    {
        let ghost base = sheet@;
        let ghost line = self.plain_interval(p as int);
        assert(base + flat(0, line) =~= base);
        for k in 0..self.input.intervals.len()
            invariant
                self.ready_to_write(),
                p < self.input.piles@.len(),
                line == self.plain_interval(p as int),
                sheet@ == base + flat(k as nat, line),
        {
            self.write_plain_interval(sheet, p, k);
            assert(sheet@ =~= base + (flat(k as nat, line) + line(k as int)));
        }
    }
}

} // verus!
