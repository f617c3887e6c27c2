//! What the rows of a blended model are written from: which movements can be
//! made when, and sums of them.
use vstd::prelude::*;

use crate::listing::flat;
use crate::optimisation::authored::windows_compare;
use crate::optimisation::blended::chunks::chunks_fit;
use crate::optimisation::blended::formulation::model::Column;
use crate::optimisation::sheet::{less_one, one};
use crate::optimisation::blended::grade::peak_to;
use crate::optimisation::blended::input::{
    authorises, candidate_rate, delivers, delivers_to_pile, loader_rate, task_authorises, BlendInput,
};
use crate::optimisation::ids::{Activity, DestinationId, LoaderId, MaterialId, SourceId, StockpileId};
use crate::optimisation::input::{Interval, MovementCandidate};
use crate::scalar::Scalar;

verus! {

/// An input being written out as a model.
pub struct Formulation<'a, N> {
    pub input: &'a BlendInput<N>,
    pub segments: usize,
}

/// Which movements a sum takes, and with what weight.
#[derive(Clone, Copy, Debug, PartialEq, Eq, Structural)]
pub enum Selector {
    /// Those of a loader and an activity, once.
    Work { loader: usize, activity: Activity },
    /// Those that dig a block, once.
    Dig { source: usize },
    /// Those that dig one material of a block, once.
    DigMaterial { source: usize, material: MaterialId },
    /// Those that bring material to a pile, taken away.
    Bring { pile: StockpileId },
    /// What those that bring material to a pile bring of a grade, taken away.
    BringGrade { pile: StockpileId, grade: usize },
    /// Those that take material from a pile, taken away.
    Take { pile: StockpileId },
    /// The hours of a truck class.
    Truck { truck: usize },
    /// Those to a destination, once.
    Deliver { destination: usize },
    /// Those that a task lets its loader make, once.
    Authorised { task: usize },
    /// Those that a task lets its loader make, taken away.
    Spent { task: usize },
    /// Those that a loader reclaims from a pile, once.
    Reclaim { loader: usize, pile: StockpileId },
    /// Those that a loader reclaims from a pile for a destination, once.
    Qualified { loader: LoaderId, pile: StockpileId, destination: DestinationId },
}

/// A weight of one where chosen.
pub open spec fn counted<N: Scalar>(chosen: bool) -> Option<N> {
    if chosen {
        Some(one::<N>())
    } else {
        None
    }
}

/// A weight of less one where chosen.
pub open spec fn deducted<N: Scalar>(chosen: bool) -> Option<N> {
    if chosen {
        Some(less_one::<N>())
    } else {
        None
    }
}

impl<'a, N: Scalar> Formulation<'a, N> {
    pub open spec fn horizon(self) -> nat {
        self.input.intervals@.len()
    }

    pub open spec fn candidates(self) -> nat {
        self.input.movements@.len()
    }

    pub open spec fn grades(self) -> nat {
        self.input.grades.fields@.len()
    }

    pub open spec fn candidate(self, c: int) -> MovementCandidate<N> {
        self.input.movements@[c]
    }

    pub open spec fn interval(self, i: int) -> Interval<N> {
        self.input.intervals@[i]
    }

    pub open spec fn length(self, i: int) -> N {
        self.interval(i).length()
    }

    /// The largest value of a grade.
    pub open spec fn ceiling(self, g: int) -> N {
        peak_to(self.input.grades.values@, g, self.input.grades.values@.len())
    }

    /// The input can be written out: intervals are numbered in order, windows
    /// can be put in order, and cells and chunks can be numbered.
    pub open spec fn ready_to_write(self) -> bool {
        &&& self.segments == segments_of(*self.input)
        &&& writable(*self.input)
    }

    pub fn find_ceiling(&self, g: usize) -> (r: N)
        ensures
            r == self.ceiling(g as int),
    {
        self.input.grades.ceiling(g)
    }

    /// Candidate `c` can move anything in interval `i`.
    pub open spec fn moves(self, c: int, i: int) -> bool {
        match candidate_rate(*self.input, self.candidate(c), i as usize) {
            Some(rate) => !rate.at_most(N::of_whole(0)),
            None => false,
        }
    }

    /// The rate of candidate `c` in interval `i`, zero where it has none.
    pub open spec fn rate_or_zero(self, c: int, i: int) -> N {
        match candidate_rate(*self.input, self.candidate(c), i as usize) {
            Some(rate) => rate,
            None => N::of_whole(0),
        }
    }

    pub fn can_move(&self, c: usize, i: usize) -> (r: bool)
        requires
            c < self.candidates(),
        ensures
            r == self.moves(c as int, i as int),
    {
        match loader_rate(self.input, &self.input.movements[c], i) {
            Some(rate) => !rate.is_at_most(N::whole(0)),
            None => false,
        }
    }

    pub fn find_rate(&self, c: usize, i: usize) -> (r: N)
        requires
            c < self.candidates(),
        ensures
            r == self.rate_or_zero(c as int, i as int),
    {
        match loader_rate(self.input, &self.input.movements[c], i) {
            Some(rate) => rate,
            None => N::whole(0),
        }
    }

    /// Candidate `c` takes material from a pile.
    pub open spec fn takes_from(self, c: int, pile: StockpileId) -> bool {
        self.candidate(c).activity is Reclaim && self.candidate(c).source == SourceId::Stockpile(pile)
    }

    pub open spec fn selectable(self, sel: Selector) -> bool {
        match sel {
            Selector::Work { loader, activity } => loader < self.input.loaders@.len(),
            Selector::Dig { source } => source < self.input.ground@.len(),
            Selector::DigMaterial { source, material } => source < self.input.ground@.len(),
            Selector::Truck { truck } => truck < self.input.trucks@.len(),
            Selector::Deliver { destination } => destination < self.input.destinations@.len(),
            Selector::Authorised { task } => task < self.input.tasks@.len(),
            Selector::Spent { task } => task < self.input.tasks@.len(),
            Selector::Reclaim { loader, pile } => loader < self.input.loaders@.len(),
            _ => true,
        }
    }

    /// The weight of a candidate in a sum, where it has any.
    pub open spec fn weight(self, sel: Selector, c: int) -> Option<N> {
        let candidate = self.candidate(c);
        match sel {
            Selector::Work { loader, activity } => counted(
                candidate.loader == self.input.loaders@[loader as int].id && candidate.activity == activity,
            ),
            Selector::Dig { source } => counted(
                candidate.activity is Dig && candidate.source == SourceId::Ground(self.input.ground@[source as int].id),
            ),
            Selector::DigMaterial { source, material } => counted(
                candidate.activity is Dig && candidate.source == SourceId::Ground(self.input.ground@[source as int].id)
                    && candidate.material == material,
            ),
            Selector::Bring { pile } => deducted(delivers(candidate, pile, self.input.destinations@)),
            Selector::BringGrade { pile, grade } => if delivers(candidate, pile, self.input.destinations@) {
                match self.input.grades.fraction_at(candidate.material, grade as int) {
                    Some(fraction) => Some(fraction.opposite()),
                    None => None,
                }
            } else {
                None
            },
            Selector::Take { pile } => deducted(self.takes_from(c, pile)),
            Selector::Truck { truck } => if candidate.truck == self.input.trucks@[truck as int].id {
                Some(candidate.truck_hours_per_tonne)
            } else {
                None
            },
            Selector::Deliver { destination } => counted(
                candidate.destination == self.input.destinations@[destination as int].id,
            ),
            Selector::Authorised { task } => counted(authorises(self.input.tasks@[task as int], candidate)),
            Selector::Spent { task } => deducted(authorises(self.input.tasks@[task as int], candidate)),
            Selector::Reclaim { loader, pile } => counted(
                candidate.loader == self.input.loaders@[loader as int].id && self.takes_from(c, pile),
            ),
            Selector::Qualified { loader, pile, destination } => counted(
                self.takes_from(c, pile) && candidate.loader == loader && candidate.destination == destination,
            ),
        }
    }

    fn once(chosen: bool) -> (r: Option<N>)
        ensures
            r == counted::<N>(chosen),
    {
        if chosen {
            Some(N::whole(1))
        } else {
            None
        }
    }

    fn away(chosen: bool) -> (r: Option<N>)
        ensures
            r == deducted::<N>(chosen),
    {
        if chosen {
            Some(N::whole(1).neg())
        } else {
            None
        }
    }

    pub fn find_weight(&self, sel: Selector, c: usize) -> (r: Option<N>)
        requires
            self.selectable(sel),
            c < self.candidates(),
        ensures
            r == self.weight(sel, c as int),
    {
        let candidate = &self.input.movements[c];
        match sel {
            Selector::Work { loader, activity } => Self::once(
                candidate.loader == self.input.loaders[loader].id && candidate.activity == activity,
            ),
            Selector::Dig { source } => Self::once(
                candidate.activity == Activity::Dig && candidate.source == SourceId::Ground(self.input.ground[source].id),
            ),
            Selector::DigMaterial { source, material } => Self::once(
                candidate.activity == Activity::Dig && candidate.source == SourceId::Ground(self.input.ground[source].id)
                    && candidate.material == material,
            ),
            Selector::Bring { pile } => Self::away(delivers_to_pile(candidate, pile, &self.input.destinations)),
            Selector::BringGrade { pile, grade } => if delivers_to_pile(candidate, pile, &self.input.destinations) {
                match self.input.grades.fraction(candidate.material, grade) {
                    Some(fraction) => Some(fraction.neg()),
                    None => None,
                }
            } else {
                None
            },
            Selector::Take { pile } => Self::away(
                candidate.activity == Activity::Reclaim && candidate.source == SourceId::Stockpile(pile),
            ),
            Selector::Truck { truck } => if candidate.truck == self.input.trucks[truck].id {
                Some(candidate.truck_hours_per_tonne)
            } else {
                None
            },
            Selector::Deliver { destination } => Self::once(
                candidate.destination == self.input.destinations[destination].id,
            ),
            Selector::Authorised { task } => Self::once(task_authorises(&self.input.tasks[task], candidate)),
            Selector::Spent { task } => Self::away(task_authorises(&self.input.tasks[task], candidate)),
            Selector::Reclaim { loader, pile } => Self::once(
                candidate.loader == self.input.loaders[loader].id && candidate.activity == Activity::Reclaim
                    && candidate.source == SourceId::Stockpile(pile),
            ),
            Selector::Qualified { loader, pile, destination } => Self::once(
                candidate.activity == Activity::Reclaim && candidate.source == SourceId::Stockpile(pile)
                    && candidate.loader == loader && candidate.destination == destination,
            ),
        }
    }

    pub open spec fn movement(self, c: int, i: int, s: int) -> Column {
        Column::Movement { candidate: c as usize, interval: i as usize, segment: s as usize }
    }

    pub open spec fn duration(self, i: int, s: int) -> Column {
        Column::Duration { interval: i as usize, segment: s as usize }
    }

    /// The term of a candidate in segment `s` of interval `i`.
    pub open spec fn cell_term(self, sel: Selector, i: int, s: int) -> spec_fn(int) -> Seq<(Column, N)> {
        |c: int|
            match self.weight(sel, c) {
                Some(weight) => if self.moves(c, i) {
                    seq![(self.movement(c, i, s), weight)]
                } else {
                    Seq::empty()
                },
                None => Seq::empty(),
            }
    }

    /// A sum over one segment.
    pub open spec fn cell_terms(self, sel: Selector, i: int, s: int) -> Seq<(Column, N)> {
        flat(self.candidates(), self.cell_term(sel, i, s))
    }

    /// The terms of a candidate in every segment of interval `i` before `n`.
    pub open spec fn run_of(self, sel: Selector, c: int, i: int, n: nat) -> Seq<(Column, N)> {
        match self.weight(sel, c) {
            Some(weight) => if self.moves(c, i) {
                Seq::new(n, |s: int| (self.movement(c, i, s), weight))
            } else {
                Seq::empty()
            },
            None => Seq::empty(),
        }
    }

    pub open spec fn run_term(self, sel: Selector, i: int, n: nat) -> spec_fn(int) -> Seq<(Column, N)> {
        |c: int| self.run_of(sel, c, i, n)
    }

    /// A sum over the first `n` segments of an interval.
    pub open spec fn run_terms(self, sel: Selector, i: int, n: nat) -> Seq<(Column, N)> {
        flat(self.candidates(), self.run_term(sel, i, n))
    }

    /// Adds a sum over one segment.
    pub fn add_cell(&self, terms: &mut Vec<(Column, N)>, sel: Selector, i: usize, s: usize)
        requires
            self.selectable(sel),
        ensures
            final(terms)@ == old(terms)@ + self.cell_terms(sel, i as int, s as int),
    {
        let ghost base = terms@;
        let ghost f = self.cell_term(sel, i as int, s as int);
        assert(base + flat(0, f) =~= base);
        for c in 0..self.input.movements.len()
            invariant
                self.selectable(sel),
                f == self.cell_term(sel, i as int, s as int),
                terms@ == base + flat(c as nat, f),
        {
            if let Some(weight) = self.find_weight(sel, c) {
                if self.can_move(c, i) {
                    terms.push((Column::Movement { candidate: c, interval: i, segment: s }, weight));
                }
            }
            assert(terms@ =~= base + (flat(c as nat, f) + f(c as int)));
        }
    }

    /// Adds the terms of a candidate in the first `n` segments of an interval.
    pub fn add_run_of(&self, terms: &mut Vec<(Column, N)>, sel: Selector, c: usize, i: usize, n: usize)
        requires
            self.selectable(sel),
            c < self.candidates(),
        ensures
            final(terms)@ == old(terms)@ + self.run_of(sel, c as int, i as int, n as nat),
    {
        let ghost base = terms@;
        if let Some(weight) = self.find_weight(sel, c) {
            if self.can_move(c, i) {
                let ghost all = self.run_of(sel, c as int, i as int, n as nat);
                for s in 0..n
                    invariant
                        all == Seq::new(n as nat, |s: int| (self.movement(c as int, i as int, s), weight)),
                        terms@ =~= base + all.take(s as int),
                {
                    terms.push((Column::Movement { candidate: c, interval: i, segment: s }, weight));
                }
                assert(all.take(n as int) =~= all);
            }
        }
        assert(terms@ =~= base + self.run_of(sel, c as int, i as int, n as nat));
    }

    /// Adds a sum over the first `n` segments of an interval.
    pub fn add_run(&self, terms: &mut Vec<(Column, N)>, sel: Selector, i: usize, n: usize)
        requires
            self.selectable(sel),
        ensures
            final(terms)@ == old(terms)@ + self.run_terms(sel, i as int, n as nat),
    {
        let ghost base = terms@;
        let ghost f = self.run_term(sel, i as int, n as nat);
        assert(base + flat(0, f) =~= base);
        for c in 0..self.input.movements.len()
            invariant
                self.selectable(sel),
                f == self.run_term(sel, i as int, n as nat),
                terms@ == base + flat(c as nat, f),
        {
            self.add_run_of(terms, sel, c, i, n);
            assert(terms@ =~= base + (flat(c as nat, f) + f(c as int)));
        }
    }
}

/// How many segments each interval is split into: at least one.
pub open spec fn segments_of<N>(input: BlendInput<N>) -> usize {
    if input.segments_per_interval < 1 {
        1
    } else {
        input.segments_per_interval
    }
}

/// Intervals are numbered in order, windows can be put in order, and cells and
/// chunks can be numbered.
pub open spec fn writable<N: Scalar>(input: BlendInput<N>) -> bool {
    &&& forall|i: int| 0 <= i < input.intervals@.len() ==> (#[trigger] input.intervals@[i]).index == i
    &&& windows_compare(input.tasks@)
    &&& (input.intervals@.len() + 1) * (input.segments_per_interval + 1) <= usize::MAX
    &&& forall|p: int|
        0 <= p < input.piles@.len() ==> chunks_fit((#[trigger] input.piles@[p]).chunks@.len(), input.intervals@.len())
}

} // verus!
