//! Replaying blended piles: what they hold, the blend they deliver and whether
//! it was allowed.
use vstd::prelude::*;

use crate::ledger::{amount, held_under, put_under, Ledger, Pair};
use crate::listing::{find_key, first_where, folded, keyed, sum_to};
use crate::optimisation::blended::chunks::key_of;
use crate::optimisation::blended::input::{
    bounds_admit, delivers, delivers_to_pile, entry_or_zero, interval_rate, rate_of, BlendPile, GradeLimit,
};
use crate::optimisation::blended::report::{
    one_more, bump, replay_tolerance, tolerance, BlendKey, Books, ClosingState, GradeIssue, Label, ReplayIssue, ReplayState,
};
use crate::optimisation::blended::totals::Replay;
use crate::optimisation::ids::{Activity, DestinationId, SourceId, StockpileId};
use crate::scalar::Scalar;

verus! {

/// What was drawn from chunks, by pile and interval.
pub struct DrawView<N> {
    pub tonnes: Seq<(Pair<StockpileId, usize>, N)>,
    pub contained: Seq<(BlendKey, N)>,
}

/// What was drawn from chunks, by pile and interval.
#[derive(Clone, Debug)]
pub struct Draws<N> {
    pub tonnes: Ledger<Pair<StockpileId, usize>, N>,
    pub contained: Ledger<BlendKey, N>,
}

impl<N> View for Draws<N> {
    type V = DrawView<N>;

    open spec fn view(&self) -> DrawView<N> {
        DrawView { tonnes: self.tonnes@, contained: self.contained@ }
    }
}

/// What a pile holds: tonnes, and of each grade.
pub struct Holding<N> {
    pub tonnes: N,
    pub contained: Seq<N>,
}

/// Whether a blend meets the least grade a destination takes.
pub open spec fn meets<N: Scalar>(limit: GradeLimit<N>, actual: N) -> bool {
    if limit.inclusive {
        limit.minimum.minus(N::of_decimal(1, 9)).at_most(actual)
    } else {
        limit.minimum.plus(N::of_decimal(1, 9)).below(actual)
    }
}

impl<'a, N: Scalar> Replay<'a, N> {
    pub open spec fn pile(self, p: int) -> BlendPile<N> {
        self.input.piles@[p]
    }

    /// Row `m` brings material to pile `p` in interval `k`.
    pub open spec fn brings(self, p: int, k: usize, m: int) -> bool {
        self.row(m).interval == k && self.known(m) && delivers(
            self.candidate(m),
            self.pile(p).id,
            self.input.destinations@,
        )
    }

    /// Row `m` takes material from pile `p` in interval `k`.
    pub open spec fn takes(self, p: int, k: usize, m: int) -> bool {
        self.row(m).interval == k && self.known(m) && self.candidate(m).activity is Reclaim && self.candidate(m).source
            == SourceId::Stockpile(self.pile(p).id)
    }

    fn does_bring(&self, p: usize, k: usize, m: usize) -> (r: bool)
        requires
            p < self.input.piles@.len(),
            m < self.rows(),
        ensures
            r == self.brings(p as int, k, m as int),
            r ==> self.row(m as int).candidate < self.input.movements@.len(),
    {
        let row = &self.solution.movements[m];
        row.interval == k && row.candidate < self.input.movements.len() && delivers_to_pile(
            &self.input.movements[row.candidate],
            self.input.piles[p].id,
            &self.input.destinations,
        )
    }

    fn does_take(&self, p: usize, k: usize, m: usize) -> (r: bool)
        requires
            p < self.input.piles@.len(),
            m < self.rows(),
        ensures
            r == self.takes(p as int, k, m as int),
            r ==> self.row(m as int).candidate < self.input.movements@.len(),
    {
        let row = &self.solution.movements[m];
        row.interval == k && row.candidate < self.input.movements.len() && self.input.movements[row.candidate].activity
            == Activity::Reclaim && self.input.movements[row.candidate].source == SourceId::Stockpile(
            self.input.piles[p].id,
        )
    }

    pub open spec fn brought(self, p: int, k: usize) -> spec_fn(int) -> Option<N> {
        |m: int|
            if self.brings(p, k, m) {
                Some(self.row(m).tonnes_t)
            } else {
                None
            }
    }

    pub open spec fn brought_in(self, p: int, k: usize, s: int) -> spec_fn(int) -> Option<N> {
        |m: int|
            if self.brings(p, k, m) && self.row(m).segment == s {
                Some(self.row(m).tonnes_t)
            } else {
                None
            }
    }

    pub open spec fn brought_grade(self, p: int, k: usize, g: int) -> spec_fn(int) -> Option<N> {
        |m: int|
            if self.brings(p, k, m) {
                match self.input.grades.fraction_at(self.candidate(m).material, g) {
                    Some(fraction) => Some(self.row(m).tonnes_t.times(fraction)),
                    None => None,
                }
            } else {
                None
            }
    }

    pub open spec fn taken(self, p: int, k: usize) -> spec_fn(int) -> Option<N> {
        |m: int|
            if self.takes(p, k, m) {
                Some(self.row(m).tonnes_t)
            } else {
                None
            }
    }

    pub open spec fn taken_in(self, p: int, k: usize, s: int) -> spec_fn(int) -> Option<N> {
        |m: int|
            if self.takes(p, k, m) && self.row(m).segment == s {
                Some(self.row(m).tonnes_t)
            } else {
                None
            }
    }

    /// Everything taken from pile `p` in interval `k`.
    pub open spec fn all_taken(self, p: int, k: usize) -> N {
        sum_to(self.rows(), self.taken(p, k))
    }

    /// What pile `p` holds after `n` segments of interval `k`.
    pub open spec fn occupied(self, p: int, k: usize, opening: N, n: nat) -> N
        decreases n,
    {
        if n == 0 {
            opening
        } else {
            self.occupied(p, k, opening, (n - 1) as nat).plus(
                sum_to(self.rows(), self.brought_in(p, k, n - 1)).minus(
                    sum_to(self.rows(), self.taken_in(p, k, n - 1)),
                ),
            )
        }
    }

    /// The blend of what a pile holds.
    pub open spec fn own_blend(self, held: Holding<N>) -> Seq<N> {
        Seq::new(
            self.grade_count(),
            |g: int|
                if replay_tolerance::<N>().below(held.tonnes) {
                    held.contained[g].over(held.tonnes)
                } else {
                    N::of_whole(0)
                },
        )
    }

    /// What was drawn from the chunks of pile `p` in interval `k`, where it has any.
    pub open spec fn chunk_draw(self, draws: DrawView<N>, p: int, k: usize) -> Option<N> {
        if self.pile(p).chunks@.len() == 0 {
            None
        } else {
            held_under(draws.tonnes, Pair(self.pile(p).id, k))
        }
    }

    /// The blend that pile `p` delivers in interval `k`.
    pub open spec fn delivered_blend(self, draws: DrawView<N>, p: int, k: usize, held: Holding<N>) -> Seq<N> {
        match self.chunk_draw(draws, p, k) {
            Some(tonnes) => Seq::new(
                self.grade_count(),
                |g: int|
                    if replay_tolerance::<N>().below(tonnes) {
                        amount(draws.contained, key_of(self.pile(p), k as int, g)).over(tonnes)
                    } else {
                        N::of_whole(0)
                    },
            ),
            None => self.own_blend(held),
        }
    }

    /// What pile `p` holds after interval `k`.
    pub open spec fn closed_holding(self, draws: DrawView<N>, p: int, k: usize, held: Holding<N>) -> Holding<N> {
        let blend = self.delivered_blend(draws, p, k, held);
        let taken = self.all_taken(p, k);
        Holding {
            tonnes: held.tonnes.plus(sum_to(self.rows(), self.brought(p, k))).minus(taken),
            contained: Seq::new(
                self.grade_count(),
                |g: int|
                    held.contained[g].plus(sum_to(self.rows(), self.brought_grade(p, k, g))).minus(
                        blend[g].times(taken),
                    ),
            ),
        }
    }

    /// What pile `p` holds before interval `i`.
    pub open spec fn holding(self, draws: DrawView<N>, p: int, i: nat) -> Holding<N>
        decreases i,
    {
        if i == 0 {
            Holding {
                tonnes: self.pile(p).opening_tonnes(),
                contained: Seq::new(self.grade_count(), |g: int| self.pile(p).opening_contained(g)),
            }
        } else {
            self.closed_holding(
                draws,
                p,
                self.input.intervals@[i - 1].index,
                self.holding(draws, p, (i - 1) as nat),
            )
        }
    }

    // Materials without a grade.

    pub open spec fn missing_grade(self, p: int, m: int) -> spec_fn(ReplayState<N>, int) -> ReplayState<N> {
        |st: ReplayState<N>, g: int|
            st.with_issue_if(
                self.input.grades.fraction_at(self.candidate(m).material, g) is None,
                ReplayIssue::MissingGrade {
                    material: self.candidate(m).material,
                    pile: self.pile(p).id,
                    grade: g as usize,
                },
            )
    }

    pub open spec fn missing_step(self, p: int, k: usize) -> spec_fn(ReplayState<N>, int) -> ReplayState<N> {
        |st: ReplayState<N>, m: int|
            if self.brings(p, k, m) {
                folded(self.grade_count(), st, self.missing_grade(p, m))
            } else {
                st
            }
    }

    // Capacity within the interval.

    pub open spec fn occupied_step(self, p: int, k: usize, opening: N) -> spec_fn(ReplayState<N>, int) -> ReplayState<N> {
        |st: ReplayState<N>, s: int|
            {
                let held = self.occupied(p, k, opening, (s + 1) as nat);
                st.limited(
                    Label::PileCapacity { pile: self.pile(p).id, interval: k, segment: s as usize },
                    held,
                    self.pile(p).capacity_t,
                ).with_issue_if(
                    held.below(replay_tolerance::<N>().opposite()),
                    ReplayIssue::NegativePile { pile: self.pile(p).id, occupied: held, interval: k, segment: s as usize },
                )
            }
    }

    // The blend.

    pub open spec fn blend_step(self, p: int, k: usize, held: Holding<N>) -> spec_fn(ReplayState<N>, int) -> ReplayState<N> {
        |st: ReplayState<N>, g: int|
            ReplayState {
                blends: put_under(st.blends, key_of(self.pile(p), k as int, g), self.own_blend(held)[g]),
                ..st
            }
    }

    /// The books with the blend that a pile holds. Of a pile with chunks, each
    /// chunk has its own.
    pub open spec fn blended(self, st: ReplayState<N>, p: int, k: usize, held: Holding<N>) -> ReplayState<N> {
        let taken = self.all_taken(p, k);
        if replay_tolerance::<N>().below(held.tonnes) {
            if self.pile(p).chunks@.len() == 0 {
                folded(self.grade_count(), st, self.blend_step(p, k, held))
            } else {
                st
            }
        } else {
            st.with_issue_if(
                replay_tolerance::<N>().below(taken),
                ReplayIssue::EmptySupply { pile: self.pile(p).id, reclaimed: taken, interval: k },
            )
        }
    }

    // Grade limits.

    pub open spec fn taken_to(self, p: int, k: usize, destination: DestinationId) -> spec_fn(int) -> Option<N> {
        |m: int|
            if self.takes(p, k, m) && self.candidate(m).destination == destination {
                Some(self.row(m).tonnes_t)
            } else {
                None
            }
    }

    /// Candidate `c` takes from the pile to a destination.
    pub open spec fn carries(self, p: int, destination: DestinationId, c: int) -> bool {
        let candidate = self.input.movements@[c];
        candidate.activity is Reclaim && candidate.source == SourceId::Stockpile(self.pile(p).id)
            && candidate.destination == destination
    }

    /// Candidate `c` is the first by which its loader does so.
    pub open spec fn first_carries(self, p: int, destination: DestinationId, c: int) -> bool {
        self.carries(p, destination, c) && forall|b: int|
            0 <= b < c && #[trigger] self.carries(p, destination, b) ==> self.input.movements@[b].loader
                != self.input.movements@[c].loader
    }

    /// What a loader could carry from the pile to a destination in interval
    /// `k`, each loader once.
    pub open spec fn route_capacity(self, p: int, k: usize, destination: DestinationId) -> spec_fn(int) -> Option<N> {
        |c: int|
            {
                let candidate = self.input.movements@[c];
                if self.first_carries(p, destination, c) {
                    let rate = match keyed(self.input.loaders@, candidate.loader.0) {
                        Some(l) => match rate_of(self.input.loaders@[l], k) {
                            Some(rate) => rate.reclaim_tph,
                            None => N::of_whole(0),
                        },
                        None => N::of_whole(0),
                    };
                    let duration = if k < self.input.intervals@.len() {
                        self.input.intervals@[k as int].length()
                    } else {
                        N::of_whole(0)
                    };
                    Some(rate.times(duration))
                } else {
                    None
                }
            }
    }

    pub open spec fn limit_step(self, p: int, k: usize, blend: Seq<N>) -> spec_fn(ReplayState<N>, int) -> ReplayState<N> {
        |st: ReplayState<N>, j: int|
            {
                let limit = self.input.grade_limits@[j];
                let delivered = sum_to(self.rows(), self.taken_to(p, k, limit.destination));
                let capacity = sum_to(self.input.movements@.len(), self.route_capacity(p, k, limit.destination));
                let actual = entry_or_zero(blend, limit.grade as int);
                if delivered.at_most(N::of_whole(0)) || meets(limit, actual) {
                    st
                } else if delivered.at_most(capacity.times(N::of_decimal(1, 6))) {
                    ReplayState {
                        negligible_count: one_more(st.negligible_count),
                        negligible_tonnes: st.negligible_tonnes.plus(delivered),
                        ..st
                    }
                } else {
                    st.with_grade_issue(
                        GradeIssue::BelowMinimum {
                            pile: self.pile(p).id,
                            tonnes: delivered,
                            destination: limit.destination,
                            interval: k,
                            actual,
                            minimum: limit.minimum,
                        },
                    )
                }
            }
    }

    pub open spec fn limits_checked(self, st: ReplayState<N>, p: int, k: usize, blend: Seq<N>) -> ReplayState<N> {
        if self.all_taken(p, k).at_most(replay_tolerance()) {
            st
        } else {
            folded(self.input.grade_limits@.len(), st, self.limit_step(p, k, blend))
        }
    }

    // Qualifications and payments.

    pub open spec fn qualifies(self, p: int, m: int) -> spec_fn(int) -> bool {
        |j: int|
            {
                let entry = self.input.qualifications@[j];
                entry.loader == self.candidate(m).loader && entry.pile == self.pile(p).id && entry.destination
                    == self.candidate(m).destination
            }
    }

    pub open spec fn payment_step(self, m: int, blend: Seq<N>) -> spec_fn(ReplayState<N>, int) -> ReplayState<N> {
        |st: ReplayState<N>, j: int|
            {
                let payment = self.input.conditional_values@[j];
                if payment.candidate == self.row(m).candidate && bounds_admit(payment.bounds@, blend) {
                    ReplayState {
                        objective: st.objective.plus(self.row(m).tonnes_t.times(payment.value_per_tonne)),
                        ..st
                    }
                } else {
                    st
                }
            }
    }

    /// The books with what a delivery breaks of the qualification of its route.
    /// A route without one is open.
    pub open spec fn qualified(self, st: ReplayState<N>, p: int, k: usize, m: int, blend: Seq<N>) -> ReplayState<N> {
        let n = self.input.qualifications@.len() as int;
        let destination = self.candidate(m).destination;
        let (pile, tonnes) = (self.pile(p).id, self.row(m).tonnes_t);
        match first_where(0, n, self.qualifies(p, m)) {
            Some(j) => if self.input.qualifications@[j].admits(blend) {
                st
            } else {
                st.with_grade_issue(GradeIssue::OutsideRange { pile, tonnes, destination, interval: k })
            },
            None => st,
        }
    }

    pub open spec fn delivery_step(self, p: int, k: usize, blend: Seq<N>) -> spec_fn(ReplayState<N>, int) -> ReplayState<N> {
        |st: ReplayState<N>, m: int|
            if self.takes(p, k, m) && replay_tolerance::<N>().below(self.row(m).tonnes_t) {
                folded(
                    self.input.conditional_values@.len(),
                    self.qualified(st, p, k, m, blend),
                    self.payment_step(m, blend),
                )
            } else {
                st
            }
    }

    // Closing.

    pub open spec fn closing_step(self, p: int, k: usize, closed: Holding<N>) -> spec_fn(ReplayState<N>, int) -> ReplayState<
        N,
    > {
        |st: ReplayState<N>, g: int|
            {
                let contained = closed.contained[g];
                st.with_issue_if(
                    contained.below(replay_tolerance::<N>().opposite()),
                    ReplayIssue::NegativeContained { pile: self.pile(p).id, interval: k, contained, grade: g as usize },
                ).with_issue_if(
                    closed.tonnes.upper(N::of_whole(0)).plus(replay_tolerance()).below(contained),
                    ReplayIssue::ExcessContained {
                        pile: self.pile(p).id,
                        contained,
                        grade: g as usize,
                        tonnes: closed.tonnes,
                        interval: k,
                    },
                )
            }
    }

    /// The books after pile `p` in interval `i`.
    pub open spec fn pile_step(self, draws: DrawView<N>, p: int) -> spec_fn(ReplayState<N>, int) -> ReplayState<N> {
        |st: ReplayState<N>, i: int|
            {
                let k = self.input.intervals@[i].index;
                let held = self.holding(draws, p, i as nat);
                let closed = self.holding(draws, p, (i + 1) as nat);
                let blend = self.delivered_blend(draws, p, k, held);
                let taken = self.all_taken(p, k);
                let a = ReplayState {
                    openings: put_under(st.openings, Pair(self.pile(p).id, k), held.tonnes),
                    ..st
                };
                let b = folded(self.rows(), a, self.missing_step(p, k));
                let c = b.limited(Label::ReleasedOpening { pile: self.pile(p).id, interval: k }, taken, held.tonnes);
                let d = folded(self.segments_spec(), c, self.occupied_step(p, k, held.tonnes));
                let e = self.blended(d, p, k, held);
                let f = match self.chunk_draw(draws, p, k) {
                    Some(tonnes) => e.compared(
                        Label::ChunkDraws { pile: self.pile(p).id, interval: k },
                        tonnes,
                        taken,
                    ),
                    None => e,
                };
                let g = self.limits_checked(f, p, k, blend);
                let h = folded(self.rows(), g, self.delivery_step(p, k, blend));
                let j = h.with_issue_if(
                    closed.tonnes.below(replay_tolerance::<N>().opposite()),
                    ReplayIssue::PileClosing { pile: self.pile(p).id, interval: k, tonnes: closed.tonnes },
                );
                folded(self.grade_count(), j, self.closing_step(p, k, closed))
            }
    }

    pub open spec fn piles_step(self, draws: DrawView<N>) -> spec_fn(ReplayState<N>, int) -> ReplayState<N> {
        |st: ReplayState<N>, p: int| folded(self.horizon(), st, self.pile_step(draws, p))
    }

    fn find_missing(&self, books: &mut Books<N>, p: usize, k: usize)
        requires
            p < self.input.piles@.len(),
        ensures
            final(books)@ == folded(self.rows(), old(books)@, self.missing_step(p as int, k)),
    {
        let grades: usize = self.input.grades.count();
        let ghost start = books@;
        for m in 0..self.solution.movements.len()
            invariant
                p < self.input.piles@.len(),
                grades == self.grade_count(),
                books@ == folded(m as nat, start, self.missing_step(p as int, k)),
        {
            if self.does_bring(p, k, m) {
                let material = self.input.movements[self.solution.movements[m].candidate].material;
                let ghost before = books@;
                for g in 0..grades
                    invariant
                        p < self.input.piles@.len(),
                        material == self.candidate(m as int).material,
                        books@ == folded(g as nat, before, self.missing_grade(p as int, m as int)),
                {
                    if self.input.grades.fraction(material, g).is_none() {
                        books.report(ReplayIssue::MissingGrade { material, pile: self.input.piles[p].id, grade: g });
                    }
                }
            }
        }
    }

    fn find_taken(&self, p: usize, k: usize) -> (r: N)
        requires
            p < self.input.piles@.len(),
        ensures
            r == self.all_taken(p as int, k),
    {
        let mut total = N::whole(0);
        for m in 0..self.solution.movements.len()
            invariant
                p < self.input.piles@.len(),
                total == sum_to(m as nat, self.taken(p as int, k)),
        {
            if self.does_take(p, k, m) {
                total = total.add(self.solution.movements[m].tonnes_t);
            }
        }
        total
    }

    fn find_brought(&self, p: usize, k: usize) -> (r: N)
        requires
            p < self.input.piles@.len(),
        ensures
            r == sum_to(self.rows(), self.brought(p as int, k)),
    {
        let mut total = N::whole(0);
        for m in 0..self.solution.movements.len()
            invariant
                p < self.input.piles@.len(),
                total == sum_to(m as nat, self.brought(p as int, k)),
        {
            if self.does_bring(p, k, m) {
                total = total.add(self.solution.movements[m].tonnes_t);
            }
        }
        total
    }

    fn find_brought_grade(&self, p: usize, k: usize, g: usize) -> (r: N)
        requires
            p < self.input.piles@.len(),
        ensures
            r == sum_to(self.rows(), self.brought_grade(p as int, k, g as int)),
    {
        let mut total = N::whole(0);
        for m in 0..self.solution.movements.len()
            invariant
                p < self.input.piles@.len(),
                total == sum_to(m as nat, self.brought_grade(p as int, k, g as int)),
        {
            if self.does_bring(p, k, m) {
                let row = self.solution.movements[m];
                if let Some(fraction) = self.input.grades.fraction(self.input.movements[row.candidate].material, g) {
                    total = total.add(row.tonnes_t.mul(fraction));
                }
            }
        }
        total
    }

    fn check_occupied(&self, books: &mut Books<N>, p: usize, k: usize, opening: N)
        requires
            p < self.input.piles@.len(),
        ensures
            final(books)@ == folded(self.segments_spec(), old(books)@, self.occupied_step(p as int, k, opening)),
    {
        let pile = &self.input.piles[p];
        let segments: usize = self.segments();
        let ghost start = books@;
        let mut held = opening;
        for s in 0..segments
            invariant
                p < self.input.piles@.len(),
                pile == self.pile(p as int),
                segments == self.segments_spec(),
                held == self.occupied(p as int, k, opening, s as nat),
                books@ == folded(s as nat, start, self.occupied_step(p as int, k, opening)),
        {
            let mut brought = N::whole(0);
            let mut taken = N::whole(0);
            for m in 0..self.solution.movements.len()
                invariant
                    p < self.input.piles@.len(),
                    brought == sum_to(m as nat, self.brought_in(p as int, k, s as int)),
                    taken == sum_to(m as nat, self.taken_in(p as int, k, s as int)),
            {
                let row = self.solution.movements[m];
                if row.segment == s {
                    if self.does_bring(p, k, m) {
                        brought = brought.add(row.tonnes_t);
                    }
                    if self.does_take(p, k, m) {
                        taken = taken.add(row.tonnes_t);
                    }
                }
            }
            held = held.add(brought.sub(taken));
            books.breach(
                Label::PileCapacity { pile: pile.id, interval: k, segment: s },
                held,
                pile.capacity_t,
            );
            if held.is_below(tolerance::<N>().neg()) {
                books.report(ReplayIssue::NegativePile { pile: pile.id, occupied: held, interval: k, segment: s });
            }
        }
    }

    fn find_blend(&self, draws: &Draws<N>, p: usize, k: usize, tonnes: N, contained: &Vec<N>) -> (r: Vec<N>)
        requires
            p < self.input.piles@.len(),
            contained@.len() == self.grade_count(),
        ensures
            r@ == self.delivered_blend(draws@, p as int, k, (Holding { tonnes, contained: contained@ })),
    {
        let ghost held = Holding { tonnes, contained: contained@ };
        let ghost wanted = self.delivered_blend(draws@, p as int, k, held);
        let pile = &self.input.piles[p];
        let drawn: Option<N> = self.find_draw(draws, p, k);
        let grades: usize = self.input.grades.count();
        let mut out: Vec<N> = Vec::new();
        for g in 0..grades
            invariant
                p < self.input.piles@.len(),
                pile == self.pile(p as int),
                grades == self.grade_count(),
                contained@.len() == grades,
                held == (Holding { tonnes, contained: contained@ }),
                drawn == self.chunk_draw(draws@, p as int, k),
                wanted == self.delivered_blend(draws@, p as int, k, held),
                wanted.len() == grades,
                out@ =~= wanted.take(g as int),
        {
            let fraction = match drawn {
                Some(total) => if tolerance::<N>().is_below(total) {
                    draws.contained.amount(Pair(pile.id, Pair(k, g))).div(total)
                } else {
                    N::whole(0)
                },
                None => if tolerance::<N>().is_below(tonnes) {
                    contained[g].div(tonnes)
                } else {
                    N::whole(0)
                },
            };
            out.push(fraction);
        }
        assert(out@ =~= wanted);
        out
    }

    fn find_draw(&self, draws: &Draws<N>, p: usize, k: usize) -> (r: Option<N>)
        requires
            p < self.input.piles@.len(),
        ensures
            r == self.chunk_draw(draws@, p as int, k),
    {
        if self.input.piles[p].chunks.len() == 0 {
            None
        } else {
            draws.tonnes.get(Pair(self.input.piles[p].id, k))
        }
    }

    fn note_own_blend(&self, books: &mut Books<N>, p: usize, k: usize, tonnes: N, contained: &Vec<N>, taken: N)
        requires
            p < self.input.piles@.len(),
            contained@.len() == self.grade_count(),
            taken == self.all_taken(p as int, k),
        ensures
            final(books)@ == self.blended(
                old(books)@,
                p as int,
                k,
                (Holding { tonnes, contained: contained@ }),
            ),
    {
        let ghost held = Holding { tonnes, contained: contained@ };
        let pile = self.input.piles[p].id;
        if tolerance::<N>().is_below(tonnes) {
            if self.input.piles[p].chunks.len() > 0 {
                return ;
            }
            let grades: usize = self.input.grades.count();
            let ghost start = books@;
            for g in 0..grades
                invariant
                    p < self.input.piles@.len(),
                    pile == self.pile(p as int).id,
                    grades == self.grade_count(),
                    contained@.len() == grades,
                    held == (Holding { tonnes, contained: contained@ }),
                    replay_tolerance::<N>().below(tonnes),
                    books@ == folded(g as nat, start, self.blend_step(p as int, k, held)),
            {
                books.blends.put(Pair(pile, Pair(k, g)), contained[g].div(tonnes));
            }
        } else if tolerance::<N>().is_below(taken) {
            books.report(ReplayIssue::EmptySupply { pile, reclaimed: taken, interval: k });
        }
    }

    fn does_carry(&self, p: usize, destination: DestinationId, c: usize) -> (r: bool)
        requires
            p < self.input.piles@.len(),
            c < self.input.movements@.len(),
        ensures
            r == self.carries(p as int, destination, c as int),
    {
        let candidate = &self.input.movements[c];
        candidate.activity == Activity::Reclaim && candidate.source == SourceId::Stockpile(self.input.piles[p].id)
            && candidate.destination == destination
    }

    fn is_first_carrier(&self, p: usize, destination: DestinationId, c: usize) -> (r: bool)
        requires
            p < self.input.piles@.len(),
            c < self.input.movements@.len(),
        ensures
            r == self.first_carries(p as int, destination, c as int),
    {
        if !self.does_carry(p, destination, c) {
            return false;
        }
        for b in 0..c
            invariant
                p < self.input.piles@.len(),
                c < self.input.movements@.len(),
                forall|q: int|
                    0 <= q < b && #[trigger] self.carries(p as int, destination, q)
                        ==> self.input.movements@[q].loader != self.input.movements@[c as int].loader,
        {
            if self.does_carry(p, destination, b) && self.input.movements[b].loader == self.input.movements[c].loader {
                assert(self.carries(p as int, destination, b as int));
                return false;
            }
        }
        true
    }

    fn find_route_capacity(&self, p: usize, k: usize, destination: DestinationId) -> (r: N)
        requires
            p < self.input.piles@.len(),
        ensures
            r == sum_to(self.input.movements@.len(), self.route_capacity(p as int, k, destination)),
    {
        let pile = self.input.piles[p].id;
        let mut total = N::whole(0);
        for c in 0..self.input.movements.len()
            invariant
                p < self.input.piles@.len(),
                pile == self.pile(p as int).id,
                total == sum_to(c as nat, self.route_capacity(p as int, k, destination)),
        {
            let candidate = &self.input.movements[c];
            if self.is_first_carrier(p, destination, c) {
                let rate = match find_key(&self.input.loaders, candidate.loader.0) {
                    Some(l) => match interval_rate(&self.input.loaders[l], k) {
                        Some(rate) => rate.reclaim_tph,
                        None => N::whole(0),
                    },
                    None => N::whole(0),
                };
                let duration = if k < self.input.intervals.len() {
                    self.input.intervals[k].duration_h()
                } else {
                    N::whole(0)
                };
                total = total.add(rate.mul(duration));
            }
        }
        total
    }

    fn check_limit(&self, books: &mut Books<N>, p: usize, k: usize, blend: &Vec<N>, j: usize)
        requires
            p < self.input.piles@.len(),
            j < self.input.grade_limits@.len(),
        ensures
            final(books)@ == self.limit_step(p as int, k, blend@)(old(books)@, j as int),
    {
        let limit = self.input.grade_limits[j];
        let mut delivered = N::whole(0);
        for m in 0..self.solution.movements.len()
            invariant
                p < self.input.piles@.len(),
                delivered == sum_to(m as nat, self.taken_to(p as int, k, limit.destination)),
        {
            if self.does_take(p, k, m) {
                let row = self.solution.movements[m];
                if self.input.movements[row.candidate].destination == limit.destination {
                    delivered = delivered.add(row.tonnes_t);
                }
            }
        }
        if delivered.is_at_most(N::whole(0)) {
            return;
        }
        let actual = if limit.grade < blend.len() {
            blend[limit.grade]
        } else {
            N::whole(0)
        };
        let qualifies: bool = if limit.inclusive {
            limit.minimum.sub(N::decimal(1, 9)).is_at_most(actual)
        } else {
            limit.minimum.add(N::decimal(1, 9)).is_below(actual)
        };
        if !qualifies {
            let capacity = self.find_route_capacity(p, k, limit.destination);
            if delivered.is_at_most(capacity.mul(N::decimal(1, 6))) {
                books.negligible_count = bump(books.negligible_count);
                books.negligible_tonnes = books.negligible_tonnes.add(delivered);
            } else {
                books.report_grade(
                    GradeIssue::BelowMinimum {
                        pile: self.input.piles[p].id,
                        tonnes: delivered,
                        destination: limit.destination,
                        interval: k,
                        actual,
                        minimum: limit.minimum,
                    },
                );
            }
        }
    }

    /// Checks what a pile delivers against the least grades of destinations.
    fn check_grade_limits(&self, books: &mut Books<N>, p: usize, k: usize, blend: &Vec<N>, taken: N)
        requires
            p < self.input.piles@.len(),
            taken == self.all_taken(p as int, k),
        ensures
            final(books)@ == self.limits_checked(old(books)@, p as int, k, blend@),
    {
        if taken.is_at_most(tolerance()) {
            return;
        }
        let ghost start = books@;
        for j in 0..self.input.grade_limits.len()
            invariant
                p < self.input.piles@.len(),
                books@ == folded(j as nat, start, self.limit_step(p as int, k, blend@)),
        {
            self.check_limit(books, p, k, blend, j);
        }
    }

    fn check_delivery(&self, books: &mut Books<N>, p: usize, k: usize, m: usize, blend: &Vec<N>)
        requires
            p < self.input.piles@.len(),
            m < self.rows(),
            self.known(m as int),
        ensures
            final(books)@ == folded(
                self.input.conditional_values@.len(),
                self.qualified(old(books)@, p as int, k, m as int, blend@),
                self.payment_step(m as int, blend@),
            ),
    {
        let row = self.solution.movements[m];
        let candidate = &self.input.movements[row.candidate];
        let pile = self.input.piles[p].id;
        let ghost wanted = self.qualifies(p as int, m as int);
        let ghost n = self.input.qualifications@.len() as int;
        let mut j: usize = 0;
        while j < self.input.qualifications.len() && !(self.input.qualifications[j].loader == candidate.loader
            && self.input.qualifications[j].pile == pile && self.input.qualifications[j].destination
            == candidate.destination)
            invariant
                p < self.input.piles@.len(),
                m < self.rows(),
                candidate == self.candidate(m as int),
                pile == self.pile(p as int).id,
                n == self.input.qualifications@.len(),
                j <= n,
                wanted == self.qualifies(p as int, m as int),
                first_where(0, n, wanted) == first_where(j as int, n, wanted),
            decreases n - j,
        {
            j = j + 1;
        }
        if j < self.input.qualifications.len() {
            assert(wanted(j as int));
            if !self.input.qualifications[j].holds(blend) {
                books.report_grade(
                    GradeIssue::OutsideRange {
                        pile,
                        tonnes: row.tonnes_t,
                        destination: candidate.destination,
                        interval: k,
                    },
                );
            }
        }
        let ghost start = books@;
        for j in 0..self.input.conditional_values.len()
            invariant
                row == self.row(m as int),
                books@ == folded(j as nat, start, self.payment_step(m as int, blend@)),
        {
            let payment = &self.input.conditional_values[j];
            if payment.candidate == row.candidate && payment.holds(blend) {
                books.objective = books.objective.add(row.tonnes_t.mul(payment.value_per_tonne));
            }
        }
    }

    fn check_deliveries(&self, books: &mut Books<N>, p: usize, k: usize, blend: &Vec<N>)
        requires
            p < self.input.piles@.len(),
        ensures
            final(books)@ == folded(self.rows(), old(books)@, self.delivery_step(p as int, k, blend@)),
    {
        let ghost start = books@;
        for m in 0..self.solution.movements.len()
            invariant
                p < self.input.piles@.len(),
                books@ == folded(m as nat, start, self.delivery_step(p as int, k, blend@)),
        {
            if self.does_take(p, k, m) && tolerance::<N>().is_below(self.solution.movements[m].tonnes_t) {
                self.check_delivery(books, p, k, m, blend);
            }
        }
    }

    fn check_pile_closing(&self, books: &mut Books<N>, p: usize, k: usize, tonnes: N, contained: &Vec<N>)
        requires
            p < self.input.piles@.len(),
            contained@.len() == self.grade_count(),
        ensures
            final(books)@ == folded(
                self.grade_count(),
                old(books)@,
                self.closing_step(p as int, k, (Holding { tonnes, contained: contained@ })),
            ),
    {
        let ghost closed = Holding { tonnes, contained: contained@ };
        let pile = self.input.piles[p].id;
        let grades: usize = self.input.grades.count();
        let ghost start = books@;
        for g in 0..grades
            invariant
                p < self.input.piles@.len(),
                pile == self.pile(p as int).id,
                grades == self.grade_count(),
                contained@.len() == grades,
                closed == (Holding { tonnes, contained: contained@ }),
                books@ == folded(g as nat, start, self.closing_step(p as int, k, closed)),
        {
            let held = contained[g];
            if held.is_below(tolerance::<N>().neg()) {
                books.report(ReplayIssue::NegativeContained { pile, interval: k, contained: held, grade: g });
            }
            if tonnes.larger(N::whole(0)).add(tolerance()).is_below(held) {
                books.report(ReplayIssue::ExcessContained { pile, contained: held, grade: g, tonnes, interval: k });
            }
        }
    }

    fn replay_pile_interval(
        &self,
        books: &mut Books<N>,
        draws: &Draws<N>,
        p: usize,
        i: usize,
        tonnes: N,
        contained: Vec<N>,
    ) -> (r: (N, Vec<N>))
        requires
            p < self.input.piles@.len(),
            i < self.input.intervals@.len(),
            (Holding { tonnes, contained: contained@ }) == self.holding(draws@, p as int, i as nat),
        ensures
            final(books)@ == self.pile_step(draws@, p as int)(old(books)@, i as int),
            (Holding { tonnes: r.0, contained: r.1@ }) == self.holding(draws@, p as int, (i + 1) as nat),
    {
        let pile = self.input.piles[p].id;
        let k: usize = self.input.intervals[i].index;
        let ghost held = self.holding(draws@, p as int, i as nat);
        let ghost closed = self.holding(draws@, p as int, (i + 1) as nat);
        let grades: usize = self.input.grades.count();
        proof {
            if i > 0 {
                assert(held.contained.len() == self.grade_count());
            }
        }
        books.openings.put(Pair(pile, k), tonnes);
        self.find_missing(books, p, k);
        let taken = self.find_taken(p, k);
        books.breach(Label::ReleasedOpening { pile, interval: k }, taken, tonnes);
        self.check_occupied(books, p, k, tonnes);
        self.note_own_blend(books, p, k, tonnes, &contained, taken);
        let blend = self.find_blend(draws, p, k, tonnes, &contained);
        if let Some(drawn) = self.find_draw(draws, p, k) {
            books.residual(Label::ChunkDraws { pile, interval: k }, drawn, taken);
        }
        self.check_grade_limits(books, p, k, &blend, taken);
        self.check_deliveries(books, p, k, &blend);
        let closing_t = tonnes.add(self.find_brought(p, k)).sub(taken);
        if closing_t.is_below(tolerance::<N>().neg()) {
            books.report(ReplayIssue::PileClosing { pile, interval: k, tonnes: closing_t });
        }
        let mut closing_q: Vec<N> = Vec::new();
        for g in 0..grades
            invariant
                p < self.input.piles@.len(),
                i < self.input.intervals@.len(),
                k == self.input.intervals@[i as int].index,
                grades == self.grade_count(),
                contained@.len() == grades,
                held == (Holding { tonnes, contained: contained@ }),
                held == self.holding(draws@, p as int, i as nat),
                closed == self.holding(draws@, p as int, (i + 1) as nat),
                closed == self.closed_holding(draws@, p as int, k, held),
                blend@ == self.delivered_blend(draws@, p as int, k, held),
                blend@.len() == grades,
                closed.contained.len() == grades,
                taken == self.all_taken(p as int, k),
                closing_q@ =~= closed.contained.take(g as int),
        {
            closing_q.push(contained[g].add(self.find_brought_grade(p, k, g)).sub(blend[g].mul(taken)));
        }
        assert(closing_q@ =~= closed.contained);
        self.check_pile_closing(books, p, k, closing_t, &closing_q);
        (closing_t, closing_q)
    }

    /// Replays one pile, and says what it holds at the end.
    pub fn replay_pile(&self, books: &mut Books<N>, draws: &Draws<N>, p: usize) -> (r: ClosingState<N>)
        requires
            p < self.input.piles@.len(),
        ensures
            final(books)@ == self.piles_step(draws@)(old(books)@, p as int),
            r.pile == self.pile(p as int).id,
            (Holding { tonnes: r.tonnes_t, contained: r.contained@ }) == self.holding(
                draws@,
                p as int,
                self.horizon(),
            ),
    {
        let pile = &self.input.piles[p];
        let grades: usize = self.input.grades.count();
        let (mut tonnes, mut contained) = pile.total_opening(grades);
        let ghost start = books@;
        assert(contained@ =~= self.holding(draws@, p as int, 0).contained);
        for i in 0..self.input.intervals.len()
            invariant
                p < self.input.piles@.len(),
                (Holding { tonnes, contained: contained@ }) == self.holding(draws@, p as int, i as nat),
                books@ == folded(i as nat, start, self.pile_step(draws@, p as int)),
        {
            let (closing_t, closing_q) = self.replay_pile_interval(books, draws, p, i, tonnes, contained);
            tonnes = closing_t;
            contained = closing_q;
        }
        ClosingState { pile: pile.id, tonnes_t: tonnes, contained }
    }
}

} // verus!
