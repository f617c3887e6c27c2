//! Replaying a blended solution from its movements alone.
use vstd::prelude::*;

use crate::cancellation::CancellationToken;
use crate::listing::folded;
use crate::optimisation::authored::windows_compare;
use crate::optimisation::blended::chunks::chunks_fit;
use crate::optimisation::blended::input::BlendInput;
use crate::optimisation::blended::piles::{DrawView, Draws, Holding};
use crate::optimisation::blended::report::{
    BlendSolution, Books, ClosingState, ReplayIssue, ReplayReport, ReplayState,
};
use crate::optimisation::blended::totals::Replay;
use crate::optimisation::input::value_to;
use crate::scalar::Scalar;

verus! {

pub open spec fn replay_of<'a, N>(input: &'a BlendInput<N>, solution: &'a BlendSolution<N>) -> Replay<'a, N> {
    Replay { input, solution }
}

impl<'a, N: Scalar> Replay<'a, N> {
    /// The windows of tasks can be put in order, and the chunks of every pile numbered.
    pub open spec fn replayable(self) -> bool {
        &&& windows_compare(self.input.tasks@)
        &&& forall|p: int|
            0 <= p < self.input.piles@.len() ==> chunks_fit(
                (#[trigger] self.input.piles@[p]).chunks@.len(),
                self.horizon(),
            )
    }

    /// The books before the piles are replayed.
    pub open spec fn before_piles(self) -> ReplayState<N> {
        self.after_chunks(self.after_totals(ReplayState::blank()))
    }

    /// What was drawn from chunks.
    pub open spec fn draws(self) -> DrawView<N> {
        DrawView { tonnes: self.before_piles().drawn_t, contained: self.before_piles().drawn_q }
    }

    /// The books after the piles.
    pub open spec fn after_piles(self) -> ReplayState<N> {
        folded(self.input.piles@.len(), self.before_piles(), self.piles_step(self.draws()))
    }

    pub open spec fn value_peak(self) -> spec_fn(N, int) -> N {
        |peak: N, c: int|
            match value_to(
                self.input.movements@[c].cashflow@,
                self.input.movements@[c].cashflow@.len(),
            ) {
                Some(value) => peak.upper(value.magnitude()),
                None => peak,
            }
    }

    pub open spec fn payment_peak(self) -> spec_fn(N, int) -> N {
        |peak: N, c: int| peak.upper(self.input.conditional_values@[c].value_per_tonne.magnitude())
    }

    /// The most that a tonne can be worth.
    pub open spec fn largest_value(self) -> N {
        folded(
            self.input.conditional_values@.len(),
            folded(self.input.movements@.len(), N::of_whole(0), self.value_peak()),
            self.payment_peak(),
        )
    }

    /// How far the replayed objective may be from the reported one: what was
    /// dropped when the solution was read off, and a little arithmetic.
    pub open spec fn permitted(self) -> N {
        let reported = self.solution.reported_objective;
        self.solution.adjustments.movement_total_t.times(self.largest_value()).plus(
            N::of_decimal(1, 10).times(reported.magnitude().upper(N::of_whole(1))),
        )
    }

    /// Everything physically wrong with the solution.
    pub open spec fn all_issues(self) -> Seq<ReplayIssue<N>> {
        let state = self.after_piles();
        let reported = self.solution.reported_objective;
        let issues = self.after_order(self.after_bars(state.issues, state.openings));
        if !reported.finite() || self.permitted().below(state.objective.minus(reported).magnitude()) {
            issues.push(
                ReplayIssue::Objective { replayed: state.objective, reported, permitted: self.permitted() },
            )
        } else {
            issues
        }
    }

    /// What a pile holds at the end, as reported.
    pub open spec fn closes(self, p: int, closing: ClosingState<N>) -> bool {
        closing.pile == self.pile(p).id && (Holding { tonnes: closing.tonnes_t, contained: closing.contained@ })
            == self.holding(self.draws(), p, self.horizon())
    }

    /// A report that says what the replay finds.
    pub open spec fn reported_by(self, report: ReplayReport<N>) -> bool {
        let state = self.after_piles();
        &&& report.issues@ == self.all_issues()
        &&& report.grade_issues@ == state.grade_issues
        &&& report.blends@ == state.blends
        &&& report.max_absolute_residual_t == state.max_absolute
        &&& report.max_relative_residual == state.max_relative
        &&& report.replayed_objective == state.objective
        &&& report.objective_difference == state.objective.minus(self.solution.reported_objective)
        &&& report.negligible_grade_deliveries == state.negligible_count
        &&& report.negligible_grade_tonnes_t == state.negligible_tonnes
        &&& report.chunk_dust_events == state.dust_events
        &&& report.chunk_dust_tonnes_t == state.dust_tonnes
        &&& report.chunk_dust_threshold_t == state.dust_threshold
        &&& report.closing@.len() == self.input.piles@.len()
        &&& forall|p: int| 0 <= p < self.input.piles@.len() ==> self.closes(p, #[trigger] report.closing@[p])
    }

    fn find_largest_value(&self) -> (r: N)
        ensures
            r == self.largest_value(),
    {
        let mut peak = N::whole(0);
        for c in 0..self.input.movements.len()
            invariant
                peak == folded(c as nat, N::of_whole(0), self.value_peak()),
        {
            if let Ok(value) = self.input.movements[c].value_per_tonne() {
                peak = peak.larger(value.abs());
            }
        }
        let ghost middle = peak;
        for c in 0..self.input.conditional_values.len()
            invariant
                peak == folded(c as nat, middle, self.payment_peak()),
        {
            peak = peak.larger(self.input.conditional_values[c].value_per_tonne.abs());
        }
        peak
    }

    fn run(&self, token: Option<&CancellationToken>) -> (r: Option<ReplayReport<N>>)
        requires
            self.replayable(),
        ensures
            r matches Some(report) ==> self.reported_by(report),
            token is None ==> r is Some,
    {
        let mut books = Books::new();
        if stopped(token) {
            return None;
        }
        self.replay_totals(&mut books);
        if stopped(token) {
            return None;
        }
        self.check_chunks(&mut books);
        if stopped(token) {
            return None;
        }
        let draws = Draws { tonnes: books.drawn_t.copy(), contained: books.drawn_q.copy() };
        let ghost start = books@;
        let mut closing: Vec<ClosingState<N>> = Vec::new();
        for p in 0..self.input.piles.len()
            invariant
                start == self.before_piles(),
                draws@ == self.draws(),
                books@ == folded(p as nat, start, self.piles_step(draws@)),
                closing@.len() == p,
                forall|q: int| 0 <= q < p ==> self.closes(q, #[trigger] closing@[q]),
        {
            if stopped(token) {
                return None;
            }
            let state = self.replay_pile(&mut books, &draws, p);
            closing.push(state);
        }
        if stopped(token) {
            return None;
        }
        let Books {
            issues,
            grade_issues,
            blends,
            max_absolute,
            max_relative,
            objective,
            negligible_count,
            negligible_tonnes,
            dust_events,
            dust_tonnes,
            dust_threshold,
            held_t: _,
            held_q: _,
            drawn_t: _,
            drawn_q: _,
            openings,
        } = books;
        let issues = self.check_bar_priority(issues, &openings);
        if stopped(token) {
            return None;
        }
        let mut issues = self.check_block_order(issues);
        if stopped(token) {
            return None;
        }
        let reported = self.solution.reported_objective;
        let difference = objective.sub(reported);
        let permitted = self.solution.adjustments.movement_total_t.mul(self.find_largest_value()).add(
            N::decimal(1, 10).mul(reported.abs().larger(N::whole(1))),
        );
        if !reported.is_finite() || permitted.is_below(difference.abs()) {
            issues.push(ReplayIssue::Objective { replayed: objective, reported, permitted });
        }
        Some(
            ReplayReport {
                issues,
                grade_issues,
                blends,
                max_absolute_residual_t: max_absolute,
                max_relative_residual: max_relative,
                replayed_objective: objective,
                objective_difference: difference,
                negligible_grade_deliveries: negligible_count,
                negligible_grade_tonnes_t: negligible_tonnes,
                chunk_dust_events: dust_events,
                chunk_dust_tonnes_t: dust_tonnes,
                chunk_dust_threshold_t: dust_threshold,
                closing,
            },
        )
    }
}

fn stopped(token: Option<&CancellationToken>) -> (r: bool)
    ensures
        token is None ==> !r,
{
    match token {
        Some(flag) => flag.is_cancelled(),
        None => false,
    }
}

/// Replays a solution from its movements alone, without looking at how it was
/// made, and reports what is wrong with it.
pub fn replay<N: Scalar>(input: &BlendInput<N>, solution: &BlendSolution<N>) -> (r: ReplayReport<N>)
    requires
        replay_of(input, solution).replayable(),
    ensures
        replay_of(input, solution).reported_by(r),
{
    let run = Replay { input, solution }.run(None);
    run.unwrap()
}

/// Replays a solution, giving up where the flag is seen raised.
pub fn replay_cancellable<N: Scalar>(
    input: &BlendInput<N>,
    solution: &BlendSolution<N>,
    cancel: &CancellationToken,
) -> (r: Option<ReplayReport<N>>)
    requires
        replay_of(input, solution).replayable(),
    ensures
        r matches Some(report) ==> replay_of(input, solution).reported_by(report),
{
    Replay { input, solution }.run(Some(cancel))
}

} // verus!
