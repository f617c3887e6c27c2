//! Searching for a blended plan by supposing grades, solving, and supposing
//! again what the solution turned out to deliver.
//!
//! The search decides what to solve next; a caller solves it and hands back
//! what came out.
use vstd::prelude::*;

use crate::optimisation::blended::estimates::{
    chunks_numbered, drifted, first_guess, first_values, marks, updated, Estimates, Mark, StartPolicy,
};
use crate::optimisation::blended::input::BlendInput;
use crate::optimisation::blended::report::{bump, one_more, BlendKey, BlendSolution, ReplayReport};
use crate::scalar::Scalar;

verus! {

/// What a replayed candidate is worth.
#[derive(Clone, Copy, Debug, PartialEq, Eq, Structural)]
pub enum CandidateOutcome {
    PhysicallyInvalid,
    GradeMismatch,
    Publishable,
}

/// Why a search ended.
#[derive(Clone, Copy, Debug, PartialEq, Eq, Structural)]
pub enum Termination {
    Converged,
    Cycled,
    Budget,
    IterationLimit,
    NoValidCandidate,
    AllSubproblemsInfeasible,
}

/// What one solve came to. Times are nanoseconds.
#[derive(Clone, Copy, Debug)]
pub struct IterationRecord<N> {
    pub start: StartPolicy,
    pub iteration: usize,
    pub milp_objective: Option<N>,
    pub outcome: Option<CandidateOutcome>,
    pub replayed_objective: N,
    pub estimate_drift: N,
    pub solve_time: u64,
}

/// How long a search may take, in nanoseconds, and how many solves each start
/// gets.
#[derive(Clone, Copy, Debug, PartialEq, Eq, Structural)]
pub struct IterationBudget {
    pub total: u64,
    pub per_solve: u64,
    pub max_iterations: usize,
}

impl IterationBudget {
    /// A budget in which one solve may take all the time.
    pub fn new(total: u64) -> (r: Self)
        ensures
            r == (IterationBudget { total, per_solve: total, max_iterations: 30 }),
    {
        IterationBudget { total, per_solve: total, max_iterations: 30 }
    }
}

/// The best candidate that nothing is wrong with.
#[derive(Clone, Debug)]
pub struct Best<N> {
    pub objective: N,
    pub solution: BlendSolution<N>,
    pub report: ReplayReport<N>,
}

/// Where a search has got to.
#[derive(Clone, Debug)]
pub struct Search<N> {
    pub budget: IterationBudget,
    pub starts: Vec<StartPolicy>,
    /// How many starts were begun.
    pub begun: usize,
    /// Whether the last start begun goes on.
    pub open: bool,
    /// How many solves the start begun last has had.
    pub iteration: usize,
    pub estimates: Estimates<N>,
    /// The estimates met since the start began.
    pub seen: Vec<Vec<Mark>>,
    /// Whether this start found the best candidate.
    pub improved: bool,
    pub best: Option<Best<N>>,
    pub time_to_first_valid: Option<u64>,
    pub iterations: usize,
    pub any_feasible: bool,
    pub any_physically_valid: bool,
    pub termination: Termination,
    pub best_termination: Option<Termination>,
    pub history: Vec<IterationRecord<N>>,
}

/// How a start goes on after a candidate.
#[derive(Clone, Copy, Debug, PartialEq, Eq, Structural)]
pub enum Judgement {
    /// The estimates no longer change and the candidate stands.
    Converged,
    /// The estimates were met before.
    Cycled,
    /// The start has had all its solves.
    Exhausted,
    Continues,
}

pub open spec fn met<N>(search: Search<N>, fingerprint: Seq<Mark>) -> bool {
    exists|i: int| 0 <= i < search.seen@.len() && (#[trigger] search.seen@[i])@ == fingerprint
}

/// What a replayed candidate is worth.
pub open spec fn outcome_of<N>(report: ReplayReport<N>) -> CandidateOutcome {
    if report.issues@.len() > 0 {
        CandidateOutcome::PhysicallyInvalid
    } else if report.grade_issues@.len() > 0 {
        CandidateOutcome::GradeMismatch
    } else {
        CandidateOutcome::Publishable
    }
}

/// Why a search ended, from what it met. A search that ran out of time before
/// its first solve met nothing.
pub open spec fn ending(
    solved: bool,
    found: bool,
    any_feasible: bool,
    any_physically_valid: bool,
    termination: Termination,
    best_termination: Option<Termination>,
) -> Termination {
    if !solved && termination is Budget {
        Termination::Budget
    } else if !found && !any_feasible {
        Termination::AllSubproblemsInfeasible
    } else if !found && !any_physically_valid {
        Termination::NoValidCandidate
    } else {
        match best_termination {
            Some(reason) => reason,
            None => termination,
        }
    }
}

impl<N> IterationRecord<N> {
    /// Nothing was wrong with the candidate.
    pub open spec fn publishable(self) -> bool {
        self.outcome == Some(CandidateOutcome::Publishable)
    }
}

/// What is worth more than something better is worth more than it.
proof fn better_than_better<N: Scalar>(a: N, b: N, c: N)
    requires
        a.below(b),
        b.below(c),
    ensures
        a.below(c),
{
    N::comparison_laws(a, b, c);
    N::comparison_laws(b, c, a);
    N::comparison_laws(c, a, b);
    N::comparison_laws(a, c, b);
}

impl<N: Scalar> Search<N> {
    /// The best candidate, where there is one, is worth what its replay found
    /// and nothing is wrong with it; it is one of the history, and none of the
    /// history is worth more.
    pub open spec fn best_held(self) -> bool {
        &&& self.best matches Some(best) ==> best.objective == best.report.replayed_objective
            && best.report.issues@.len() == 0 && best.report.grade_issues@.len() == 0
        &&& self.best matches Some(best) ==> exists|h: int|
            0 <= h < self.history@.len() && (#[trigger] self.history@[h]).publishable()
                && self.history@[h].replayed_objective == best.objective
        &&& forall|h: int|
            0 <= h < self.history@.len() && (#[trigger] self.history@[h]).publishable() ==> (self.best matches Some(
                best,
            ) && !best.objective.below(self.history@[h].replayed_objective))
    }

    /// Starts are begun one by one, and none has more solves than it may.
    pub open spec fn counted(self) -> bool {
        let most = self.budget.max_iterations as int;
        &&& self.begun <= self.starts@.len()
        &&& self.open ==> self.begun > 0 && self.iteration <= most
        &&& self.history@.len() <= (if self.open {
            (self.begun - 1) * most + self.iteration
        } else {
            self.begun * most
        })
        &&& self.history@.len() <= self.starts@.len() * most
    }

    /// What holds between steps: every solve is in the history, which holds no
    /// more than the starts may have, and the best of it is known.
    pub open spec fn in_step(self) -> bool {
        self.best_held() && self.counted() && self.iterations == self.history@.len()
    }

    /// What holds while a solve is under way.
    pub open spec fn solving(self) -> bool {
        self.best_held() && self.counted() && self.under_way() && self.iterations == one_more(
            self.history@.len() as usize,
        )
    }

    /// A start is under way and has solves left.
    pub open spec fn under_way(self) -> bool {
        self.open && self.iteration < self.budget.max_iterations
    }

    /// The estimates after a report.
    pub open spec fn next_values(self, report: ReplayReport<N>) -> Seq<(BlendKey, N)> {
        updated(self.estimates.values@, self.estimates.fallback@, report.blends@)
    }

    pub open spec fn drift_of(self, report: ReplayReport<N>) -> N {
        drifted(self.estimates.values@, self.next_values(report))
    }

    /// Nothing is wrong with a candidate.
    pub open spec fn stands(self, report: ReplayReport<N>) -> bool {
        report.issues@.len() == 0 && report.grade_issues@.len() == 0
    }

    /// A candidate stands and is worth more than the best so far.
    pub open spec fn improves(self, report: ReplayReport<N>) -> bool {
        self.stands(report) && match self.best {
            Some(best) => best.objective.below(report.replayed_objective),
            None => true,
        }
    }

    pub open spec fn judgement(self, report: ReplayReport<N>) -> Judgement {
        if self.stands(report) && self.drift_of(report).at_most(N::of_decimal(1, 6)) {
            Judgement::Converged
        } else if met(self, marks(self.next_values(report))) {
            Judgement::Cycled
        } else if self.iteration + 1 == self.budget.max_iterations {
            Judgement::Exhausted
        } else {
            Judgement::Continues
        }
    }

    /// A search that has done nothing yet.
    pub fn begin(budget: IterationBudget, starts: Vec<StartPolicy>) -> (r: Self)
        ensures
            r.in_step(),
            r.budget == budget,
            r.starts == starts,
            r.begun == 0,
            !r.open,
            r.iteration == 0,
            r.seen@.len() == 0,
            !r.improved,
            r.best is None,
            r.time_to_first_valid is None,
            r.iterations == 0,
            !r.any_feasible,
            !r.any_physically_valid,
            r.termination is NoValidCandidate,
            r.best_termination is None,
            r.history@.len() == 0,
    {
        Search {
            budget,
            starts,
            begun: 0,
            open: false,
            iteration: 0,
            estimates: Estimates { values: crate::ledger::Ledger::new(), fallback: Vec::new() },
            seen: Vec::new(),
            improved: false,
            best: None,
            time_to_first_valid: None,
            iterations: 0,
            any_feasible: false,
            any_physically_valid: false,
            termination: Termination::NoValidCandidate,
            best_termination: None,
            history: Vec::new(),
        }
    }

    /// Goes on to the next solve: gives the time it may take, or `None` where
    /// the search is over. A start that is not under way gives way to the
    /// next, which supposes its own estimates.
    pub fn next(&mut self, input: &BlendInput<N>, elapsed: u64) -> (r: Option<u64>)
        requires
            old(self).in_step(),
            chunks_numbered(*input),
        ensures
            r is Some ==> final(self).solving(),
            r is None ==> final(self).in_step(),
            final(self).budget == old(self).budget,
            final(self).starts == old(self).starts,
            final(self).best == old(self).best,
            final(self).time_to_first_valid == old(self).time_to_first_valid,
            final(self).any_feasible == old(self).any_feasible,
            final(self).any_physically_valid == old(self).any_physically_valid,
            final(self).history == old(self).history,
            ({
                let over = !old(self).under_way() && (old(self).begun == old(self).starts@.len() || old(
                    self,
                ).budget.max_iterations == 0);
                let late = !over && elapsed >= old(self).budget.total;
                &&& final(self).begun == (if old(self).under_way() {
                    old(self).begun as int
                } else if over {
                    old(self).starts@.len() as int
                } else {
                    old(self).begun + 1
                })
                &&& old(self).under_way() ==> {
                    &&& final(self).open
                    &&& final(self).iteration == old(self).iteration
                    &&& final(self).improved == old(self).improved
                    &&& final(self).seen == old(self).seen
                    &&& final(self).estimates == old(self).estimates
                }
                &&& over ==> !final(self).open
                &&& !old(self).under_way() && !over ==> {
                    let policy = old(self).starts@[old(self).begun as int];
                    &&& final(self).open
                    &&& final(self).iteration == 0
                    &&& !final(self).improved
                    &&& final(self).seen@.len() == 0
                    &&& final(self).estimates.values@ == first_values(policy, *input)
                    &&& final(self).estimates.fallback@ == Seq::new(
                        input.grades.fields@.len(),
                        |g: int| first_guess(policy, *input, g),
                    )
                }
                &&& final(self).termination == (if late {
                    Termination::Budget
                } else {
                    old(self).termination
                })
                &&& final(self).best_termination == (if late && old(self).under_way() && old(self).improved {
                    Some(Termination::Budget)
                } else {
                    old(self).best_termination
                })
                &&& final(self).iterations == (if over || late {
                    old(self).iterations
                } else {
                    one_more(old(self).iterations)
                })
                &&& r == (if over || late {
                    None
                } else if old(self).budget.per_solve < old(self).budget.total - elapsed {
                    Some(old(self).budget.per_solve)
                } else {
                    Some((old(self).budget.total - elapsed) as u64)
                })
            }),
    {
        proof {
            self.starts_counted();
        }
        if !(self.open && self.iteration < self.budget.max_iterations) {
            if self.budget.max_iterations == 0 || self.begun == self.starts.len() {
                self.begun = self.starts.len();
                self.open = false;
                return None;
            }
            let policy = self.starts[self.begun];
            self.begun = self.begun + 1;
            self.open = true;
            self.iteration = 0;
            self.improved = false;
            self.seen = Vec::new();
            self.estimates = policy.initial(input);
        }
        if elapsed >= self.budget.total {
            self.termination = Termination::Budget;
            if self.improved {
                self.best_termination = Some(Termination::Budget);
            }
            return None;
        }
        self.iterations = bump(self.iterations);
        let remaining: u64 = self.budget.total - elapsed;
        if self.budget.per_solve < remaining {
            Some(self.budget.per_solve)
        } else {
            Some(remaining)
        }
    }

    /// Takes that the solve found no solution: its start is given up.
    pub fn refuse(&mut self, solve_time: u64)
        requires
            old(self).solving(),
        ensures
            final(self).in_step(),
            !final(self).open,
            final(self).history@ == old(self).history@.push(
                IterationRecord {
                    start: old(self).starts@[old(self).begun - 1],
                    iteration: old(self).iteration,
                    milp_objective: None,
                    outcome: None,
                    replayed_objective: N::of_whole(0),
                    estimate_drift: N::of_whole(0),
                    solve_time,
                },
            ),
            final(self).budget == old(self).budget,
            final(self).starts == old(self).starts,
            final(self).begun == old(self).begun,
            final(self).best == old(self).best,
            final(self).time_to_first_valid == old(self).time_to_first_valid,
            final(self).iterations == old(self).iterations,
            final(self).any_feasible == old(self).any_feasible,
            final(self).any_physically_valid == old(self).any_physically_valid,
            final(self).termination == old(self).termination,
            final(self).best_termination == old(self).best_termination,
    {
        let start = self.starts[self.begun - 1];
        self.history.push(
            IterationRecord {
                start,
                iteration: self.iteration,
                milp_objective: None,
                outcome: None,
                replayed_objective: N::whole(0),
                estimate_drift: N::whole(0),
                solve_time,
            },
        );
        self.open = false;
        proof {
            let was = old(self).history@;
            assert(forall|h: int| 0 <= h < was.len() ==> #[trigger] self.history@[h] == was[h]);
            if self.best is Some {
                let worth = self.best->0.objective;
                let h = choose|h: int|
                    0 <= h < was.len() && (#[trigger] was[h]).publishable() && was[h].replayed_objective == worth;
                assert(self.history@[h].publishable());
            }
            assert(!self.history@[was.len() as int].publishable());
            old(self).one_counted(*self);
        }
    }

    /// Where no start is under way, those begun have had no more solves than
    /// they may have.
    proof fn starts_counted(self)
        requires
            self.counted(),
        ensures
            !self.under_way() ==> self.history@.len() <= self.begun * self.budget.max_iterations,
            self.begun * self.budget.max_iterations <= self.starts@.len() * self.budget.max_iterations,
            0 <= self.begun * self.budget.max_iterations,
            self.history.len() == self.history@.len(),
    {
        let (begun, most, all) = (self.begun as int, self.budget.max_iterations as int, self.starts@.len() as int);
        assert(begun * most == (begun - 1) * most + most) by (nonlinear_arith);
        assert(0 <= begun * most <= all * most) by (nonlinear_arith)
            requires
                0 <= begun <= all,
                0 <= most,
        ;
    }

    /// One more solve of a start is still one that it may have.
    proof fn one_counted(self, now: Self)
        requires
            self.counted(),
            self.under_way(),
            now.budget == self.budget,
            now.starts == self.starts,
            now.begun == self.begun,
            now.history@.len() == self.history@.len() + 1,
            now.open ==> now.iteration == self.iteration + 1,
        ensures
            now.counted(),
            now.history@.len() == one_more(self.history@.len() as usize),
    {
        let (begun, most, all) = (self.begun as int, self.budget.max_iterations as int, self.starts@.len() as int);
        assert(begun * most == (begun - 1) * most + most) by (nonlinear_arith);
        assert(begun * most <= all * most) by (nonlinear_arith)
            requires
                begun <= all,
                0 <= most,
        ;
        assert(now.history.len() == now.history@.len());
    }

    /// Whatever came of a candidate, the best is the best of the history.
    proof fn best_stays(self, now: Self, report: ReplayReport<N>)
        requires
            self.best_held(),
            now.history@.len() == self.history@.len() + 1,
            now.history@.drop_last() == self.history@,
            now.history@.last().replayed_objective == report.replayed_objective,
            now.history@.last().publishable() == self.stands(report),
            self.improves(report) ==> (now.best matches Some(best) && best.objective == report.replayed_objective),
            !self.improves(report) ==> now.best == self.best,
        ensures
            now.best matches Some(best) ==> exists|h: int|
                0 <= h < now.history@.len() && (#[trigger] now.history@[h]).publishable()
                    && now.history@[h].replayed_objective == best.objective,
            forall|h: int|
                0 <= h < now.history@.len() && (#[trigger] now.history@[h]).publishable() ==> (now.best matches Some(
                    best,
                ) && !best.objective.below(now.history@[h].replayed_objective)),
    {
        let n = self.history@.len() as int;
        assert(now.history@[n] == now.history@.last());
        if let Some(best) = self.best {
            let h = choose|h: int|
                0 <= h < self.history@.len() && (#[trigger] self.history@[h]).publishable()
                    && self.history@[h].replayed_objective == best.objective;
            assert(now.history@[h] == now.history@.drop_last()[h]);
            assert(now.history@[h].publishable());
        }
        let value = report.replayed_objective;
        N::comparison_laws(value, value, value);
        assert forall|h: int| 0 <= h < now.history@.len() && (#[trigger] now.history@[h]).publishable() implies (
        now.best matches Some(best) && !best.objective.below(now.history@[h].replayed_objective)) by {
            if h < n {
                assert(now.history@[h] == now.history@.drop_last()[h]);
                let other = self.history@[h].replayed_objective;
                assert(self.history@[h].publishable());
                if self.improves(report) && value.below(other) {
                    better_than_better(self.best->0.objective, value, other);
                }
            }
        }
    }

    fn has_met(&self, fingerprint: &Vec<Mark>) -> (r: bool)
        ensures
            r == met(*self, fingerprint@),
    {
        for i in 0..self.seen.len()
            invariant
                forall|q: int| 0 <= q < i ==> (#[trigger] self.seen@[q])@ != fingerprint@,
        {
            if same_marks(&self.seen[i], fingerprint) {
                assert(self.seen@[i as int]@ == fingerprint@);
                return true;
            }
        }
        false
    }

    /// Takes a candidate and what replaying it found: keeps it where it stands
    /// and is worth more than the best so far, and supposes new grades unless
    /// its start has come to an end.
    pub fn judge(
        &mut self,
        candidate: BlendSolution<N>,
        report: ReplayReport<N>,
        objective: Option<N>,
        solve_time: u64,
        elapsed: u64,
    )
        requires
            old(self).solving(),
        ensures
            final(self).in_step(),
            final(self).budget == old(self).budget,
            final(self).starts == old(self).starts,
            final(self).begun == old(self).begun,
            final(self).iterations == old(self).iterations,
            final(self).any_feasible,
            final(self).any_physically_valid == (old(self).any_physically_valid || report.issues@.len() == 0),
            final(self).history@ == old(self).history@.push(
                IterationRecord {
                    start: old(self).starts@[old(self).begun - 1],
                    iteration: old(self).iteration,
                    milp_objective: objective,
                    outcome: Some(outcome_of(report)),
                    replayed_objective: report.replayed_objective,
                    estimate_drift: old(self).drift_of(report),
                    solve_time,
                },
            ),
            final(self).time_to_first_valid == (if old(self).stands(report) && old(self).time_to_first_valid is None {
                Some(elapsed)
            } else {
                old(self).time_to_first_valid
            }),
            final(self).best == (if old(self).improves(report) {
                Some(Best { objective: report.replayed_objective, solution: candidate, report })
            } else {
                old(self).best
            }),
            final(self).improved == (old(self).improved || old(self).improves(report)),
            ({
                let ended = match old(self).judgement(report) {
                    Judgement::Converged => Some(Termination::Converged),
                    Judgement::Cycled => Some(Termination::Cycled),
                    Judgement::Exhausted => Some(Termination::IterationLimit),
                    Judgement::Continues => None,
                };
                &&& final(self).open == (old(self).judgement(report) is Continues || old(self).judgement(
                    report,
                ) is Exhausted)
                &&& final(self).open ==> {
                    &&& final(self).iteration == old(self).iteration + 1
                    &&& final(self).estimates.values@ == old(self).next_values(report)
                    &&& final(self).estimates.fallback@ == old(self).estimates.fallback@
                    &&& final(self).seen@.len() == old(self).seen@.len() + 1
                    &&& final(self).seen@.last()@ == marks(old(self).next_values(report))
                    &&& final(self).seen@.drop_last() == old(self).seen@
                }
                &&& final(self).termination == (match ended {
                    Some(reason) => reason,
                    None => old(self).termination,
                })
                &&& final(self).best_termination == (if ended is Some && final(self).improved {
                    ended
                } else {
                    old(self).best_termination
                })
            }),
    {
        let start = self.starts[self.begun - 1];
        self.any_feasible = true;
        let supposed = self.estimates.toward(&report.blends);
        let drift = self.estimates.drift(&supposed);
        let outcome = if !report.is_physically_valid() {
            CandidateOutcome::PhysicallyInvalid
        } else if report.grade_issues.len() > 0 {
            CandidateOutcome::GradeMismatch
        } else {
            CandidateOutcome::Publishable
        };
        if report.is_physically_valid() {
            self.any_physically_valid = true;
        }
        self.history.push(
            IterationRecord {
                start,
                iteration: self.iteration,
                milp_objective: objective,
                outcome: Some(outcome),
                replayed_objective: report.replayed_objective,
                estimate_drift: drift,
                solve_time,
            },
        );
        let valid: bool = report.is_valid();
        let fingerprint = supposed.fingerprint();
        let again: bool = self.has_met(&fingerprint);
        if valid {
            if self.time_to_first_valid.is_none() {
                self.time_to_first_valid = Some(elapsed);
            }
            let better: bool = match &self.best {
                Some(best) => best.objective.is_below(report.replayed_objective),
                None => true,
            };
            if better {
                self.best = Some(Best { objective: report.replayed_objective, solution: candidate, report });
                self.improved = true;
            }
        }
        let mut ended: Option<Termination> = None;
        if valid && drift.is_at_most(N::decimal(1, 6)) {
            ended = Some(Termination::Converged);
            self.open = false;
        } else if again {
            ended = Some(Termination::Cycled);
            self.open = false;
        } else {
            self.seen.push(fingerprint);
            assert(self.seen@.drop_last() =~= old(self).seen@);
            self.estimates = supposed;
            self.iteration = self.iteration + 1;
            if self.iteration == self.budget.max_iterations {
                ended = Some(Termination::IterationLimit);
            }
        }
        if let Some(reason) = ended {
            self.termination = reason;
            if self.improved {
                self.best_termination = Some(reason);
            }
        }
        proof {
            assert(self.history@.drop_last() =~= old(self).history@);
            old(self).best_stays(*self, report);
            old(self).one_counted(*self);
        }
    }

    /// Why the search ended: where it found a candidate, why the start that
    /// found the best one did.
    pub fn termination(&self) -> (r: Termination)
        ensures
            r == ending(
                self.iterations > 0,
                self.best is Some,
                self.any_feasible,
                self.any_physically_valid,
                self.termination,
                self.best_termination,
            ),
    {
        if self.iterations == 0 && self.termination == Termination::Budget {
            Termination::Budget
        } else if self.best.is_none() && !self.any_feasible {
            Termination::AllSubproblemsInfeasible
        } else if self.best.is_none() && !self.any_physically_valid {
            Termination::NoValidCandidate
        } else {
            match self.best_termination {
                Some(reason) => reason,
                None => self.termination,
            }
        }
    }
}

/// What a search returns is the best of what it found: the best candidate is a
/// publishable one of the history, and no publishable one is worth more.
pub proof fn best_is_of_the_history<N: Scalar>(search: Search<N>)
    requires
        search.in_step(),
    ensures
        search.best matches Some(best) ==> exists|h: int|
            0 <= h < search.history@.len() && (#[trigger] search.history@[h]).publishable()
                && search.history@[h].replayed_objective == best.objective,
        forall|h: int|
            0 <= h < search.history@.len() && (#[trigger] search.history@[h]).publishable() ==> (
            search.best matches Some(best) && !best.objective.below(search.history@[h].replayed_objective)),
{
}

fn same_marks(left: &Vec<Mark>, right: &Vec<Mark>) -> (r: bool)
    ensures
        r == (left@ == right@),
{
    if left.len() != right.len() {
        return false;
    }
    for i in 0..left.len()
        invariant
            left@.len() == right@.len(),
            forall|q: int| 0 <= q < i ==> left@[q] == right@[q],
    {
        if left[i] != right[i] {
            return false;
        }
    }
    assert(left@ =~= right@);
    true
}

} // verus!
