//! Decisions around the solves of a parcel model. A caller solves; these
//! functions say with what limits, and what to make of what came back.
use vstd::prelude::*;

use crate::listing::folded;
use crate::optimisation::input::{InputError, OptimisationInput};
use crate::optimisation::parcel::budget::SEGMENT_OVERRIDE_CEILING;
use crate::optimisation::result::{OptimisationResult, SolveStatus};
use crate::scalar::Scalar;

verus! {

/// How far a solve may go. Times are nanoseconds.
#[derive(Clone, Copy, Debug)]
pub struct SolveLimits<N> {
    pub time: Option<u64>,
    pub relative_gap: Option<N>,
    pub threads: Option<u32>,
    pub nodes: Option<u64>,
    pub solutions: Option<u64>,
}

/// Why nothing is solved.
#[derive(Clone, Copy, Debug, PartialEq, Eq, Structural)]
pub enum Refusal {
    Input(InputError),
    Limits,
}

/// How a solver says that it stopped.
#[derive(Clone, Copy, Debug, PartialEq, Eq, Structural)]
pub enum BackendStatus {
    Optimal,
    TimeLimit,
    IterationLimit,
    SolutionLimit,
    MemoryLimit,
    ObjectiveBound,
    ObjectiveTarget,
    Interrupt,
    Infeasible,
    Unbounded,
    UnboundedOrInfeasible,
    Other,
}

/// A stage shorter than this is not begun.
pub const STAGE_MINIMUM: u64 = 250_000_000;

/// The longest that the first stage takes.
pub const SEED_BUDGET: u64 = 15_000_000_000;

/// The longest that the last stage takes.
pub const PREFERENCE_BUDGET: u64 = 10_000_000_000;

/// The shortest limit that is handed to the main stage.
pub const MAIN_MINIMUM: u64 = 100_000_000;

/// A retry with more segments needs more time than this.
pub const RETRY_MINIMUM: u64 = 500_000_000;

impl<N: Scalar> SolveLimits<N> {
    /// The limits used where nothing else is asked for.
    pub fn standard() -> (r: Self)
        ensures
            r == (SolveLimits {
                time: None,
                relative_gap: Some(N::of_decimal(1, 6)),
                threads: None,
                nodes: None,
                solutions: None,
            }),
    {
        SolveLimits { time: None, relative_gap: Some(N::decimal(1, 6)), threads: None, nodes: None, solutions: None }
    }

    /// A gap that is not finite or below zero, or no threads at all.
    pub open spec fn absurd(self) -> bool {
        (self.relative_gap matches Some(gap) && (!gap.finite() || gap.below(N::of_whole(0)))) || self.threads == Some(0u32)
    }

    fn is_absurd(&self) -> (r: bool)
        ensures
            r == self.absurd(),
    {
        let gap: bool = match self.relative_gap {
            Some(gap) => !gap.is_finite() || gap.is_below(N::whole(0)),
            None => false,
        };
        let threads: bool = match self.threads {
            Some(count) => count == 0,
            None => false,
        };
        gap || threads
    }
}

/// Why an input is not solved with given limits.
pub open spec fn refused<N: Scalar>(input: OptimisationInput<N>, limits: SolveLimits<N>) -> Option<Refusal> {
    match input.error() {
        Some(error) => Some(Refusal::Input(error)),
        None => if limits.absurd() {
            Some(Refusal::Limits)
        } else {
            None
        },
    }
}

/// Whether an input may be solved with given limits.
pub fn check<N: Scalar>(input: &OptimisationInput<N>, limits: &SolveLimits<N>) -> (r: Result<(), Refusal>)
    ensures
        r == (match refused(*input, *limits) {
            Some(refusal) => Err(refusal),
            None => Ok(()),
        }),
{
    match input.validate() {
        Err(error) => Err(Refusal::Input(error)),
        Ok(()) => if limits.is_absurd() {
            Err(Refusal::Limits)
        } else {
            Ok(())
        },
    }
}

/// What a solve begins with.
#[derive(Clone, Copy, Debug, PartialEq, Eq, Structural)]
pub enum Opening {
    /// Nothing: the solve was called off.
    Cancelled,
    /// Nothing: the input or the limits make no sense.
    Refused(Refusal),
    /// The model of the input.
    Model,
}

/// What a solve begins with. Whether it was called off is asked before the
/// input is looked at.
pub fn opening<N: Scalar>(input: &OptimisationInput<N>, limits: &SolveLimits<N>, cancelled: bool) -> (r: Opening)
    ensures
        r == (if cancelled {
            Opening::Cancelled
        } else {
            match refused(*input, *limits) {
                Some(refusal) => Opening::Refused(refusal),
                None => Opening::Model,
            }
        }),
{
    if cancelled {
        return Opening::Cancelled;
    }
    match check(input, limits) {
        Err(refusal) => Opening::Refused(refusal),
        Ok(()) => Opening::Model,
    }
}

/// How a solve ended, from what the solver says and whether it holds a
/// solution.
pub open spec fn ended(status: BackendStatus, feasible: bool, cancelled: bool) -> SolveStatus {
    let limited = if feasible {
        SolveStatus::FeasibleLimit
    } else {
        SolveStatus::LimitNoIncumbent
    };
    match status {
        BackendStatus::Optimal => SolveStatus::Optimal,
        BackendStatus::TimeLimit => limited,
        BackendStatus::IterationLimit => limited,
        BackendStatus::SolutionLimit => limited,
        BackendStatus::MemoryLimit => limited,
        BackendStatus::ObjectiveBound => limited,
        BackendStatus::ObjectiveTarget => limited,
        BackendStatus::Interrupt => if cancelled {
            SolveStatus::Cancelled
        } else {
            limited
        },
        BackendStatus::Infeasible => SolveStatus::Infeasible,
        BackendStatus::Unbounded => SolveStatus::Unbounded,
        BackendStatus::UnboundedOrInfeasible => SolveStatus::BackendFailure,
        BackendStatus::Other => SolveStatus::BackendFailure,
    }
}

/// How a solve ended.
pub fn map_status(status: BackendStatus, feasible: bool, cancelled: bool) -> (r: SolveStatus)
    ensures
        r == ended(status, feasible, cancelled),
{
    let limited = if feasible {
        SolveStatus::FeasibleLimit
    } else {
        SolveStatus::LimitNoIncumbent
    };
    match status {
        BackendStatus::Optimal => SolveStatus::Optimal,
        BackendStatus::TimeLimit | BackendStatus::IterationLimit | BackendStatus::SolutionLimit
        | BackendStatus::MemoryLimit | BackendStatus::ObjectiveBound | BackendStatus::ObjectiveTarget => limited,
        BackendStatus::Interrupt => if cancelled {
            SolveStatus::Cancelled
        } else {
            limited
        },
        BackendStatus::Infeasible => SolveStatus::Infeasible,
        BackendStatus::Unbounded => SolveStatus::Unbounded,
        BackendStatus::UnboundedOrInfeasible | BackendStatus::Other => SolveStatus::BackendFailure,
    }
}

pub open spec fn at_most_of(a: u64, b: u64) -> u64 {
    if a < b {
        a
    } else {
        b
    }
}

/// What is left of a time.
pub open spec fn left_of(limit: u64, elapsed: u64) -> u64 {
    if elapsed < limit {
        (limit - elapsed) as u64
    } else {
        0
    }
}

/// How long a first solve without split intervals may take: a quarter of the
/// time, where there are such rows and that is worth it.
pub fn seed_time(limit: Option<u64>, rows: usize) -> (r: Option<u64>)
    ensures
        ({
            let budget = match limit {
                Some(limit) => at_most_of(limit / 4, SEED_BUDGET),
                None => SEED_BUDGET,
            };
            r == (if rows > 0 && budget >= STAGE_MINIMUM {
                Some(budget)
            } else {
                None
            })
        }),
{
    let budget: u64 = match limit {
        Some(limit) => if limit / 4 < SEED_BUDGET {
            limit / 4
        } else {
            SEED_BUDGET
        },
        None => SEED_BUDGET,
    };
    if rows > 0 && budget >= STAGE_MINIMUM {
        Some(budget)
    } else {
        None
    }
}

/// How long the main solve may take.
pub fn main_time(limit: Option<u64>, elapsed: u64) -> (r: Option<u64>)
    ensures
        r == (match limit {
            Some(limit) => Some(
                if left_of(limit, elapsed) < MAIN_MINIMUM {
                    MAIN_MINIMUM
                } else {
                    left_of(limit, elapsed)
                },
            ),
            None => None,
        }),
{
    match limit {
        Some(limit) => {
            let left: u64 = if elapsed < limit {
                limit - elapsed
            } else {
                0
            };
            if left < MAIN_MINIMUM {
                Some(MAIN_MINIMUM)
            } else {
                Some(left)
            }
        },
        None => None,
    }
}

pub open spec fn any_nonzero<N: Scalar>(costs: Seq<N>) -> bool {
    exists|k: int| 0 <= k < costs.len() && !(#[trigger] costs[k]).same(N::of_whole(0))
}

/// How long a solve by preference may take, where anything is preferred and
/// that is worth it.
pub fn preference_time<N: Scalar>(limit: Option<u64>, elapsed: u64, costs: &Vec<N>) -> (r: Option<u64>)
    ensures
        ({
            let budget = match limit {
                Some(limit) => at_most_of(left_of(limit, elapsed), PREFERENCE_BUDGET),
                None => PREFERENCE_BUDGET,
            };
            r == (if any_nonzero(costs@) && budget >= STAGE_MINIMUM {
                Some(budget)
            } else {
                None
            })
        }),
{
    let mut any: bool = false;
    for k in 0..costs.len()
        invariant
            any <==> exists|q: int| 0 <= q < k && !(#[trigger] costs@[q]).same(N::of_whole(0)),
    {
        if !costs[k].is_same(N::whole(0)) {
            assert(!costs@[k as int].same(N::of_whole(0)));
            any = true;
        }
    }
    let budget: u64 = match limit {
        Some(limit) => {
            let left: u64 = if elapsed < limit {
                limit - elapsed
            } else {
                0
            };
            if left < PREFERENCE_BUDGET {
                left
            } else {
                PREFERENCE_BUDGET
            }
        },
        None => PREFERENCE_BUDGET,
    };
    if any && budget >= STAGE_MINIMUM {
        Some(budget)
    } else {
        None
    }
}

/// What a solution by preference must be worth at least.
pub open spec fn worth_floor<N: Scalar>(objective: N, primary: N) -> N {
    primary.minus(objective.upper(primary.magnitude().times(N::of_decimal(1, 7))))
}

/// What a solution by preference must be worth at least.
pub fn preference_floor<N: Scalar>(objective: N, primary: N) -> (r: N)
    ensures
        r == worth_floor(objective, primary),
{
    primary.sub(objective.larger(primary.abs().mul(N::decimal(1, 7))))
}

/// Whether a solution by preference is worth enough to be taken.
pub fn preference_taken<N: Scalar>(objective: N, floor: N, worth: N) -> (r: bool)
    ensures
        r == floor.minus(objective).at_most(worth),
{
    floor.sub(objective).is_at_most(worth)
}

/// A whole number.
pub open spec fn whole_of<N: Scalar>(value: i64) -> N {
    if value < 0 {
        N::of_whole((-value) as u64).opposite()
    } else {
        N::of_whole(value as u64)
    }
}

/// How far a value is from a whole number.
pub open spec fn off_whole<N: Scalar>(value: N) -> N {
    value.minus(whole_of(value.nearest())).magnitude()
}

pub open spec fn off_grid<N: Scalar>(binaries: Seq<bool>, values: Seq<N>, tolerance: N) -> spec_fn(int) -> Option<N> {
    |k: int|
        if binaries[k] && tolerance.below(off_whole(values[k])) {
            Some(off_whole(values[k]))
        } else {
            None
        }
}

/// The first flag that is off zero and one by more than a tolerance.
pub fn integrality_violation<N: Scalar>(binaries: &Vec<bool>, values: &Vec<N>, tolerance: N) -> (r: Option<N>)
    requires
        binaries@.len() == values@.len(),
    ensures
        r == crate::listing::first_from(0, binaries@.len() as int, off_grid(binaries@, values@, tolerance)),
{
    for k in 0..binaries.len()
        invariant
            binaries@.len() == values@.len(),
            crate::listing::first_from(0, binaries@.len() as int, off_grid(binaries@, values@, tolerance))
                == crate::listing::first_from(
                k as int,
                binaries@.len() as int,
                off_grid(binaries@, values@, tolerance),
            ),
    {
        if binaries[k] {
            let nearest: i64 = values[k].round();
            let whole = if nearest < 0 {
                N::whole((-(nearest as i128)) as u64).neg()
            } else {
                N::whole(nearest as u64)
            };
            let off = values[k].sub(whole).abs();
            if tolerance.is_below(off) {
                return Some(off);
            }
        }
    }
    None
}

pub open spec fn largest_step(counts: Seq<usize>) -> spec_fn(Option<usize>, int) -> Option<usize> {
    |most: Option<usize>, i: int|
        match most {
            Some(count) => if count < counts[i] {
                Some(counts[i])
            } else {
                most
            },
            None => Some(counts[i]),
        }
}

/// The most segments that any interval has, one where there are none.
pub open spec fn granted(counts: Seq<usize>) -> usize {
    match folded(counts.len(), None, largest_step(counts)) {
        Some(count) => count,
        None => 1,
    }
}

/// Twice as many segments, up to the most that can be asked for.
pub open spec fn grown(count: usize) -> usize {
    let most = if SEGMENT_OVERRIDE_CEILING < count {
        count
    } else {
        SEGMENT_OVERRIDE_CEILING
    };
    if count * 2 < most {
        (count * 2) as usize
    } else {
        most
    }
}

/// A result is one that more segments might better.
pub open spec fn worth_retrying<N>(result: OptimisationResult<N>) -> bool {
    result.event_budget_restricted && (result.summary.status is Optimal || result.summary.status is FeasibleLimit)
        && granted(result.resolution.segment_counts@) < grown(granted(result.resolution.segment_counts@))
}

/// Whether to solve again with more segments, after so many of the attempts
/// that may be made: gives how many segments, and the time that is left where
/// it is limited.
pub fn next_attempt<N: Scalar>(
    result: &OptimisationResult<N>,
    made: usize,
    attempts: usize,
    limit: Option<u64>,
    elapsed: u64,
    cancelled: bool,
) -> (r: Option<(usize, Option<u64>)>)
    ensures
        r == (if made >= attempts || cancelled || !worth_retrying(*result) {
            None
        } else {
            let next = grown(granted(result.resolution.segment_counts@));
            match limit {
                Some(limit) => if left_of(limit, elapsed) > RETRY_MINIMUM {
                    Some((next, Some(left_of(limit, elapsed))))
                } else {
                    None
                },
                None => Some((next, None)),
            }
        }),
{
    if made >= attempts || !result.event_budget_restricted || cancelled {
        return None;
    }
    match result.summary.status {
        SolveStatus::Optimal | SolveStatus::FeasibleLimit => {},
        _ => {
            return None;
        },
    }
    let counts = &result.resolution.segment_counts;
    let mut most: Option<usize> = None;
    let ghost step = largest_step(counts@);
    for i in 0..counts.len()
        invariant
            step == largest_step(counts@),
            most == folded(i as nat, None, step),
    {
        most = match most {
            Some(count) => if count < counts[i] {
                Some(counts[i])
            } else {
                most
            },
            None => Some(counts[i]),
        };
    }
    let count: usize = match most {
        Some(count) => count,
        None => 1,
    };
    let ceiling: usize = if SEGMENT_OVERRIDE_CEILING < count {
        count
    } else {
        SEGMENT_OVERRIDE_CEILING
    };
    let next: usize = match count.checked_mul(2) {
        Some(double) => if double < ceiling {
            double
        } else {
            ceiling
        },
        None => ceiling,
    };
    if next <= count {
        return None;
    }
    match limit {
        Some(limit) => {
            let left: u64 = if elapsed < limit {
                limit - elapsed
            } else {
                0
            };
            if left > RETRY_MINIMUM {
                Some((next, Some(left)))
            } else {
                None
            }
        },
        None => Some((next, None)),
    }
}

/// Every retry has more segments than any interval had and no more than can be
/// asked for, so that retries come to an end.
pub proof fn retries_grow<N>(result: OptimisationResult<N>)
    requires
        worth_retrying(result),
    ensures
        granted(result.resolution.segment_counts@) < grown(granted(result.resolution.segment_counts@))
            <= SEGMENT_OVERRIDE_CEILING,
{
}

} // verus!
