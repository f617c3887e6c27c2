//! How many segments intervals are given, told of the pieces of work alone.
use vstd::prelude::*;

use crate::listing::folded;
use crate::optimisation::input::{OptimisationInput, Task};
use crate::optimisation::parcel::budget::{
    begun, boundary_step, budget_of, budgets, effort_of, pieces, worked, Effort,
};
use crate::optimisation::points::summed;
use crate::scalar::Scalar;

verus! {

/// The changes from one piece of work to another that a loader makes in an
/// interval.
pub open spec fn changes<N: Scalar>(input: OptimisationInput<N>, i: int) -> spec_fn(int) -> int {
    |l: int|
        if pieces(effort_of(input, i, l)) > 0 {
            pieces(effort_of(input, i, l)) - 1
        } else {
            0
        }
}

proof fn changes_add_up<N: Scalar>(input: OptimisationInput<N>, i: int, n: nat)
    ensures
        ({
            let found = folded(n, (false, 0usize), boundary_step(input, i));
            let all = summed(n, changes(input, i));
            &&& 0 <= all
            &&& found.1 == (if all <= usize::MAX {
                all
            } else {
                usize::MAX as int
            })
            &&& found.0 <==> exists|l: int| 0 <= l < n && pieces(#[trigger] effort_of(input, i, l)) > 0
        }),
    decreases n,
{
    if n > 0 {
        let m = (n - 1) as nat;
        changes_add_up(input, i, m);
        if folded(m, (false, 0usize), boundary_step(input, i)).0 {
            let l = choose|l: int| 0 <= l < m && pieces(#[trigger] effort_of(input, i, l)) > 0;
            assert(0 <= l < n && pieces(effort_of(input, i, l)) > 0);
        }
        if exists|l: int| 0 <= l < n && pieces(#[trigger] effort_of(input, i, l)) > 0 {
            let l = choose|l: int| 0 <= l < n && pieces(#[trigger] effort_of(input, i, l)) > 0;
            if l < m {
                assert(0 <= l < m && pieces(effort_of(input, i, l)) > 0);
            }
        }
    }
}

/// An interval is given one segment more than the changes that its loaders make
/// in it, up to twenty-four, unless a number is asked for: then that, from one to
/// sixty-four.
pub proof fn segments_follow_changes<N: Scalar>(input: OptimisationInput<N>, i: int)
    requires
        0 <= i < input.intervals@.len(),
    ensures
        budgets(input).len() == input.intervals@.len(),
        budgets(input)[i] == (match input.horizon.event_segments {
            Some(count) => if count < 1 {
                1
            } else if count > 64 {
                64
            } else {
                count as int
            },
            None => if summed(input.loaders@.len(), changes(input, i)) >= 24 {
                24
            } else {
                1 + summed(input.loaders@.len(), changes(input, i))
            },
        }),
{
    let n = input.loaders@.len();
    changes_add_up(input, i, n);
    let found = folded(n, (false, 0usize), boundary_step(input, i));
    if !found.0 {
        assert forall|l: int| 0 <= l < n implies pieces(#[trigger] effort_of(input, i, l)) == 0 by {}
        no_changes(input, i, n);
    }
    let all = summed(n, changes(input, i));
    assert(budget_of(input, i) == (if all >= 24 {
        24
    } else {
        1 + all
    }));
}

proof fn no_changes<N: Scalar>(input: OptimisationInput<N>, i: int, n: nat)
    requires
        forall|l: int| 0 <= l < n ==> pieces(#[trigger] effort_of(input, i, l)) == 0,
    ensures
        summed(n, changes(input, i)) == 0,
    decreases n,
{
    if n > 0 {
        no_changes(input, i, (n - 1) as nat);
        assert(pieces(effort_of(input, i, n - 1)) == 0);
    }
}

/// A piece of work is begun, and takes its time, exactly where nothing has
/// stopped before it and there is time left.
pub proof fn pieces_are_begun<N: Scalar>(effort: Effort<N>, limit: N, time: N)
    requires
        effort.touched < usize::MAX,
    ensures
        ({
            let now = begun(effort, limit, time);
            let goes = !effort.stopped && !limit.at_most(effort.time_used);
            &&& now.touched == effort.touched + (if goes {
                1int
            } else {
                0
            })
            &&& now.time_used == (if goes {
                effort.time_used.plus(time)
            } else {
                effort.time_used
            })
            &&& now.stopped == !goes
            &&& now.reclaims == effort.reclaims
        }),
{
}

/// A task outside its window, or one that its loader has no rate for, is no work
/// at all.
pub proof fn idle_tasks_take_nothing<N: Scalar>(
    input: OptimisationInput<N>,
    i: int,
    l: int,
    effort: Effort<N>,
    task: Task<N>,
)
    requires
        0 <= l < input.loaders@.len(),
        0 <= i < input.loaders@[l].rates@.len(),
        ({
            let interval = input.intervals@[i];
            let rate = input.loaders@[l].rates@[i];
            ||| !task.window_start_h.at_most(interval.start_h.plus(N::of_decimal(1, 9)))
            ||| !interval.end_h.minus(N::of_decimal(1, 9)).at_most(task.window_end_h)
            ||| task.kind is Dig && rate.dig_tph.at_most(N::of_whole(0))
            ||| task.kind is Reclaim && rate.reclaim_tph.at_most(N::of_whole(0))
        }),
    ensures
        worked(input, i, input.loaders@[l], effort, task) == effort,
{
}

} // verus!
