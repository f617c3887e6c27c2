//! The order that tasks are worked in.
use vstd::prelude::*;

use crate::listing::{arrange, arranged, arrangement_holds, said, said_of_two, strict_order};
use crate::optimisation::ids::LoaderId;
use crate::optimisation::input::Task;
use crate::scalar::Scalar;

verus! {

/// Whether a task comes before another: by priority, then by the start of its
/// window, then by id.
pub open spec fn authored_before<N: Scalar>(a: Task<N>, b: Task<N>) -> bool {
    a.priority < b.priority || (a.priority == b.priority && (a.window_start_h.below(b.window_start_h) || (
    a.window_start_h.same(b.window_start_h) && a.id.0 < b.id.0)))
}

/// Where windows decide between tasks of a loader, by their priorities, they
/// start at times that compare.
pub open spec fn windows_compare<N: Scalar>(tasks: Seq<Task<N>>) -> bool {
    forall|i: int, j: int|
        0 <= i < tasks.len() && 0 <= j < tasks.len() && i != j && (#[trigger] tasks[i]).loader == (
        #[trigger] tasks[j]).loader && tasks[i].priority == tasks[j].priority ==> tasks[i].window_start_h.number()
}

/// Whether windows compare where they decide between tasks.
pub fn do_windows_compare<N: Scalar>(tasks: &Vec<Task<N>>) -> (r: bool)
    ensures
        r == windows_compare(tasks@),
{
    for i in 0..tasks.len()
        invariant
            forall|x: int, y: int|
                0 <= x < i && 0 <= y < tasks@.len() && x != y && (#[trigger] tasks@[x]).loader == (
                #[trigger] tasks@[y]).loader && tasks@[x].priority == tasks@[y].priority
                    ==> tasks@[x].window_start_h.number(),
    {
        let start = tasks[i].window_start_h;
        proof {
            N::comparison_laws(start, start, start);
        }
        if !start.is_at_most(start) {
            for j in 0..tasks.len()
                invariant
                    i < tasks@.len(),
                    start == tasks@[i as int].window_start_h,
                    !start.number(),
                    forall|y: int|
                        0 <= y < j && y != i && tasks@[i as int].loader == (#[trigger] tasks@[y]).loader
                            ==> tasks@[i as int].priority != tasks@[y].priority,
            {
                if i != j && tasks[i].loader == tasks[j].loader && tasks[i].priority == tasks[j].priority {
                    return false;
                }
            }
        }
    }
    true
}

pub open spec fn of_loader<N: Scalar>(tasks: Seq<Task<N>>, loader: LoaderId) -> spec_fn(int) -> bool {
    |i: int| tasks[i].loader == loader
}

pub open spec fn worked_before<N: Scalar>(tasks: Seq<Task<N>>) -> spec_fn(int, int) -> bool {
    |a: int, b: int| authored_before(tasks[a], tasks[b])
}

/// The tasks of a loader in the order they are worked in.
pub open spec fn authored<N: Scalar>(tasks: Seq<Task<N>>, loader: LoaderId) -> Seq<usize> {
    arranged(tasks.len(), of_loader(tasks, loader), worked_before(tasks))
}

proof fn tasks_ordered<N: Scalar>(tasks: Seq<Task<N>>, loader: LoaderId)
    requires
        windows_compare(tasks),
    ensures
        strict_order(tasks.len(), of_loader(tasks, loader), worked_before(tasks)),
{
    let before = worked_before(tasks);
    let chosen = of_loader(tasks, loader);
    assert forall|a: int, b: int|
        0 <= a < tasks.len() && 0 <= b < tasks.len() && chosen(a) && chosen(b) && #[trigger] before(
        a,
        b,
    ) implies !before(b, a) by {
        N::comparison_laws(tasks[a].window_start_h, tasks[b].window_start_h, tasks[a].window_start_h);
        N::comparison_laws(tasks[b].window_start_h, tasks[a].window_start_h, tasks[b].window_start_h);
    }
    assert forall|a: int, b: int, c: int|
        0 <= a < tasks.len() && 0 <= b < tasks.len() && 0 <= c < tasks.len() && chosen(a) && chosen(b) && chosen(c)
            && #[trigger] before(a, b) && !#[trigger] before(c, b) implies before(a, c) by {
        let (x, y, z) = (tasks[a].window_start_h, tasks[b].window_start_h, tasks[c].window_start_h);
        N::comparison_laws(x, y, z);
        N::comparison_laws(y, x, z);
        N::comparison_laws(z, y, x);
        N::comparison_laws(y, z, x);
        N::comparison_laws(x, z, y);
        N::comparison_laws(z, x, y);
    }
}

/// The authored order holds exactly the loader's tasks, each once, and none of
/// them behind one that it comes before.
pub proof fn authored_order_holds<N: Scalar>(tasks: Seq<Task<N>>, loader: LoaderId)
    requires
        tasks.len() <= usize::MAX,
        windows_compare(tasks),
    ensures
        authored(tasks, loader).no_duplicates(),
        forall|k: usize| #[trigger]
            authored(tasks, loader).contains(k) <==> k < tasks.len() && tasks[k as int].loader == loader,
        forall|a: int, b: int|
            0 <= a < b < authored(tasks, loader).len() ==> !authored_before(
                tasks[#[trigger] authored(tasks, loader)[b] as int],
                tasks[#[trigger] authored(tasks, loader)[a] as int],
            ),
{
    tasks_ordered(tasks, loader);
    arrangement_holds(tasks.len(), of_loader(tasks, loader), worked_before(tasks));
    let order = authored(tasks, loader);
    assert forall|a: int, b: int| 0 <= a < b < order.len() implies !authored_before(
        tasks[#[trigger] order[b] as int],
        tasks[#[trigger] order[a] as int],
    ) by {
        assert(!worked_before(tasks)(order[b] as int, order[a] as int));
    }
    assert forall|k: usize| #[trigger] order.contains(k) <==> k < tasks.len() && tasks[k as int].loader == loader by {
        assert(order.contains(k) <==> k < tasks.len() && of_loader(tasks, loader)(k as int));
    }
}

fn comes_first<N: Scalar>(a: &Task<N>, b: &Task<N>) -> (r: bool)
    ensures
        r == authored_before(*a, *b),
{
    a.priority < b.priority || (a.priority == b.priority && (a.window_start_h.is_below(b.window_start_h) || (
    a.window_start_h.is_same(b.window_start_h) && a.id.0 < b.id.0)))
}

/// Puts a loader's tasks in the order they are worked in.
pub fn authored_order<N: Scalar>(tasks: &Vec<Task<N>>, loader: LoaderId) -> (r: Vec<usize>)
    requires
        windows_compare(tasks@),
    ensures
        r@ == authored(tasks@, loader),
        forall|q: int| 0 <= q < r@.len() ==> (#[trigger] r@[q]) < tasks@.len(),
{
    arrange(
        tasks.len(),
        |i: usize| -> (b: bool)
            requires
                tasks@.len() > i,
            ensures
                b == said(of_loader(tasks@, loader), i)
            { tasks[i].loader == loader },
        |i: usize, j: usize| -> (b: bool)
            requires
                tasks@.len() > i,
                tasks@.len() > j,
            ensures
                b == said_of_two(worked_before(tasks@), i, j)
            { comes_first(&tasks[i], &tasks[j]) },
        Ghost(of_loader(tasks@, loader)),
        Ghost(worked_before(tasks@)),
    )
}

} // verus!
