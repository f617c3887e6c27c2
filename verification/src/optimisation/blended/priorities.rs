//! What a replay asks of the order of tasks, blocks and chunks, told of the rows
//! and the books alone.
use vstd::prelude::*;

use crate::ledger::{amount, Pair};
use crate::listing::{first_where, first_where_finds, folded, keyed, last_keyed, sum_to};
use crate::optimisation::audit::limits::same_sum;
use crate::optimisation::authored::{authored, authored_before, authored_order_holds, windows_compare};
use crate::optimisation::blended::bars::BarState;
use crate::optimisation::blended::chunks::chunk_dust;
use crate::optimisation::blended::input::{authorises, rate_of};
use crate::optimisation::blended::report::{ChunkRow, ReplayIssue, ReplayState};
use crate::optimisation::blended::totals::Replay;
use crate::optimisation::ids::{GroundId, SourceId, StockpileId};
use crate::optimisation::input::{MovementCandidate, TaskKind};
use crate::scalar::Scalar;

verus! {

impl<'a, N: Scalar> Replay<'a, N> {
    // Tasks.

    /// A task lets its loader take a route: to dig a block of its sequence, or to
    /// reclaim from a pile that it approves of.
    pub open spec fn permits(self, t: int, route: MovementCandidate<N>) -> bool {
        let task = self.input.tasks@[t];
        &&& task.loader == route.loader
        &&& match task.kind {
            TaskKind::Dig { sequence } => route.activity is Dig && exists|k: int|
                0 <= k < sequence@.len() && route.source == SourceId::Ground(#[trigger] sequence@[k]),
            TaskKind::Reclaim { approved_sources, .. } => route.activity is Reclaim && exists|k: int|
                0 <= k < approved_sources@.len() && route.source == SourceId::Stockpile(#[trigger] approved_sources@[k]),
        }
    }

    proof fn permits_is(self, t: int, route: MovementCandidate<N>)
        ensures
            self.permits(t, route) == authorises(self.input.tasks@[t], route),
    {
        match (self.input.tasks@[t].kind, route.source) {
            (TaskKind::Dig { sequence }, SourceId::Ground(ground)) => {
                assert(sequence@.contains(ground) <==> exists|k: int|
                    0 <= k < sequence@.len() && route.source == SourceId::Ground(#[trigger] sequence@[k]));
            },
            (TaskKind::Reclaim { approved_sources, .. }, SourceId::Stockpile(pile)) => {
                assert(approved_sources@.contains(pile) <==> exists|k: int|
                    0 <= k < approved_sources@.len() && route.source == SourceId::Stockpile(
                        #[trigger] approved_sources@[k],
                    ));
            },
            _ => {},
        }
    }

    /// Loader `l` could work on task `t`: the task's window holds the interval, the
    /// loader has a rate for the work, and there is work. A dig task has work
    /// while a block of it holds something; a reclaim task while a pile that it
    /// approves of held something at the start of the interval, and it has not
    /// reclaimed all it may.
    pub open spec fn could_work(
        self,
        openings: Seq<(Pair<StockpileId, usize>, N)>,
        state: BarState<N>,
        l: int,
        i: int,
        t: int,
    ) -> bool {
        let task = self.input.tasks@[t];
        let interval = self.input.intervals@[i];
        let speck = N::of_decimal(1, 5);
        &&& task.window_start_h.at_most(interval.start_h.plus(N::of_decimal(1, 9)))
        &&& interval.end_h.minus(N::of_decimal(1, 9)).at_most(task.window_end_h)
        &&& keyed(self.input.loaders@, self.input.loaders@[l].id.0) matches Some(first) && rate_of(
            self.input.loaders@[first],
            interval.index,
        ) matches Some(rate) && match task.kind {
            TaskKind::Dig { sequence } => N::of_whole(0).below(rate.dig_tph) && exists|k: int|
                0 <= k < sequence@.len() && speck.below(
                    amount(state.remaining, (#[trigger] sequence@[k]).0 as u64),
                ),
            TaskKind::Reclaim { approved_sources, maximum_t } => {
                &&& !rate.reclaim_tph.at_most(N::of_whole(0))
                &&& maximum_t matches Some(maximum) ==> !maximum.minus(speck).at_most(amount(state.spent, t as usize))
                &&& exists|k: int|
                    0 <= k < approved_sources@.len() && speck.below(
                        amount(openings, Pair(#[trigger] approved_sources@[k], interval.index)),
                    )
            },
        }
    }

    proof fn work_is(self, openings: Seq<(Pair<StockpileId, usize>, N)>, state: BarState<N>, l: int, i: int, t: int)
        requires
            0 <= t < self.input.tasks@.len() <= usize::MAX,
        ensures
            self.could_work(openings, state, l, i, t) == self.ready(openings, state, l, i, t as usize),
    {
        if let TaskKind::Dig { sequence } = self.input.tasks@[t].kind {
            assert forall|k: int| 0 <= k < sequence@.len() implies self.block_left(state, #[trigger] sequence@[k])
                == N::of_decimal(1, 5).below(amount(state.remaining, sequence@[k].0 as u64)) by {}
        }
    }

    /// Task `a` comes before task `b`: by priority, then by the start of its
    /// window, then by number.
    pub open spec fn ahead_of(self, a: int, b: int) -> bool {
        let (x, y) = (self.input.tasks@[a], self.input.tasks@[b]);
        ||| x.priority < y.priority
        ||| x.priority == y.priority && x.window_start_h.below(y.window_start_h)
        ||| x.priority == y.priority && x.window_start_h.same(y.window_start_h) && x.id.0 < y.id.0
    }

    /// Task `t` is the first of loader `l` that it could work on.
    pub open spec fn first_workable(
        self,
        openings: Seq<(Pair<StockpileId, usize>, N)>,
        state: BarState<N>,
        l: int,
        i: int,
        t: int,
    ) -> bool {
        &&& 0 <= t < self.input.tasks@.len()
        &&& self.input.tasks@[t].loader == self.input.loaders@[l].id
        &&& self.could_work(openings, state, l, i, t)
        &&& forall|u: int|
            0 <= u < self.input.tasks@.len() && self.input.tasks@[u].loader == self.input.loaders@[l].id
                && self.ahead_of(u, t) ==> !#[trigger] self.could_work(openings, state, l, i, u)
    }

    proof fn highest_is_first(self, openings: Seq<(Pair<StockpileId, usize>, N)>, state: BarState<N>, l: int, i: int)
        requires
            windows_compare(self.input.tasks@),
            self.input.tasks@.len() <= usize::MAX,
            forall|a: int, b: int|
                0 <= a < self.input.tasks@.len() && 0 <= b < self.input.tasks@.len() && a != b ==> (
                #[trigger] self.input.tasks@[a]).id != (#[trigger] self.input.tasks@[b]).id,
        ensures
            match self.highest(openings, state, l, i) {
                Some(b) => 0 <= b < self.bars(l).len() && self.first_workable(
                    openings,
                    state,
                    l,
                    i,
                    self.bars(l)[b] as int,
                ) && forall|t: int| #[trigger]
                    self.first_workable(openings, state, l, i, t) ==> t == self.bars(l)[b],
                None => forall|t: int| !#[trigger] self.first_workable(openings, state, l, i, t),
            },
    {
        let tasks = self.input.tasks@;
        let loader = self.input.loaders@[l].id;
        let order = authored(tasks, loader);
        authored_order_holds(tasks, loader);
        let f = self.ready_at(openings, state, l, i);
        first_where_finds(0, order.len() as int, f);
        assert forall|u: int|
            0 <= u < tasks.len() && tasks[u].loader == loader && #[trigger] self.could_work(
                openings,
                state,
                l,
                i,
                u,
            ) implies exists|p: int| 0 <= p < order.len() && order[p] == u && #[trigger] f(p) by {
            self.work_is(openings, state, l, i, u);
            assert(order.contains(u as usize));
            let p = choose|p: int| 0 <= p < order.len() && order[p] == u as usize;
            assert(f(p));
        }
        match self.highest(openings, state, l, i) {
            Some(q) => {
                let t = order[q] as int;
                assert(order.contains(order[q]));
                assert(f(q));
                self.work_is(openings, state, l, i, t);
                assert forall|u: int|
                    0 <= u < tasks.len() && tasks[u].loader == loader && self.ahead_of(u, t) implies !#[trigger] self.could_work(
                    openings,
                    state,
                    l,
                    i,
                    u,
                ) by {
                    if self.could_work(openings, state, l, i, u) {
                        let p = choose|p: int| 0 <= p < order.len() && order[p] == u && #[trigger] f(p);
                        assert(p >= q);
                        assert(authored_before(tasks[u], tasks[t]));
                        if q < p {
                            assert(!authored_before(tasks[order[p] as int], tasks[order[q] as int]));
                        } else {
                            N::comparison_laws(tasks[t].window_start_h, tasks[t].window_start_h, tasks[t].window_start_h);
                        }
                    }
                }
                assert forall|u: int| #[trigger] self.first_workable(openings, state, l, i, u) implies u == t by {
                    let p = choose|p: int| 0 <= p < order.len() && order[p] == u && #[trigger] f(p);
                    assert(p >= q);
                    if u != t {
                        assert(q < p);
                        assert(!authored_before(tasks[order[p] as int], tasks[order[q] as int]));
                        let (a, b) = (tasks[t].window_start_h, tasks[u].window_start_h);
                        N::comparison_laws(a, b, a);
                        N::comparison_laws(b, a, b);
                        assert(tasks[t].id != tasks[u].id);
                        assert(tasks[t].loader == tasks[u].loader);
                        assert(self.ahead_of(t, u));
                        assert(self.could_work(openings, state, l, i, t));
                    }
                }
            },
            None => {
                assert forall|u: int| !#[trigger] self.first_workable(openings, state, l, i, u) by {
                    if self.first_workable(openings, state, l, i, u) {
                        let p = choose|p: int| 0 <= p < order.len() && order[p] == u && #[trigger] f(p);
                        assert(!f(p));
                    }
                }
            },
        }
    }

    /// A replay accepts what a row of a loader moves in a segment, where some task
    /// of the loader lets it take the route, exactly where the first task that the
    /// loader could work on lets it.
    pub proof fn priorities_are_replayed(
        self,
        openings: Seq<(Pair<StockpileId, usize>, N)>,
        state: BarState<N>,
        now: BarState<N>,
        l: int,
        i: int,
        s: int,
        m: int,
        t: int,
    )
        requires
            windows_compare(self.input.tasks@),
            self.input.tasks@.len() <= usize::MAX,
            forall|a: int, b: int|
                0 <= a < self.input.tasks@.len() && 0 <= b < self.input.tasks@.len() && a != b ==> (
                #[trigger] self.input.tasks@[a]).id != (#[trigger] self.input.tasks@[b]).id,
            0 <= l < self.input.loaders@.len(),
            self.has_route(m),
            self.solution.movements@[m].interval == self.input.intervals@[i].index,
            self.solution.movements@[m].segment == s,
            !self.solution.movements@[m].tonnes_t.at_most(N::of_decimal(1, 5)),
            self.route(m).loader == self.input.loaders@[l].id,
            0 <= t < self.input.tasks@.len(),
            self.permits(t, self.route(m)),
        ensures
            self.bar_issue(self.highest(openings, state, l, i), l, i, s)(now, m).issues.len() == now.issues.len()
                <==> exists|u: int| #[trigger]
                self.first_workable(openings, state, l, i, u) && self.permits(u, self.route(m)),
    {
        let tasks = self.input.tasks@;
        let loader = self.input.loaders@[l].id;
        let bars = self.bars(l);
        authored_order_holds(tasks, loader);
        self.highest_is_first(openings, state, l, i);
        self.permits_is(t, self.route(m));
        let works = self.bar_works(l, m);
        first_where_finds(0, bars.len() as int, works);
        assert(bars.contains(t as usize));
        let p = choose|p: int| 0 <= p < bars.len() && bars[p] == t as usize;
        assert(works(p));
        assert(self.bar_row(l, i, s, m));
        if let Some(b) = self.highest(openings, state, l, i) {
            self.permits_is(bars[b] as int, self.route(m));
            assert(works(b) == self.permits(bars[b] as int, self.route(m)));
            assert(self.first_workable(openings, state, l, i, bars[b] as int));
        }
    }

    // Blocks.

    /// What each row digs of a block before the cell of row `m`.
    pub open spec fn digs_before(self, ground: GroundId, m: int) -> spec_fn(int) -> Option<N> {
        |b: int|
            {
                let (row, now) = (self.solution.movements@[b], self.solution.movements@[m]);
                if self.has_route(b) && self.route(b).activity is Dig && self.route(b).source == SourceId::Ground(ground)
                    && (row.interval < now.interval || row.interval == now.interval && row.segment < now.segment) {
                    Some(row.tonnes_t)
                } else {
                    None
                }
            }
    }

    /// A block of the input still holds something when row `m` digs.
    pub open spec fn still_holds(self, ground: GroundId, m: int) -> bool {
        last_keyed(self.input.ground@, ground.0) matches Some(g) && N::of_decimal(1, 5).below(
            self.input.ground@[g].tonnes_t.minus(
                sum_to(self.solution.movements@.len(), self.digs_before(ground, m)),
            ),
        )
    }

    /// A replay accepts the block that a row of a dig task's loader digs exactly
    /// where no other block that the task's sequence has before it still holds
    /// something.
    pub proof fn block_order_is_replayed(self, issues: Seq<ReplayIssue<N>>, m: int, t: int, sequence: Vec<GroundId>, ground: GroundId)
        requires
            0 <= t < self.input.tasks@.len(),
            self.has_route(m),
            self.route(m).activity is Dig,
            self.route(m).source == SourceId::Ground(ground),
            self.route(m).loader == self.input.tasks@[t].loader,
            self.input.tasks@[t].kind == (TaskKind::<N>::Dig { sequence }),
            !self.solution.movements@[m].tonnes_t.at_most(N::of_decimal(1, 5)),
        ensures
            self.order_task(m)(issues, t).len() == issues.len() <==> forall|y: int, x: int|
                #![trigger sequence@[y], sequence@[x]]
                0 <= y < x < sequence@.len() && sequence@[x] == ground && sequence@[y] != ground
                    ==> !self.still_holds(sequence@[y], m),
    {
        let n = sequence@.len() as int;
        let passed = self.passed_over(sequence@, ground, m);
        first_where_finds(0, n, passed);
        assert forall|y: int| 0 <= y < n implies #[trigger] self.holds_before(sequence@[y], m) == self.still_holds(
            sequence@[y],
            m,
        ) by {
            same_sum(
                self.solution.movements@.len(),
                self.dug_before(sequence@[y], m),
                self.digs_before(sequence@[y], m),
            );
        }
        if self.order_task(m)(issues, t).len() == issues.len() {
            assert forall|y: int, x: int|
                #![trigger sequence@[y], sequence@[x]]
                0 <= y < x < n && sequence@[x] == ground && sequence@[y] != ground implies !self.still_holds(
                sequence@[y],
                m,
            ) by {
                assert(!passed(y));
                assert(self.comes_after(sequence@, ground, y));
                assert(!self.holds_before(sequence@[y], m));
            }
        } else {
            let y = first_where(0, n, passed)->0;
            assert(passed(y));
            let x = choose|x: int| y < x < n && #[trigger] sequence@[x] == ground;
            assert(self.holds_before(sequence@[y], m));
        }
    }

    // Chunks.

    /// A replay accepts the state of a chunk exactly where it holds no more than
    /// its capacity, receives no more than dust while it is closed and gives up no
    /// more than dust while it is open.
    pub proof fn chunk_states_are_replayed(self, st: ReplayState<N>, p: int, chunk: int, i: int, row: ChunkRow<N>)
        ensures
            self.state_checked(st, p, chunk, i, row).issues.len() == st.issues.len() <==> {
                let speck = N::of_decimal(1, 5);
                let dust = chunk_dust(self.input.piles@[p].chunks@);
                &&& self.fits(row.open_t, self.input.piles@[p].chunks@[chunk])
                &&& row.closed ==> !speck.below(row.received_t) || row.received_t.at_most(dust)
                &&& !row.closed ==> !speck.below(row.reclaimed_t) || row.reclaimed_t.at_most(dust)
            },
    {
    }

    /// Row `k` of the chunks is the first of a chunk of a pile in an interval.
    pub open spec fn is_row_of(self, p: int, chunk: int, i: int, k: int) -> bool {
        let rows = self.solution.chunks@;
        &&& 0 <= k < rows.len()
        &&& rows[k].pile == self.input.piles@[p].id && rows[k].chunk == chunk && rows[k].interval == i
        &&& forall|j: int|
            0 <= j < k ==> !((#[trigger] rows[j]).pile == self.input.piles@[p].id && rows[j].chunk == chunk
                && rows[j].interval == i)
    }

    proof fn row_found(self, p: int, chunk: int, i: int)
        ensures
            forall|k: int| #[trigger] self.is_row_of(p, chunk, i, k) <==> self.chunk_row(p, chunk, i) == Some(k),
    {
        let rows = self.solution.chunks@;
        let here = self.row_is(p, chunk, i);
        first_where_finds(0, rows.len() as int, here);
        if let Some(k) = self.chunk_row(p, chunk, i) {
            assert forall|j: int| 0 <= j < k implies !((#[trigger] rows[j]).pile == self.input.piles@[p].id
                && rows[j].chunk == chunk && rows[j].interval == i) by {
                assert(!here(j));
            }
            assert(self.is_row_of(p, chunk, i, k));
        }
        assert forall|k: int| #[trigger] self.is_row_of(p, chunk, i, k) implies self.chunk_row(p, chunk, i) == Some(k) by {
            assert(here(k));
            let x = self.chunk_row(p, chunk, i)->0;
            assert(here(x));
            if x < k {
                assert(rows[x].chunk == chunk);
            }
        }
    }

    /// A chunk is open in an interval.
    pub open spec fn is_open(self, p: int, chunk: int, i: int) -> bool {
        exists|k: int| #[trigger] self.is_row_of(p, chunk, i, k) && !self.solution.chunks@[k].closed
    }

    /// A chunk holds more than dust at the start of an interval.
    pub open spec fn holds_more(self, p: int, chunk: int, i: int) -> bool {
        exists|k: int| #[trigger]
            self.is_row_of(p, chunk, i, k) && chunk_dust(self.input.piles@[p].chunks@).below(
                self.solution.chunks@[k].open_t,
            )
    }

    /// A chunk that is closed holds more than dust at the start of an interval.
    pub open spec fn holds_closed(self, p: int, chunk: int, i: int) -> bool {
        exists|k: int| #[trigger]
            self.is_row_of(p, chunk, i, k) && self.solution.chunks@[k].closed && chunk_dust(
                self.input.piles@[p].chunks@,
            ).below(self.solution.chunks@[k].open_t)
    }

    /// A replay accepts the turn of a chunk exactly where, if it receives more than
    /// dust, no chunk before it is open, and, if it gives up more than dust, no
    /// chunk before it holds more, or, last in first out, no closed chunk after it
    /// does.
    pub proof fn chunk_turns_are_replayed(self, st: ReplayState<N>, p: int, chunk: int, i: int, row: ChunkRow<N>)
        requires
            0 <= chunk < self.input.piles@[p].chunks@.len(),
        ensures
            self.turn_checked(st, p, chunk, i, row).issues.len() == st.issues.len() <==> {
                let pile = self.input.piles@[p];
                let dust = chunk_dust(pile.chunks@);
                &&& dust.below(row.received_t) ==> forall|e: int| 0 <= e < chunk ==> !#[trigger] self.is_open(p, e, i)
                &&& dust.below(row.reclaimed_t) && pile.order is Fifo ==> forall|e: int|
                    0 <= e < chunk ==> !#[trigger] self.holds_more(p, e, i)
                &&& dust.below(row.reclaimed_t) && pile.order is Lifo ==> forall|e: int|
                    chunk < e < pile.chunks@.len() ==> !#[trigger] self.holds_closed(p, e, i)
            },
    {
        let pile = self.input.piles@[p];
        let n = pile.chunks@.len();
        let open = |e: int| self.is_open(p, e, i);
        let more = |e: int| self.holds_more(p, e, i);
        let closed = |e: int| self.holds_closed(p, chunk + 1 + e, i);
        assert forall|e: int| #![trigger self.is_open(p, e, i)] self.row_open(p, e, i) == self.is_open(p, e, i) by {
            self.row_found(p, e, i);
            if let Some(k) = self.chunk_row(p, e, i) {
                assert(self.is_row_of(p, e, i, k));
            }
        }
        assert forall|e: int| #![trigger self.holds_more(p, e, i)] self.row_holds(p, e, i, false) == self.holds_more(
            p,
            e,
            i,
        ) by {
            self.row_found(p, e, i);
            if let Some(k) = self.chunk_row(p, e, i) {
                assert(self.is_row_of(p, e, i, k));
            }
        }
        assert forall|e: int| #![trigger self.holds_closed(p, e, i)] self.row_holds(p, e, i, true) == self.holds_closed(
            p,
            e,
            i,
        ) by {
            self.row_found(p, e, i);
            if let Some(k) = self.chunk_row(p, e, i) {
                assert(self.is_row_of(p, e, i, k));
            }
        }
        let filled = if chunk_dust(pile.chunks@).below(row.received_t) {
            folded(chunk as nat, st, self.earlier_open(p, chunk, i))
        } else {
            st
        };
        none_found(chunk as nat, st, self.earlier_open(p, chunk, i), open);
        none_found(chunk as nat, filled, self.earlier_holds(p, chunk, i), more);
        none_found((n - chunk - 1) as nat, filled, self.later_holds(p, chunk, i), closed);
        if forall|e: int| 0 <= e < n - chunk - 1 ==> !#[trigger] closed(e) {
            assert forall|e: int| chunk < e < n implies !#[trigger] self.holds_closed(p, e, i) by {
                assert(!closed(e - chunk - 1));
            }
        }
        if forall|e: int| 0 <= e < chunk ==> !#[trigger] open(e) {
            assert forall|e: int| 0 <= e < chunk implies !#[trigger] self.is_open(p, e, i) by {
                assert(!open(e));
            }
        }
        if forall|e: int| 0 <= e < chunk ==> !#[trigger] more(e) {
            assert forall|e: int| 0 <= e < chunk implies !#[trigger] self.holds_more(p, e, i) by {
                assert(!more(e));
            }
        }
    }
}

/// Steps that each add one issue where something is wrong add none exactly where
/// nothing is.
proof fn none_found<N>(
    n: nat,
    st: ReplayState<N>,
    step: spec_fn(ReplayState<N>, int) -> ReplayState<N>,
    wrong: spec_fn(int) -> bool,
)
    requires
        forall|now: ReplayState<N>, k: int|
            0 <= k < n ==> (#[trigger] step(now, k)).issues.len() == now.issues.len() + (if wrong(k) {
                1int
            } else {
                0
            }),
    ensures
        folded(n, st, step).issues.len() >= st.issues.len(),
        folded(n, st, step).issues.len() == st.issues.len() <==> forall|k: int| 0 <= k < n ==> !#[trigger] wrong(k),
    decreases n,
{
    if n > 0 {
        let m = (n - 1) as nat;
        none_found(m, st, step, wrong);
        let before = folded(m, st, step);
        assert(step(before, m as int).issues.len() >= before.issues.len());
    }
}

} // verus!
