//! What an audit says of the order in which loaders take up their tasks, told
//! of the tasks and the books alone.
use vstd::prelude::*;

use crate::ledger::{amount, held_under, paired, Pair};
use crate::listing::{first_from, first_where, first_where_finds, flat, keyed, sum_to};
use crate::optimisation::audit::laws::nothing_in_parts;
use crate::optimisation::audit::totals::Audit;
use crate::optimisation::audit::walk::WalkState;
use crate::optimisation::authored::{authored, authored_before, authored_order_holds, windows_compare};
use crate::optimisation::ids::{DestinationKind, GroundId, LoaderId, MaterialId, SourceId, StockpileId};
use crate::optimisation::input::TaskKind;
use crate::scalar::Scalar;

verus! {

proof fn first_found<E>(i: int, n: int, f: spec_fn(int) -> Option<E>) -> (q: int)
    ensures
        match first_from(i, n, f) {
            Some(e) => i <= q < n && f(q) == Some(e) && forall|j: int| i <= j < q ==> #[trigger] f(j) is None,
            None => forall|j: int| i <= j < n ==> #[trigger] f(j) is None,
        },
    decreases n - i,
{
    if i >= n {
        i
    } else if f(i) is Some {
        i
    } else {
        first_found(i + 1, n, f)
    }
}

impl<'a, N: Scalar> Audit<'a, N> {
    /// What a block held at the start.
    pub open spec fn block_held(self, ground: GroundId) -> N {
        match keyed(self.input.ground@, ground.0) {
            Some(g) => self.input.ground@[g].tonnes_t,
            None => N::of_whole(0),
        }
    }

    /// So little that it does not matter.
    pub open spec fn grain(self) -> N {
        self.input.horizon.tolerances.tonnes_t.upper(self.input.horizon.parcel_target_t.times(N::of_decimal(1, 6)))
    }

    /// All of a block but a grain has been dug.
    pub open spec fn dug_out(self, state: WalkState<N>, ground: GroundId) -> bool {
        self.block_held(ground).minus(self.grain().lower(self.block_held(ground))).at_most(
            amount(state.ground, ground.0 as u64),
        )
    }

    /// What a destination still takes: its limit, where it has any, less what
    /// it has taken. Crushers are limited by the day.
    pub open spec fn still_takes(self, state: WalkState<N>, d: int, day: u32) -> N {
        let destination = self.input.destinations@[d];
        match destination.kind {
            DestinationKind::Crusher => if day < destination.crusher_daily_t@.len() {
                match destination.crusher_daily_t@[day as int] {
                    Some(limit) => limit.minus(amount(state.crusher, paired(destination.id.0, day))),
                    None => N::of_infinity().minus(amount(state.crusher, paired(destination.id.0, day))),
                }
            } else {
                N::of_infinity().minus(amount(state.crusher, paired(destination.id.0, day)))
            },
            DestinationKind::Dump => match destination.capacity_t {
                Some(capacity) => capacity.minus(amount(state.dump, destination.id.0 as u64)),
                None => N::of_infinity().minus(amount(state.dump, destination.id.0 as u64)),
            },
            DestinationKind::Stockpile(pile) => match destination.capacity_t {
                Some(capacity) => capacity.minus(amount(state.piles, pile.0 as u64)),
                None => N::of_infinity().minus(amount(state.piles, pile.0 as u64)),
            },
        }
    }

    /// A destination takes anything on a day.
    pub open spec fn ever_takes(self, d: int, day: u32) -> bool {
        let destination = self.input.destinations@[d];
        match destination.kind {
            DestinationKind::Crusher => day < destination.crusher_daily_t@.len() ==> (
            destination.crusher_daily_t@[day as int] matches Some(limit) ==> N::of_whole(0).below(limit)),
            _ => destination.capacity_t matches Some(capacity) ==> N::of_whole(0).below(capacity),
        }
    }

    /// Candidate `c` takes a material that a loader digs in a block to a
    /// destination that takes more, by trucks that have hours.
    pub open spec fn takes_away(
        self,
        state: WalkState<N>,
        i: int,
        loader: LoaderId,
        ground: GroundId,
        material: MaterialId,
        c: int,
    ) -> bool {
        let index = self.input.intervals@[i].index as int;
        let candidate = self.input.movements@[c];
        &&& 0 <= c < self.input.movements@.len()
        &&& candidate.loader == loader
        &&& candidate.activity is Dig
        &&& candidate.source == SourceId::Ground(ground)
        &&& candidate.material == material
        &&& exists|t: int|
            0 <= t < self.input.trucks@.len() && (#[trigger] self.input.trucks@[t]).id == candidate.truck && N::of_whole(
                0,
            ).below(self.input.trucks@[t].hours@[index])
        &&& match keyed(self.input.destinations@, candidate.destination.0) {
            Some(d) => {
                &&& self.ever_takes(d, self.input.intervals@[index].calendar_day())
                &&& self.input.horizon.tolerances.tonnes_t.below(
                    self.still_takes(state, d, self.input.intervals@[i].calendar_day()),
                )
            },
            None => false,
        }
    }

    /// A material that a loader digs in a block can be taken away.
    pub open spec fn can_go(self, state: WalkState<N>, i: int, loader: LoaderId, ground: GroundId, material: MaterialId) -> bool {
        exists|c: int| #[trigger] self.takes_away(state, i, loader, ground, material, c)
    }

    /// Block `x` of a sequence is the first that is not dug out, and each of its
    /// materials can be taken away.
    pub open spec fn next_block(self, state: WalkState<N>, i: int, loader: LoaderId, sequence: Seq<GroundId>, x: int) -> bool {
        &&& 0 <= x < sequence.len()
        &&& !self.dug_out(state, sequence[x])
        &&& forall|y: int| 0 <= y < x ==> self.dug_out(state, #[trigger] sequence[y])
        &&& match keyed(self.input.ground@, sequence[x].0) {
            Some(g) => forall|k: int|
                0 <= k < self.input.ground@[g].material@.len() ==> self.can_go(
                    state,
                    i,
                    loader,
                    sequence[x],
                    (#[trigger] self.input.ground@[g].material@[k]).material,
                ),
            None => false,
        }
    }

    /// What a unit that is released holds, for its own pile.
    pub open spec fn unit_held(self, state: WalkState<N>, pile: StockpileId) -> spec_fn(int) -> Option<N> {
        |k: int|
            if state.released[k].0 == pile {
                held_under(state.units, Pair(pile, state.released[k].1))
            } else {
                None
            }
    }

    /// A pile that is there holds more, in what it has released, than a trace.
    pub open spec fn gives(self, state: WalkState<N>, pile: StockpileId) -> bool {
        keyed(self.input.stockpiles@, pile.0) is Some && self.grain().upper(
            self.result.resolution.inventory_dust_t,
        ).below(sum_to(state.released.len(), self.unit_held(state, pile)))
    }

    /// Loader `l` could work on task `t` in interval `i`: the task's window holds
    /// the interval, the loader has a rate for the work, and there is work. What
    /// it would dig is `source`; a reclaim is free to take from any pile.
    pub open spec fn could_work(self, state: WalkState<N>, i: int, l: int, t: int, source: Option<GroundId>) -> bool {
        let task = self.input.tasks@[t];
        let interval = self.input.intervals@[i];
        let rate = self.input.loaders@[l].rates@[interval.index as int];
        &&& task.window_start_h.at_most(interval.start_h.plus(N::of_decimal(1, 9)))
        &&& interval.end_h.minus(N::of_decimal(1, 9)).at_most(task.window_end_h)
        &&& match task.kind {
            TaskKind::Dig { sequence } => !rate.dig_tph.at_most(N::of_whole(0)) && exists|x: int|
                #[trigger] self.next_block(state, i, self.input.loaders@[l].id, sequence@, x) && source == Some(
                    sequence@[x],
                ),
            TaskKind::Reclaim { approved_sources, .. } => !rate.reclaim_tph.at_most(N::of_whole(0)) && source is None
                && exists|k: int| 0 <= k < approved_sources@.len() && self.gives(state, #[trigger] approved_sources@[k]),
        }
    }

    /// Task `a` comes before task `b`: by priority, then by the start of its
    /// window, then by number.
    pub open spec fn ahead_of(self, a: int, b: int) -> bool {
        let (x, y) = (self.input.tasks@[a], self.input.tasks@[b]);
        ||| x.priority < y.priority
        ||| x.priority == y.priority && x.window_start_h.below(y.window_start_h)
        ||| x.priority == y.priority && x.window_start_h.same(y.window_start_h) && x.id.0 < y.id.0
    }

    /// Task `t` is the first of loader `l` that it could work on.
    pub open spec fn first_workable(self, state: WalkState<N>, i: int, l: int, t: int, source: Option<GroundId>) -> bool {
        &&& 0 <= t < self.input.tasks@.len()
        &&& self.input.tasks@[t].loader == self.input.loaders@[l].id
        &&& self.could_work(state, i, l, t, source)
        &&& forall|u: int, other: Option<GroundId>|
            0 <= u < self.input.tasks@.len() && self.input.tasks@[u].loader == self.input.loaders@[l].id
                && self.ahead_of(u, t) ==> !#[trigger] self.could_work(state, i, l, u, other)
    }

    /// Row `k` of the activities is of the first task that its loader could work
    /// on, and a dig is of the block that is next.
    pub open spec fn in_turn(self, state: WalkState<N>, i: int, l: int, k: int) -> bool {
        exists|t: int, source: Option<GroundId>| #[trigger]
            self.first_workable(state, i, l, t, source) && self.result.activities@[k].task == self.input.tasks@[t].id
                && (source matches Some(ground) ==> self.result.activities@[k].source == SourceId::Ground(ground))
    }

    proof fn work_is(self, state: WalkState<N>, i: int, l: int, t: int, source: Option<GroundId>)
        requires
            0 <= t < self.input.tasks@.len(),
        ensures
            self.could_work(state, i, l, t, source) == (self.workable(state, i, l, t as usize) == Some(
                (t as usize, source),
            )),
    {
        assert(self.input.tasks.len() == self.input.tasks@.len());
        let task = self.input.tasks@[t];
        let loader = self.input.loaders@[l].id;
        match task.kind {
            TaskKind::Dig { sequence } => {
                let standing = self.stands(state, sequence@);
                let n = sequence@.len() as int;
                first_where_finds(0, n, standing);
                assert forall|y: int| 0 <= y < n implies #[trigger] self.dug_out(state, sequence@[y]) == !standing(y) by {
                    assert(self.tonnes_of(sequence@[y]) == self.block_held(sequence@[y]));
                    assert(self.dust_spec() == self.grain());
                }
                match first_where(0, n, standing) {
                    Some(x) => {
                        assert forall|y: int| 0 <= y < x implies self.dug_out(state, #[trigger] sequence@[y]) by {
                            assert(!standing(y));
                        }
                        assert(!self.dug_out(state, sequence@[x]));
                        self.block_is(state, i, loader, sequence@, x);
                        if self.could_work(state, i, l, t, source) {
                            let z = choose|z: int|
                                #[trigger] self.next_block(state, i, loader, sequence@, z) && source == Some(
                                    sequence@[z],
                                );
                            if z < x {
                                assert(self.dug_out(state, sequence@[z]));
                            } else if x < z {
                                assert(self.dug_out(state, sequence@[x]));
                            }
                            assert(z == x);
                        }
                        if self.workable(state, i, l, t as usize) == Some((t as usize, source)) {
                            assert(self.next_block(state, i, loader, sequence@, x));
                            assert(source == Some(sequence@[x]));
                        }
                    },
                    None => {
                        if self.could_work(state, i, l, t, source) {
                            let z = choose|z: int|
                                #[trigger] self.next_block(state, i, loader, sequence@, z) && source == Some(
                                    sequence@[z],
                                );
                            assert(!standing(z));
                        }
                    },
                }
            },
            TaskKind::Reclaim { approved_sources, .. } => {
                assert forall|k: int| 0 <= k < approved_sources@.len() implies self.gives(
                    state,
                    #[trigger] approved_sources@[k],
                ) == self.offers(state, approved_sources@[k]) by {
                    self.gift_is(state, approved_sources@[k]);
                }
                if exists|k: int| 0 <= k < approved_sources@.len() && self.gives(state, #[trigger] approved_sources@[k]) {
                    let k = choose|k: int|
                        0 <= k < approved_sources@.len() && self.gives(state, #[trigger] approved_sources@[k]);
                    assert(self.offers(state, approved_sources@[k]));
                }
            },
        }
    }

    proof fn gift_is(self, state: WalkState<N>, pile: StockpileId)
        ensures
            self.gives(state, pile) == self.offers(state, pile),
    {
        assert(self.unit_held(state, pile) =~= self.unit_of(state, pile));
    }

    proof fn block_is(self, state: WalkState<N>, i: int, loader: LoaderId, sequence: Seq<GroundId>, x: int)
        requires
            0 <= x < sequence.len(),
            !self.dug_out(state, sequence[x]),
            forall|y: int| 0 <= y < x ==> self.dug_out(state, #[trigger] sequence[y]),
        ensures
            self.next_block(state, i, loader, sequence, x) == self.routable(state, i, loader, sequence[x]),
    {
        let ground = sequence[x];
        if let Some(g) = keyed(self.input.ground@, ground.0) {
            assert forall|k: int| 0 <= k < self.input.ground@[g].material@.len() implies self.routed(
                state,
                i,
                loader,
                ground,
                (#[trigger] self.input.ground@[g].material@[k]).material,
            ) == self.can_go(state, i, loader, ground, self.input.ground@[g].material@[k].material) by {
                let material = self.input.ground@[g].material@[k].material;
                if self.routed(state, i, loader, ground, material) {
                    let c = choose|c: int|
                        0 <= c < self.input.movements@.len() && #[trigger] self.carries(
                            state,
                            i,
                            loader,
                            ground,
                            material,
                            c,
                        );
                    self.carriage_is(state, i, loader, ground, material, c);
                    assert(self.takes_away(state, i, loader, ground, material, c));
                }
                if self.can_go(state, i, loader, ground, material) {
                    let c = choose|c: int| #[trigger] self.takes_away(state, i, loader, ground, material, c);
                    self.carriage_is(state, i, loader, ground, material, c);
                    assert(self.carries(state, i, loader, ground, material, c));
                }
            }
        }
    }

    proof fn carriage_is(
        self,
        state: WalkState<N>,
        i: int,
        loader: LoaderId,
        ground: GroundId,
        material: MaterialId,
        c: int,
    )
        requires
            0 <= c < self.input.movements@.len(),
        ensures
            self.takes_away(state, i, loader, ground, material, c) == self.carries(state, i, loader, ground, material, c),
    {
        let candidate = self.input.movements@[c];
        let index = self.input.intervals@[i].index as int;
        if self.trucks_run(candidate.truck.0, index) {
            let t = choose|t: int|
                0 <= t < self.input.trucks@.len() && (#[trigger] self.input.trucks@[t]).id.0 == candidate.truck.0
                    && N::of_whole(0).below(self.input.trucks@[t].hours@[index]);
            assert(self.input.trucks@[t].id == candidate.truck);
        }
        if exists|t: int|
            0 <= t < self.input.trucks@.len() && (#[trigger] self.input.trucks@[t]).id == candidate.truck && N::of_whole(
                0,
            ).below(self.input.trucks@[t].hours@[index]) {
            let t = choose|t: int|
                0 <= t < self.input.trucks@.len() && (#[trigger] self.input.trucks@[t]).id == candidate.truck
                    && N::of_whole(0).below(self.input.trucks@[t].hours@[index]);
            assert(self.input.trucks@[t].id.0 == candidate.truck.0);
        }
    }

    /// The task that the books call for is the first that could be worked on.
    proof fn expected_is_first(self, state: WalkState<N>, i: int, l: int)
        requires
            windows_compare(self.input.tasks@),
            forall|a: int, b: int|
                0 <= a < self.input.tasks@.len() && 0 <= b < self.input.tasks@.len() && a != b ==> (
                #[trigger] self.input.tasks@[a]).id != (#[trigger] self.input.tasks@[b]).id,
        ensures
            match self.expected(state, i, l) {
                Some(found) => self.first_workable(state, i, l, found.0 as int, found.1) && forall|
                    t: int,
                    source: Option<GroundId>,
                | #[trigger] self.first_workable(state, i, l, t, source) ==> t == found.0 && source == found.1,
                None => forall|t: int, source: Option<GroundId>| !#[trigger] self.first_workable(state, i, l, t, source),
            },
    {
        let tasks = self.input.tasks@;
        assert(self.input.tasks.len() == tasks.len());
        let loader = self.input.loaders@[l].id;
        let order = authored(tasks, loader);
        authored_order_holds(tasks, loader);
        let f = self.workable_at(state, i, l);
        let q = first_found(0, order.len() as int, f);
        assert forall|u: int, other: Option<GroundId>|
            0 <= u < tasks.len() && tasks[u].loader == loader && #[trigger] self.could_work(
                state,
                i,
                l,
                u,
                other,
            ) implies exists|p: int| 0 <= p < order.len() && order[p] == u && #[trigger] f(p) == Some((u as usize, other)) by {
            self.work_is(state, i, l, u, other);
            assert(order.contains(u as usize));
            let p = choose|p: int| 0 <= p < order.len() && order[p] == u as usize;
            assert(f(p) == Some((u as usize, other)));
        }
        match self.expected(state, i, l) {
            Some(found) => {
                let t = order[q] as int;
                assert(order.contains(order[q]));
                assert(f(q) == self.workable(state, i, l, t as usize));
                assert(found.0 == t);
                self.work_is(state, i, l, t, found.1);
                assert forall|u: int, other: Option<GroundId>|
                    0 <= u < tasks.len() && tasks[u].loader == loader && self.ahead_of(u, t) implies !#[trigger] self.could_work(
                    state,
                    i,
                    l,
                    u,
                    other,
                ) by {
                    if self.could_work(state, i, l, u, other) {
                        let p = choose|p: int|
                            0 <= p < order.len() && order[p] == u && #[trigger] f(p) == Some((u as usize, other));
                        assert(p >= q);
                        assert(authored_before(tasks[u], tasks[t]));
                        if q < p {
                            assert(!authored_before(tasks[order[p] as int], tasks[order[q] as int]));
                        } else {
                            N::comparison_laws(tasks[t].window_start_h, tasks[t].window_start_h, tasks[t].window_start_h);
                        }
                    }
                }
                assert forall|u: int, source: Option<GroundId>| #[trigger]
                    self.first_workable(state, i, l, u, source) implies u == found.0 && source == found.1 by {
                    self.work_is(state, i, l, u, source);
                    let p = choose|p: int|
                        0 <= p < order.len() && order[p] == u && #[trigger] f(p) == Some((u as usize, source));
                    assert(p >= q);
                    if u != t {
                        assert(q < p);
                        assert(!authored_before(tasks[order[p] as int], tasks[order[q] as int]));
                        let (a, b) = (tasks[t].window_start_h, tasks[u].window_start_h);
                        N::comparison_laws(a, b, a);
                        N::comparison_laws(b, a, b);
                        assert(tasks[t].id != tasks[u].id);
                        assert(tasks[t].loader == tasks[u].loader);
                        assert(self.ahead_of(t, u));
                        assert(self.could_work(state, i, l, t, found.1));
                    }
                }
            },
            None => {
                assert forall|u: int, source: Option<GroundId>| !#[trigger] self.first_workable(state, i, l, u, source) by {
                    if self.first_workable(state, i, l, u, source) {
                        let p = choose|p: int|
                            0 <= p < order.len() && order[p] == u && #[trigger] f(p) == Some((u as usize, source));
                        assert(f(p) is None);
                    }
                }
            },
        }
    }

    /// The audit finds nothing wrong with what a loader does in a segment exactly
    /// where every activity row of the loader there is of the first task, by
    /// priority, start and number, that the loader could work on and, for a dig
    /// task, on the first block of the task that is not dug out.
    pub proof fn order_is_authored(self, state: WalkState<N>, i: int, s: int, l: int)
        requires
            windows_compare(self.input.tasks@),
            forall|a: int, b: int|
                0 <= a < self.input.tasks@.len() && 0 <= b < self.input.tasks@.len() && a != b ==> (
                #[trigger] self.input.tasks@[a]).id != (#[trigger] self.input.tasks@[b]).id,
        ensures
            self.order_at(state, i, s)(l).len() == 0 <==> forall|k: int|
                #![trigger self.result.activities@[k]]
                0 <= k < self.result.activities@.len() && self.result.activities@[k].loader == self.input.loaders@[l].id
                    && self.result.activities@[k].interval == self.input.intervals@[i].index
                    && self.result.activities@[k].segment == s ==> self.in_turn(state, i, l, k),
    {
        let n = self.result.activities@.len() as int;
        let here = self.rows_at(l, i, s);
        self.expected_is_first(state, i, l);
        first_where_finds(0, n, here);
        match self.expected(state, i, l) {
            Some(found) => {
                let wrong = self.bypasses(found, l, i, s);
                first_where_finds(0, n, wrong);
                assert forall|k: int|
                    #![trigger self.result.activities@[k]]
                    0 <= k < n && here(k) implies self.in_turn(state, i, l, k) == !wrong(k) by {
                    assert(self.first_workable(state, i, l, found.0 as int, found.1));
                }
                if self.order_at(state, i, s)(l).len() == 0 {
                    assert forall|k: int|
                        #![trigger self.result.activities@[k]]
                        0 <= k < n && here(k) implies self.in_turn(state, i, l, k) by {
                        assert(!wrong(k));
                    }
                } else {
                    let k = first_where(0, n, wrong)->0;
                    assert(here(k) && wrong(k));
                    assert(!self.in_turn(state, i, l, k));
                    assert(self.result.activities@[k].segment == s);
                }
            },
            None => {
                assert forall|k: int| !#[trigger] self.in_turn(state, i, l, k) by {}
                if self.order_at(state, i, s)(l).len() == 0 {
                    assert forall|k: int|
                        #![trigger self.result.activities@[k]]
                        0 <= k < n && here(k) implies self.in_turn(state, i, l, k) by {
                        assert(!here(k));
                    }
                } else {
                    let k = first_where(0, n, here)->0;
                    assert(here(k));
                    assert(!self.in_turn(state, i, l, k));
                    assert(self.result.activities@[k].segment == s);
                }
            },
        }
    }

    /// In a result without issues, every activity row of a loader in a segment is
    /// of the first task, by priority, start and number, that the loader could
    /// work on there and, for a dig task, on the first block of the task that is
    /// not dug out.
    pub proof fn clean_audit_keeps_authored_order(self, l: int, i: int, s: int, k: int)
        requires
            self.issues().len() == 0,
            windows_compare(self.input.tasks@),
            forall|a: int, b: int|
                0 <= a < self.input.tasks@.len() && 0 <= b < self.input.tasks@.len() && a != b ==> (
                #[trigger] self.input.tasks@[a]).id != (#[trigger] self.input.tasks@[b]).id,
            0 <= l < self.input.loaders@.len(),
            0 <= i < self.input.intervals@.len(),
            self.input.intervals@[i].index < self.result.resolution.segment_counts@.len(),
            0 <= s < self.result.resolution.segment_counts@[self.input.intervals@[i].index as int],
            0 <= k < self.result.activities@.len(),
            self.result.activities@[k].loader == self.input.loaders@[l].id,
            self.result.activities@[k].interval == self.input.intervals@[i].index,
            self.result.activities@[k].segment == s,
        ensures
            self.in_turn(self.books_at(i, s), i, l, k),
    {
        assert(self.walk_issues().len() == 0);
        let state = self.books_at(i, s);
        nothing_in_parts(self.input.intervals@.len(), self.interval_issues(), i);
        assert(flat(self.budget_spec(self.index_of(i)), self.segments_of(self.walk_at(i as nat), i)).len() == 0);
        nothing_in_parts(self.budget_spec(self.index_of(i)), self.segments_of(self.walk_at(i as nat), i), s);
        assert(self.segment_issues(state, i, s).len() == 0);
        assert(flat(self.input.loaders@.len(), self.order_at(state, i, s)).len() == 0);
        nothing_in_parts(self.input.loaders@.len(), self.order_at(state, i, s), l);
        self.order_is_authored(state, i, s, l);
    }
}

} // verus!
