//! Replaying the totals of a blended solution: objective, ground, composition,
//! loader rates, truck hours, the event clock, destinations, reclaim limits and
//! the windows of tasks.
use vstd::prelude::*;

use crate::ledger::{amount, Pair};
use crate::listing::{arrange, arranged, folded, said, said_of_two, sum_to};
use crate::optimisation::blended::input::{authorises, interval_rate, rate_of, task_authorises, BlendInput};
use crate::optimisation::blended::report::{
    replay_tolerance, tolerance, BlendSolution, Books, Label, MovementRow, ReplayIssue, ReplayState,
};
use crate::optimisation::ids::{Activity, DestinationKind, MaterialId, SourceId};
use crate::optimisation::input::{in_window, task_active, value_to, Interval, MovementCandidate, Task, TaskKind};
use crate::scalar::Scalar;

verus! {

/// A solution beside the input it answers.
pub struct Replay<'a, N> {
    pub input: &'a BlendInput<N>,
    pub solution: &'a BlendSolution<N>,
}

/// Whether a task's window covers an interval.
pub fn covers<N: Scalar>(task: &Task<N>, interval: Interval<N>) -> (r: bool)
    ensures
        r == in_window(*task, interval),
{
    task_active(task, interval)
}

/// What a tonne of a candidate is worth, nothing where that is not finite.
pub open spec fn unit_value<N: Scalar>(candidate: MovementCandidate<N>) -> N {
    match value_to(candidate.cashflow@, candidate.cashflow@.len()) {
        Some(value) => value,
        None => N::of_whole(0),
    }
}

/// What a tonne of a candidate is worth, nothing where that is not finite.
pub fn find_unit_value<N: Scalar>(candidate: &MovementCandidate<N>) -> (r: N)
    ensures
        r == unit_value(*candidate),
{
    match candidate.value_per_tonne() {
        Ok(value) => value,
        Err(_) => N::whole(0),
    }
}

impl<'a, N: Scalar> Replay<'a, N> {
    pub open spec fn row(self, m: int) -> MovementRow<N> {
        self.solution.movements@[m]
    }

    pub open spec fn rows(self) -> nat {
        self.solution.movements@.len()
    }

    /// The row names a candidate of the input.
    pub open spec fn known(self, m: int) -> bool {
        self.row(m).candidate < self.input.movements@.len()
    }

    pub open spec fn candidate(self, m: int) -> MovementCandidate<N> {
        self.input.movements@[self.row(m).candidate as int]
    }

    /// The segments of every interval, at least one.
    pub open spec fn segments_spec(self) -> nat {
        if self.input.segments_per_interval < 1 {
            1
        } else {
            self.input.segments_per_interval as nat
        }
    }

    pub fn segments(&self) -> (r: usize)
        ensures
            r == self.segments_spec(),
    {
        if self.input.segments_per_interval < 1 {
            1
        } else {
            self.input.segments_per_interval
        }
    }

    // Negative movements and the objective.

    pub open spec fn negative_step(self) -> spec_fn(ReplayState<N>, int) -> ReplayState<N> {
        |st: ReplayState<N>, m: int|
            st.with_issue_if(
                self.row(m).tonnes_t.below(replay_tolerance::<N>().opposite()),
                ReplayIssue::NegativeMovement { candidate: self.row(m).candidate, tonnes: self.row(m).tonnes_t },
            )
    }

    pub open spec fn value_step(self) -> spec_fn(ReplayState<N>, int) -> ReplayState<N> {
        |st: ReplayState<N>, m: int|
            if self.known(m) {
                ReplayState {
                    objective: st.objective.plus(self.row(m).tonnes_t.times(unit_value(self.candidate(m)))),
                    ..st
                }
            } else {
                st.with_issue(ReplayIssue::UnknownCandidate { candidate: self.row(m).candidate })
            }
    }

    fn check_movements(&self, books: &mut Books<N>)
        ensures
            final(books)@ == folded(
                self.rows(),
                folded(self.rows(), old(books)@, self.negative_step()),
                self.value_step(),
            ),
    {
        let ghost start = books@;
        for m in 0..self.solution.movements.len()
            invariant
                books@ == folded(m as nat, start, self.negative_step()),
        {
            let row = self.solution.movements[m];
            if row.tonnes_t.is_below(tolerance::<N>().neg()) {
                books.report(ReplayIssue::NegativeMovement { candidate: row.candidate, tonnes: row.tonnes_t });
            }
        }
        let ghost middle = books@;
        for m in 0..self.solution.movements.len()
            invariant
                books@ == folded(m as nat, middle, self.value_step()),
        {
            let row = self.solution.movements[m];
            if row.candidate < self.input.movements.len() {
                let value = find_unit_value(&self.input.movements[row.candidate]);
                books.objective = books.objective.add(row.tonnes_t.mul(value));
            } else {
                books.report(ReplayIssue::UnknownCandidate { candidate: row.candidate });
            }
        }
    }

    // Ground.

    /// Row `m` digs block `g`.
    pub open spec fn digs(self, g: int, m: int) -> bool {
        self.known(m) && self.candidate(m).activity is Dig && self.candidate(m).source == SourceId::Ground(
            self.input.ground@[g].id,
        )
    }

    fn does_dig(&self, g: usize, m: usize) -> (r: bool)
        requires
            g < self.input.ground@.len(),
            m < self.rows(),
        ensures
            r == self.digs(g as int, m as int),
            r ==> self.row(m as int).candidate < self.input.movements@.len(),
    {
        let row = &self.solution.movements[m];
        row.candidate < self.input.movements.len() && self.input.movements[row.candidate].activity == Activity::Dig
            && self.input.movements[row.candidate].source == SourceId::Ground(self.input.ground[g].id)
    }

    pub open spec fn dug(self, g: int) -> spec_fn(int) -> Option<N> {
        |m: int|
            if self.digs(g, m) {
                Some(self.row(m).tonnes_t)
            } else {
                None
            }
    }

    pub open spec fn ground_step(self) -> spec_fn(ReplayState<N>, int) -> ReplayState<N> {
        |st: ReplayState<N>, g: int|
            st.limited(
                Label::GroundTwice { ground: self.input.ground@[g].id },
                sum_to(self.rows(), self.dug(g)),
                self.input.ground@[g].tonnes_t,
            )
    }

    fn check_ground(&self, books: &mut Books<N>)
        ensures
            final(books)@ == folded(self.input.ground@.len(), old(books)@, self.ground_step()),
    {
        let ghost start = books@;
        for g in 0..self.input.ground.len()
            invariant
                books@ == folded(g as nat, start, self.ground_step()),
        {
            let mut dug = N::whole(0);
            for m in 0..self.solution.movements.len()
                invariant
                    g < self.input.ground@.len(),
                    dug == sum_to(m as nat, self.dug(g as int)),
            {
                if self.does_dig(g, m) {
                    dug = dug.add(self.solution.movements[m].tonnes_t);
                }
            }
            let ground = &self.input.ground[g];
            books.breach(Label::GroundTwice { ground: ground.id }, dug, ground.tonnes_t);
        }
    }

    // Composition.

    pub open spec fn same_cell(self, a: int, b: int) -> bool {
        self.row(a).interval == self.row(b).interval && self.row(a).segment == self.row(b).segment
    }

    /// Row `m` is the first that digs block `g` in its cell.
    pub open spec fn fresh_cell(self, g: int) -> spec_fn(int) -> bool {
        |m: int| self.digs(g, m) && !exists|k: int| 0 <= k < m && #[trigger] self.digs(g, k) && self.same_cell(k, m)
    }

    pub open spec fn cell_order(self) -> spec_fn(int, int) -> bool {
        |a: int, b: int|
            self.row(a).interval < self.row(b).interval || (self.row(a).interval == self.row(b).interval && self.row(
                a,
            ).segment < self.row(b).segment)
    }

    /// One row of every cell that block `g` is dug in, in order.
    pub open spec fn dug_cells(self, g: int) -> Seq<usize> {
        arranged(self.rows(), self.fresh_cell(g), self.cell_order())
    }

    pub open spec fn dug_in(self, g: int, cell: int) -> spec_fn(int) -> Option<N> {
        |m: int|
            if self.digs(g, m) && self.same_cell(m, cell) {
                Some(self.row(m).tonnes_t)
            } else {
                None
            }
    }

    pub open spec fn dug_of(self, g: int, cell: int, material: MaterialId) -> spec_fn(int) -> Option<N> {
        |m: int|
            if self.digs(g, m) && self.same_cell(m, cell) && self.candidate(m).material == material {
                Some(self.row(m).tonnes_t)
            } else {
                None
            }
    }

    pub open spec fn share_step(self, g: int, cell: int) -> spec_fn(ReplayState<N>, int) -> ReplayState<N> {
        |st: ReplayState<N>, k: int|
            {
                let ground = self.input.ground@[g];
                let share = ground.material@[k];
                st.compared(
                    Label::Proportion {
                        ground: ground.id,
                        material: share.material,
                        interval: self.row(cell).interval,
                        segment: self.row(cell).segment,
                    },
                    sum_to(self.rows(), self.dug_of(g, cell, share.material)),
                    share.fraction.times(sum_to(self.rows(), self.dug_in(g, cell))),
                )
            }
    }

    pub open spec fn cell_step(self, g: int) -> spec_fn(ReplayState<N>, int) -> ReplayState<N> {
        |st: ReplayState<N>, c: int|
            folded(self.input.ground@[g].material@.len(), st, self.share_step(g, self.dug_cells(g)[c] as int))
    }

    pub open spec fn composition_step(self) -> spec_fn(ReplayState<N>, int) -> ReplayState<N> {
        |st: ReplayState<N>, g: int|
            if self.input.ground@[g].material@.len() < 2 {
                st
            } else {
                folded(self.dug_cells(g).len(), st, self.cell_step(g))
            }
    }

    fn is_fresh_cell(&self, g: usize, m: usize) -> (r: bool)
        requires
            g < self.input.ground@.len(),
            m < self.rows(),
        ensures
            r == self.fresh_cell(g as int)(m as int),
    {
        if !self.does_dig(g, m) {
            return false;
        }
        for k in 0..m
            invariant
                g < self.input.ground@.len(),
                m < self.rows(),
                forall|q: int| 0 <= q < k && #[trigger] self.digs(g as int, q) ==> !self.same_cell(q, m as int),
        {
            if self.does_dig(g, k) && self.is_same_cell(k, m) {
                assert(self.digs(g as int, k as int));
                return false;
            }
        }
        true
    }

    fn is_same_cell(&self, a: usize, b: usize) -> (r: bool)
        requires
            a < self.rows(),
            b < self.rows(),
        ensures
            r == self.same_cell(a as int, b as int),
    {
        self.solution.movements[a].interval == self.solution.movements[b].interval
            && self.solution.movements[a].segment == self.solution.movements[b].segment
    }

    fn is_cell_before(&self, a: usize, b: usize) -> (r: bool)
        requires
            a < self.rows(),
            b < self.rows(),
        ensures
            r == self.cell_order()(a as int, b as int),
    {
        let x = &self.solution.movements[a];
        let y = &self.solution.movements[b];
        x.interval < y.interval || (x.interval == y.interval && x.segment < y.segment)
    }

    fn check_cell(&self, books: &mut Books<N>, g: usize, cell: usize)
        requires
            g < self.input.ground@.len(),
            cell < self.rows(),
        ensures
            final(books)@ == folded(
                self.input.ground@[g as int].material@.len(),
                old(books)@,
                self.share_step(g as int, cell as int),
            ),
    {
        let ghost start = books@;
        let ground = &self.input.ground[g];
        let mut extracted = N::whole(0);
        for m in 0..self.solution.movements.len()
            invariant
                g < self.input.ground@.len(),
                cell < self.rows(),
                extracted == sum_to(m as nat, self.dug_in(g as int, cell as int)),
        {
            if self.does_dig(g, m) && self.is_same_cell(m, cell) {
                extracted = extracted.add(self.solution.movements[m].tonnes_t);
            }
        }
        for k in 0..ground.material.len()
            invariant
                g < self.input.ground@.len(),
                cell < self.rows(),
                ground == self.input.ground@[g as int],
                extracted == sum_to(self.rows(), self.dug_in(g as int, cell as int)),
                books@ == folded(k as nat, start, self.share_step(g as int, cell as int)),
        {
            let share = ground.material[k];
            let mut moved = N::whole(0);
            for m in 0..self.solution.movements.len()
                invariant
                    g < self.input.ground@.len(),
                    cell < self.rows(),
                    moved == sum_to(m as nat, self.dug_of(g as int, cell as int, share.material)),
            {
                if self.does_dig(g, m) && self.is_same_cell(m, cell)
                    && self.input.movements[self.solution.movements[m].candidate].material == share.material {
                    moved = moved.add(self.solution.movements[m].tonnes_t);
                }
            }
            let label = Label::Proportion {
                ground: ground.id,
                material: share.material,
                interval: self.solution.movements[cell].interval,
                segment: self.solution.movements[cell].segment,
            };
            books.residual(label, moved, share.fraction.mul(extracted));
        }
    }

    fn check_composition(&self, books: &mut Books<N>)
        ensures
            final(books)@ == folded(self.input.ground@.len(), old(books)@, self.composition_step()),
    {
        let ghost start = books@;
        for g in 0..self.input.ground.len()
            invariant
                books@ == folded(g as nat, start, self.composition_step()),
        {
            if self.input.ground[g].material.len() >= 2 {
                let cells = arrange(
                    self.solution.movements.len(),
                    |m: usize| -> (b: bool)
                        requires
                            g < self.input.ground@.len(),
                            m < self.rows(),
                        ensures
                            b == said(self.fresh_cell(g as int), m)
                        { self.is_fresh_cell(g, m) },
                    |a: usize, b: usize| -> (r: bool)
                        requires
                            a < self.rows(),
                            b < self.rows(),
                        ensures
                            r == said_of_two(self.cell_order(), a, b)
                        { self.is_cell_before(a, b) },
                    Ghost(self.fresh_cell(g as int)),
                    Ghost(self.cell_order()),
                );
                let ghost before = books@;
                for c in 0..cells.len()
                    invariant
                        g < self.input.ground@.len(),
                        cells@ == self.dug_cells(g as int),
                        forall|q: int| 0 <= q < cells@.len() ==> (#[trigger] cells@[q]) < self.rows(),
                        books@ == folded(c as nat, before, self.cell_step(g as int)),
                {
                    self.check_cell(books, g, cells[c]);
                }
            }
        }
    }

    // Loader rates, truck hours and the clock.

    pub open spec fn duration(self, i: int, s: int) -> N {
        amount(self.solution.durations@, Pair(self.input.intervals@[i].index, s as usize))
    }

    pub open spec fn in_cell(self, i: int, s: int, m: int) -> bool {
        self.row(m).interval == self.input.intervals@[i].index && self.row(m).segment == s && self.known(m)
    }

    fn is_in_cell(&self, i: usize, s: usize, m: usize) -> (r: bool)
        requires
            i < self.input.intervals@.len(),
            m < self.rows(),
        ensures
            r == self.in_cell(i as int, s as int, m as int),
            r ==> self.row(m as int).candidate < self.input.movements@.len(),
    {
        let row = &self.solution.movements[m];
        row.interval == self.input.intervals[i].index && row.segment == s && row.candidate < self.input.movements.len()
    }

    pub open spec fn loaded(self, i: int, s: int, l: int, activity: Activity) -> spec_fn(int) -> Option<N> {
        |m: int|
            if self.in_cell(i, s, m) && self.candidate(m).loader == self.input.loaders@[l].id && self.candidate(
                m,
            ).activity == activity {
                Some(self.row(m).tonnes_t)
            } else {
                None
            }
    }

    pub open spec fn loader_limited(self, st: ReplayState<N>, i: int, s: int, l: int, activity: Activity, tph: N) -> ReplayState<N> {
        st.limited(
            Label::LoaderRate {
                loader: self.input.loaders@[l].id,
                activity,
                interval: self.input.intervals@[i].index,
                segment: s as usize,
            },
            sum_to(self.rows(), self.loaded(i, s, l, activity)),
            tph.times(self.duration(i, s)),
        )
    }

    pub open spec fn loader_step(self, i: int, s: int) -> spec_fn(ReplayState<N>, int) -> ReplayState<N> {
        |st: ReplayState<N>, l: int|
            match rate_of(self.input.loaders@[l], self.input.intervals@[i].index) {
                Some(rate) => self.loader_limited(
                    self.loader_limited(st, i, s, l, Activity::Dig, rate.dig_tph),
                    i,
                    s,
                    l,
                    Activity::Reclaim,
                    rate.reclaim_tph,
                ),
                None => st,
            }
    }

    pub open spec fn trucked(self, i: int, s: int, t: int) -> spec_fn(int) -> Option<N> {
        |m: int|
            if self.in_cell(i, s, m) && self.candidate(m).truck == self.input.trucks@[t].id {
                Some(self.row(m).tonnes_t.times(self.candidate(m).truck_hours_per_tonne))
            } else {
                None
            }
    }

    pub open spec fn truck_step(self, i: int, s: int) -> spec_fn(ReplayState<N>, int) -> ReplayState<N> {
        |st: ReplayState<N>, t: int|
            {
                let truck = self.input.trucks@[t];
                let interval = self.input.intervals@[i];
                if interval.index >= truck.hours@.len() || interval.length().at_most(N::of_whole(0)) {
                    st
                } else {
                    st.limited(
                        Label::TruckHours { truck: truck.id, interval: interval.index, segment: s as usize },
                        sum_to(self.rows(), self.trucked(i, s, t)),
                        truck.hours@[interval.index as int].over(interval.length()).times(self.duration(i, s)),
                    )
                }
            }
    }

    pub open spec fn segment_step(self, i: int) -> spec_fn(ReplayState<N>, int) -> ReplayState<N> {
        |st: ReplayState<N>, s: int|
            folded(
                self.input.trucks@.len(),
                folded(self.input.loaders@.len(), st, self.loader_step(i, s)),
                self.truck_step(i, s),
            )
    }

    pub open spec fn clock(self, i: int) -> spec_fn(int) -> Option<N> {
        |s: int| Some(self.duration(i, s))
    }

    pub open spec fn interval_step(self) -> spec_fn(ReplayState<N>, int) -> ReplayState<N> {
        |st: ReplayState<N>, i: int|
            folded(self.segments_spec(), st, self.segment_step(i)).compared(
                Label::EventClock { interval: self.input.intervals@[i].index },
                sum_to(self.segments_spec(), self.clock(i)),
                self.input.intervals@[i].length(),
            )
    }

    fn check_loader(&self, books: &mut Books<N>, i: usize, s: usize, l: usize, activity: Activity, tph: N)
        requires
            i < self.input.intervals@.len(),
            l < self.input.loaders@.len(),
        ensures
            final(books)@ == self.loader_limited(old(books)@, i as int, s as int, l as int, activity, tph),
    {
        let mut moved = N::whole(0);
        for m in 0..self.solution.movements.len()
            invariant
                i < self.input.intervals@.len(),
                l < self.input.loaders@.len(),
                moved == sum_to(m as nat, self.loaded(i as int, s as int, l as int, activity)),
        {
            if self.is_in_cell(i, s, m) {
                let candidate = &self.input.movements[self.solution.movements[m].candidate];
                if candidate.loader == self.input.loaders[l].id && candidate.activity == activity {
                    moved = moved.add(self.solution.movements[m].tonnes_t);
                }
            }
        }
        let index: usize = self.input.intervals[i].index;
        books.breach(
            Label::LoaderRate { loader: self.input.loaders[l].id, activity, interval: index, segment: s },
            moved,
            tph.mul(self.solution.durations.amount(Pair(index, s))),
        );
    }

    fn check_truck(&self, books: &mut Books<N>, i: usize, s: usize, t: usize)
        requires
            i < self.input.intervals@.len(),
            t < self.input.trucks@.len(),
        ensures
            final(books)@ == self.truck_step(i as int, s as int)(old(books)@, t as int),
    {
        let truck = &self.input.trucks[t];
        let interval = self.input.intervals[i];
        if interval.index >= truck.hours.len() || interval.duration_h().is_at_most(N::whole(0)) {
            return;
        }
        let mut used = N::whole(0);
        for m in 0..self.solution.movements.len()
            invariant
                i < self.input.intervals@.len(),
                t < self.input.trucks@.len(),
                truck == self.input.trucks@[t as int],
                used == sum_to(m as nat, self.trucked(i as int, s as int, t as int)),
        {
            if self.is_in_cell(i, s, m) {
                let row = self.solution.movements[m];
                let candidate = &self.input.movements[row.candidate];
                if candidate.truck == truck.id {
                    used = used.add(row.tonnes_t.mul(candidate.truck_hours_per_tonne));
                }
            }
        }
        books.breach(
            Label::TruckHours { truck: truck.id, interval: interval.index, segment: s },
            used,
            truck.hours[interval.index].div(interval.duration_h()).mul(
                self.solution.durations.amount(Pair(interval.index, s)),
            ),
        );
    }

    fn check_interval(&self, books: &mut Books<N>, i: usize)
        requires
            i < self.input.intervals@.len(),
        ensures
            final(books)@ == self.interval_step()(old(books)@, i as int),
    {
        let segments: usize = self.segments();
        let interval = self.input.intervals[i];
        let ghost start = books@;
        let mut clock = N::whole(0);
        for s in 0..segments
            invariant
                i < self.input.intervals@.len(),
                interval == self.input.intervals@[i as int],
                segments == self.segments_spec(),
                clock == sum_to(s as nat, self.clock(i as int)),
                books@ == folded(s as nat, start, self.segment_step(i as int)),
        {
            let ghost before = books@;
            for l in 0..self.input.loaders.len()
                invariant
                    i < self.input.intervals@.len(),
                    interval == self.input.intervals@[i as int],
                    books@ == folded(l as nat, before, self.loader_step(i as int, s as int)),
            {
                if let Some(rate) = interval_rate(&self.input.loaders[l], interval.index) {
                    self.check_loader(books, i, s, l, Activity::Dig, rate.dig_tph);
                    self.check_loader(books, i, s, l, Activity::Reclaim, rate.reclaim_tph);
                }
            }
            let ghost middle = books@;
            for t in 0..self.input.trucks.len()
                invariant
                    i < self.input.intervals@.len(),
                    books@ == folded(t as nat, middle, self.truck_step(i as int, s as int)),
            {
                self.check_truck(books, i, s, t);
            }
            clock = clock.add(self.solution.durations.amount(Pair(interval.index, s)));
        }
        books.residual(Label::EventClock { interval: interval.index }, clock, interval.duration_h());
    }

    // Destinations.

    pub open spec fn delivered(self, d: int) -> spec_fn(int) -> Option<N> {
        |m: int|
            if self.known(m) && self.candidate(m).destination == self.input.destinations@[d].id {
                Some(self.row(m).tonnes_t)
            } else {
                None
            }
    }

    pub open spec fn delivered_on(self, d: int, day: int) -> spec_fn(int) -> Option<N> {
        |m: int|
            if self.known(m) && self.candidate(m).destination == self.input.destinations@[d].id && self.row(m).interval
                < self.input.intervals@.len() && self.input.intervals@[self.row(m).interval as int].calendar_day() == day {
                Some(self.row(m).tonnes_t)
            } else {
                None
            }
    }

    pub open spec fn day_step(self, d: int) -> spec_fn(ReplayState<N>, int) -> ReplayState<N> {
        |st: ReplayState<N>, day: int|
            match self.input.destinations@[d].crusher_daily_t@[day] {
                Some(budget) => st.limited(
                    Label::CrusherDay { crusher: self.input.destinations@[d].id, day: day as usize },
                    sum_to(self.rows(), self.delivered_on(d, day)),
                    budget,
                ),
                None => st,
            }
    }

    pub open spec fn destination_step(self) -> spec_fn(ReplayState<N>, int) -> ReplayState<N> {
        |st: ReplayState<N>, d: int|
            {
                let destination = self.input.destinations@[d];
                if destination.kind is Crusher {
                    folded(destination.crusher_daily_t@.len(), st, self.day_step(d))
                } else {
                    match destination.capacity_t {
                        Some(capacity) => st.limited(
                            Label::Capacity { destination: destination.id },
                            sum_to(self.rows(), self.delivered(d)),
                            capacity,
                        ),
                        None => st,
                    }
                }
            }
    }

    fn check_day(&self, books: &mut Books<N>, d: usize, day: usize)
        requires
            d < self.input.destinations@.len(),
            day < self.input.destinations@[d as int].crusher_daily_t@.len(),
        ensures
            final(books)@ == self.day_step(d as int)(old(books)@, day as int),
    {
        let destination = &self.input.destinations[d];
        if let Some(budget) = destination.crusher_daily_t[day] {
            let mut used = N::whole(0);
            for m in 0..self.solution.movements.len()
                invariant
                    d < self.input.destinations@.len(),
                    destination == self.input.destinations@[d as int],
                    used == sum_to(m as nat, self.delivered_on(d as int, day as int)),
            {
                let row = self.solution.movements[m];
                if row.candidate < self.input.movements.len() && self.input.movements[row.candidate].destination
                    == destination.id && row.interval < self.input.intervals.len()
                    && self.input.intervals[row.interval].day() as u64 == day as u64 {
                    used = used.add(row.tonnes_t);
                }
            }
            books.breach(Label::CrusherDay { crusher: destination.id, day }, used, budget);
        }
    }

    fn check_destination(&self, books: &mut Books<N>, d: usize)
        requires
            d < self.input.destinations@.len(),
        ensures
            final(books)@ == self.destination_step()(old(books)@, d as int),
    {
        let ghost start = books@;
        let destination = &self.input.destinations[d];
        let crusher: bool = match destination.kind {
            DestinationKind::Crusher => true,
            _ => false,
        };
        if crusher {
            for day in 0..destination.crusher_daily_t.len()
                invariant
                    d < self.input.destinations@.len(),
                    destination == self.input.destinations@[d as int],
                    books@ == folded(day as nat, start, self.day_step(d as int)),
            {
                self.check_day(books, d, day);
            }
        } else if let Some(capacity) = destination.capacity_t {
            let mut used = N::whole(0);
            for m in 0..self.solution.movements.len()
                invariant
                    d < self.input.destinations@.len(),
                    destination == self.input.destinations@[d as int],
                    used == sum_to(m as nat, self.delivered(d as int)),
            {
                let row = self.solution.movements[m];
                if row.candidate < self.input.movements.len() && self.input.movements[row.candidate].destination
                    == destination.id {
                    used = used.add(row.tonnes_t);
                }
            }
            books.breach(Label::Capacity { destination: destination.id }, used, capacity);
        }
    }

    // Reclaim limits and windows.

    pub open spec fn capped(self, t: int) -> spec_fn(int) -> Option<N> {
        |m: int|
            if self.known(m) && authorises(self.input.tasks@[t], self.candidate(m)) {
                Some(self.row(m).tonnes_t)
            } else {
                None
            }
    }

    pub open spec fn cap_step(self) -> spec_fn(ReplayState<N>, int) -> ReplayState<N> {
        |st: ReplayState<N>, t: int|
            match self.input.tasks@[t].kind {
                TaskKind::Reclaim { approved_sources, maximum_t: Some(maximum) } => st.limited(
                    Label::ReclaimCap { task: self.input.tasks@[t].id },
                    sum_to(self.rows(), self.capped(t)),
                    maximum,
                ),
                _ => st,
            }
    }

    /// Some task lets row `m` be made when it is.
    pub open spec fn authorised(self, m: int) -> bool {
        exists|t: int|
            0 <= t < self.input.tasks@.len() && in_window(
                #[trigger] self.input.tasks@[t],
                self.input.intervals@[self.row(m).interval as int],
            ) && authorises(self.input.tasks@[t], self.candidate(m))
    }

    pub open spec fn window_step(self) -> spec_fn(ReplayState<N>, int) -> ReplayState<N> {
        |st: ReplayState<N>, m: int|
            st.with_issue_if(
                !self.row(m).tonnes_t.at_most(replay_tolerance()) && self.known(m) && self.row(m).interval
                    < self.input.intervals@.len() && !self.authorised(m),
                ReplayIssue::OutsideWindows { candidate: self.row(m).candidate, interval: self.row(m).interval },
            )
    }

    fn is_authorised(&self, m: usize) -> (r: bool)
        requires
            m < self.rows(),
            self.known(m as int),
            self.row(m as int).interval < self.input.intervals@.len(),
        ensures
            r == self.authorised(m as int),
    {
        let row = self.solution.movements[m];
        let candidate = &self.input.movements[row.candidate];
        for t in 0..self.input.tasks.len()
            invariant
                m < self.rows(),
                self.known(m as int),
                row == self.row(m as int),
                row.interval < self.input.intervals@.len(),
                candidate == self.candidate(m as int),
                forall|q: int|
                    0 <= q < t ==> !(in_window(
                        #[trigger] self.input.tasks@[q],
                        self.input.intervals@[row.interval as int],
                    ) && authorises(self.input.tasks@[q], *candidate)),
        {
            if covers(&self.input.tasks[t], self.input.intervals[row.interval]) && task_authorises(
                &self.input.tasks[t],
                candidate,
            ) {
                assert(in_window(self.input.tasks@[t as int], self.input.intervals@[row.interval as int]));
                return true;
            }
        }
        false
    }

    fn check_tasks(&self, books: &mut Books<N>)
        ensures
            final(books)@ == folded(
                self.rows(),
                folded(self.input.tasks@.len(), old(books)@, self.cap_step()),
                self.window_step(),
            ),
    {
        let ghost start = books@;
        for t in 0..self.input.tasks.len()
            invariant
                books@ == folded(t as nat, start, self.cap_step()),
        {
            let task = &self.input.tasks[t];
            if let TaskKind::Reclaim { approved_sources: _, maximum_t: Some(maximum) } = &task.kind {
                let mut reclaimed = N::whole(0);
                for m in 0..self.solution.movements.len()
                    invariant
                        t < self.input.tasks@.len(),
                        task == self.input.tasks@[t as int],
                        reclaimed == sum_to(m as nat, self.capped(t as int)),
                {
                    let row = self.solution.movements[m];
                    if row.candidate < self.input.movements.len() && task_authorises(
                        task,
                        &self.input.movements[row.candidate],
                    ) {
                        reclaimed = reclaimed.add(row.tonnes_t);
                    }
                }
                books.breach(Label::ReclaimCap { task: task.id }, reclaimed, *maximum);
            }
        }
        let ghost middle = books@;
        for m in 0..self.solution.movements.len()
            invariant
                books@ == folded(m as nat, middle, self.window_step()),
        {
            let row = self.solution.movements[m];
            if !row.tonnes_t.is_at_most(tolerance()) && row.candidate < self.input.movements.len() && row.interval
                < self.input.intervals.len() {
                if !self.is_authorised(m) {
                    books.report(ReplayIssue::OutsideWindows { candidate: row.candidate, interval: row.interval });
                }
            }
        }
    }

    /// The books after everything but stockpiles and the order of tasks.
    pub open spec fn after_totals(self, st: ReplayState<N>) -> ReplayState<N> {
        let a = folded(self.rows(), folded(self.rows(), st, self.negative_step()), self.value_step());
        let b = folded(self.input.ground@.len(), a, self.ground_step());
        let c = folded(self.input.ground@.len(), b, self.composition_step());
        let d = folded(self.input.intervals@.len(), c, self.interval_step());
        let e = folded(self.input.destinations@.len(), d, self.destination_step());
        let f = folded(self.input.tasks@.len(), e, self.cap_step());
        folded(self.rows(), f, self.window_step())
    }

    /// Replays everything but stockpiles and the order of tasks.
    pub fn replay_totals(&self, books: &mut Books<N>)
        ensures
            final(books)@ == self.after_totals(old(books)@),
    {
        self.check_movements(books);
        self.check_ground(books);
        self.check_composition(books);
        let ghost before = books@;
        for i in 0..self.input.intervals.len()
            invariant
                books@ == folded(i as nat, before, self.interval_step()),
        {
            self.check_interval(books, i);
        }
        let ghost middle = books@;
        for d in 0..self.input.destinations.len()
            invariant
                books@ == folded(d as nat, middle, self.destination_step()),
        {
            self.check_destination(books, d);
        }
        self.check_tasks(books);
    }
}

} // verus!
