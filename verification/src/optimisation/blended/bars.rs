//! Replaying the authored order of tasks: a loader works on the first of its
//! tasks that has work.
use vstd::prelude::*;

use crate::ledger::{amount, held_under, put_under, raised_by, Ledger, Pair};
use crate::listing::{find_key, first_where, folded, keyed};
use crate::optimisation::authored::{authored, authored_order, windows_compare};
use crate::optimisation::blended::input::{authorises, interval_rate, rate_of, task_authorises};
use crate::optimisation::blended::report::{replay_tolerance, tolerance, ReplayIssue};
use crate::optimisation::blended::totals::{covers, Replay};
use crate::optimisation::ids::{Activity, GroundId, SourceId, StockpileId};
use crate::optimisation::input::{in_window, GroundSource, IntervalRate, TaskKind};
use crate::scalar::Scalar;

verus! {

/// What a loader's tasks have left, and what was found wrong so far.
pub struct BarState<N> {
    pub issues: Seq<ReplayIssue<N>>,
    /// Tonnes left in each block.
    pub remaining: Seq<(u64, N)>,
    /// Tonnes reclaimed by each task.
    pub spent: Seq<(usize, N)>,
}

/// What a loader's tasks have left, and what was found wrong so far.
pub struct BarBooks<N> {
    pub issues: Vec<ReplayIssue<N>>,
    pub remaining: Ledger<u64, N>,
    pub spent: Ledger<usize, N>,
}

impl<N> View for BarBooks<N> {
    type V = BarState<N>;

    open spec fn view(&self) -> BarState<N> {
        BarState { issues: self.issues@, remaining: self.remaining@, spent: self.spent@ }
    }
}

/// Every block with all its tonnes.
pub open spec fn full_ground<N: Scalar>(ground: Seq<GroundSource<N>>) -> spec_fn(Seq<(u64, N)>, int) -> Seq<(u64, N)> {
    |held: Seq<(u64, N)>, g: int| put_under(held, ground[g].id.0 as u64, ground[g].tonnes_t)
}

/// Every task with nothing spent.
pub open spec fn unspent<N: Scalar>(bars: Seq<usize>) -> spec_fn(Seq<(usize, N)>, int) -> Seq<(usize, N)> {
    |held: Seq<(usize, N)>, b: int| put_under(held, bars[b], N::of_whole(0))
}

impl<'a, N: Scalar> Replay<'a, N> {
    pub open spec fn bars(self, l: int) -> Seq<usize> {
        authored(self.input.tasks@, self.input.loaders@[l].id)
    }

    /// The rates of loader `l` in interval `i`.
    pub open spec fn bar_rate(self, l: int, i: int) -> Option<IntervalRate<N>> {
        match keyed(self.input.loaders@, self.input.loaders@[l].id.0) {
            Some(first) => rate_of(self.input.loaders@[first], self.input.intervals@[i].index),
            None => None,
        }
    }

    pub open spec fn block_left(self, state: BarState<N>, ground: GroundId) -> bool {
        replay_tolerance::<N>().below(amount(state.remaining, ground.0 as u64))
    }

    /// Task `t` has work for its loader in interval `i`.
    pub open spec fn ready(
        self,
        openings: Seq<(Pair<StockpileId, usize>, N)>,
        state: BarState<N>,
        l: int,
        i: int,
        t: usize,
    ) -> bool {
        let task = self.input.tasks@[t as int];
        let index = self.input.intervals@[i].index;
        in_window(task, self.input.intervals@[i]) && match self.bar_rate(l, i) {
            Some(rate) => match task.kind {
                TaskKind::Dig { sequence } => N::of_whole(0).below(rate.dig_tph) && exists|k: int|
                    0 <= k < sequence@.len() && self.block_left(state, #[trigger] sequence@[k]),
                TaskKind::Reclaim { approved_sources, maximum_t } => {
                    &&& !rate.reclaim_tph.at_most(N::of_whole(0))
                    &&& match maximum_t {
                        Some(maximum) => !maximum.minus(replay_tolerance()).at_most(amount(state.spent, t)),
                        None => true,
                    }
                    &&& exists|k: int|
                        0 <= k < approved_sources@.len() && replay_tolerance::<N>().below(
                            amount(openings, Pair(#[trigger] approved_sources@[k], index)),
                        )
                },
            },
            None => false,
        }
    }

    pub open spec fn ready_at(
        self,
        openings: Seq<(Pair<StockpileId, usize>, N)>,
        state: BarState<N>,
        l: int,
        i: int,
    ) -> spec_fn(int) -> bool {
        |b: int| self.ready(openings, state, l, i, self.bars(l)[b])
    }

    /// The place of the first task with work.
    pub open spec fn highest(
        self,
        openings: Seq<(Pair<StockpileId, usize>, N)>,
        state: BarState<N>,
        l: int,
        i: int,
    ) -> Option<int> {
        first_where(0, self.bars(l).len() as int, self.ready_at(openings, state, l, i))
    }

    pub open spec fn bar_works(self, l: int, m: int) -> spec_fn(int) -> bool {
        |b: int| authorises(self.input.tasks@[self.bars(l)[b] as int], self.candidate(m))
    }

    /// Row `m` is a movement of loader `l` in segment `s` of interval `i`.
    pub open spec fn bar_row(self, l: int, i: int, s: int, m: int) -> bool {
        self.row(m).interval == self.input.intervals@[i].index && self.row(m).segment == s && !self.row(
            m,
        ).tonnes_t.at_most(replay_tolerance()) && self.known(m) && self.candidate(m).loader == self.input.loaders@[l].id
    }

    pub open spec fn bar_issue(self, highest: Option<int>, l: int, i: int, s: int) -> spec_fn(BarState<N>, int) -> BarState<
        N,
    > {
        |state: BarState<N>, m: int|
            {
                let bars = self.bars(l);
                let loader = self.input.loaders@[l].id;
                let interval = self.input.intervals@[i].index;
                match first_where(0, bars.len() as int, self.bar_works(l, m)) {
                    Some(worked) => if !self.bar_row(l, i, s, m) {
                        state
                    } else {
                        match highest {
                            None => BarState {
                                issues: state.issues.push(
                                    ReplayIssue::NoBarWork {
                                        loader,
                                        tonnes: self.row(m).tonnes_t,
                                        interval,
                                        segment: s as usize,
                                    },
                                ),
                                ..state
                            },
                            Some(expected) => if self.bar_works(l, m)(expected) {
                                state
                            } else {
                                BarState {
                                    issues: state.issues.push(
                                        ReplayIssue::PriorityBroken {
                                            loader,
                                            worked: self.input.tasks@[bars[worked] as int].id,
                                            interval,
                                            segment: s as usize,
                                            expected: self.input.tasks@[bars[expected] as int].id,
                                        },
                                    ),
                                    ..state
                                }
                            },
                        }
                    },
                    None => state,
                }
            }
    }

    pub open spec fn spend_step(self, l: int, m: int) -> spec_fn(BarState<N>, int) -> BarState<N> {
        |state: BarState<N>, b: int|
            if self.bar_works(l, m)(b) {
                BarState { spent: raised_by(state.spent, self.bars(l)[b], self.row(m).tonnes_t), ..state }
            } else {
                state
            }
    }

    pub open spec fn work_step(self, l: int, i: int, s: int) -> spec_fn(BarState<N>, int) -> BarState<N> {
        |state: BarState<N>, m: int|
            if self.row(m).interval == self.input.intervals@[i].index && self.row(m).segment == s && self.known(m) {
                let candidate = self.candidate(m);
                let dug = match candidate.source {
                    SourceId::Ground(ground) => match held_under(state.remaining, ground.0 as u64) {
                        Some(left) => if candidate.activity is Dig {
                            BarState {
                                remaining: put_under(
                                    state.remaining,
                                    ground.0 as u64,
                                    left.minus(self.row(m).tonnes_t),
                                ),
                                ..state
                            }
                        } else {
                            state
                        },
                        None => state,
                    },
                    SourceId::Stockpile(_) => state,
                };
                if candidate.loader == self.input.loaders@[l].id && candidate.activity is Reclaim {
                    folded(self.bars(l).len(), dug, self.spend_step(l, m))
                } else {
                    dug
                }
            } else {
                state
            }
    }

    pub open spec fn bar_segment(self, openings: Seq<(Pair<StockpileId, usize>, N)>, l: int, i: int) -> spec_fn(
        BarState<N>,
        int,
    ) -> BarState<N> {
        |state: BarState<N>, s: int|
            folded(
                self.rows(),
                folded(self.rows(), state, self.bar_issue(self.highest(openings, state, l, i), l, i, s)),
                self.work_step(l, i, s),
            )
    }

    pub open spec fn bar_interval(self, openings: Seq<(Pair<StockpileId, usize>, N)>, l: int) -> spec_fn(
        BarState<N>,
        int,
    ) -> BarState<N> {
        |state: BarState<N>, i: int| folded(self.segments_spec(), state, self.bar_segment(openings, l, i))
    }

    /// What is wrong with the order loader `l` works in, after what was found before.
    pub open spec fn bar_loader(self, openings: Seq<(Pair<StockpileId, usize>, N)>) -> spec_fn(
        Seq<ReplayIssue<N>>,
        int,
    ) -> Seq<ReplayIssue<N>> {
        |issues: Seq<ReplayIssue<N>>, l: int|
            if self.bars(l).len() < 2 {
                issues
            } else {
                folded(
                    self.horizon(),
                    BarState {
                        issues,
                        remaining: folded(self.input.ground@.len(), Seq::empty(), full_ground(self.input.ground@)),
                        spent: folded(self.bars(l).len(), Seq::empty(), unspent(self.bars(l))),
                    },
                    self.bar_interval(openings, l),
                ).issues
            }
    }

    /// The issues with those of the order of tasks added.
    pub open spec fn after_bars(
        self,
        issues: Seq<ReplayIssue<N>>,
        openings: Seq<(Pair<StockpileId, usize>, N)>,
    ) -> Seq<ReplayIssue<N>> {
        folded(self.input.loaders@.len(), issues, self.bar_loader(openings))
    }

    fn find_bar_rate(&self, l: usize, i: usize) -> (r: Option<IntervalRate<N>>)
        requires
            l < self.input.loaders@.len(),
            i < self.input.intervals@.len(),
        ensures
            r == self.bar_rate(l as int, i as int),
    {
        match find_key(&self.input.loaders, self.input.loaders[l].id.0) {
            Some(first) => interval_rate(&self.input.loaders[first], self.input.intervals[i].index),
            None => None,
        }
    }

    fn is_ready(
        &self,
        openings: &Ledger<Pair<StockpileId, usize>, N>,
        books: &BarBooks<N>,
        l: usize,
        i: usize,
        t: usize,
    ) -> (r: bool)
        requires
            l < self.input.loaders@.len(),
            i < self.input.intervals@.len(),
            t < self.input.tasks@.len(),
        ensures
            r == self.ready(openings@, books@, l as int, i as int, t),
    {
        let task = &self.input.tasks[t];
        let interval = self.input.intervals[i];
        if !covers(task, interval) {
            return false;
        }
        let rate = match self.find_bar_rate(l, i) {
            Some(rate) => rate,
            None => {
                return false;
            },
        };
        match &task.kind {
            TaskKind::Dig { sequence } => {
                if !N::whole(0).is_below(rate.dig_tph) {
                    return false;
                }
                for k in 0..sequence.len()
                    invariant
                        l < self.input.loaders@.len(),
                        i < self.input.intervals@.len(),
                        t < self.input.tasks@.len(),
                        task == self.input.tasks@[t as int],
                        task.kind == (TaskKind::<N>::Dig { sequence: *sequence }),
                        interval == self.input.intervals@[i as int],
                        in_window(*task, interval),
                        self.bar_rate(l as int, i as int) == Some(rate),
                        N::of_whole(0).below(rate.dig_tph),
                        forall|q: int| 0 <= q < k ==> !self.block_left(books@, #[trigger] sequence@[q]),
                {
                    if tolerance::<N>().is_below(books.remaining.amount(sequence[k].0 as u64)) {
                        assert(self.block_left(books@, self.input.tasks@[t as int].kind->sequence@[k as int]));
                        return true;
                    }
                }
                false
            },
            TaskKind::Reclaim { approved_sources, maximum_t } => {
                if rate.reclaim_tph.is_at_most(N::whole(0)) {
                    return false;
                }
                if let Some(maximum) = maximum_t {
                    if maximum.sub(tolerance()).is_at_most(books.spent.amount(t)) {
                        return false;
                    }
                }
                for k in 0..approved_sources.len()
                    invariant
                        l < self.input.loaders@.len(),
                        i < self.input.intervals@.len(),
                        t < self.input.tasks@.len(),
                        task == self.input.tasks@[t as int],
                        task.kind == (TaskKind::Reclaim { approved_sources: *approved_sources, maximum_t: *maximum_t }),
                        interval == self.input.intervals@[i as int],
                        in_window(*task, interval),
                        self.bar_rate(l as int, i as int) == Some(rate),
                        !rate.reclaim_tph.at_most(N::of_whole(0)),
                        match *maximum_t {
                            Some(maximum) => !maximum.minus(replay_tolerance()).at_most(amount(books@.spent, t)),
                            None => true,
                        },
                        forall|q: int|
                            0 <= q < k ==> !replay_tolerance::<N>().below(
                                amount(openings@, Pair(#[trigger] approved_sources@[q], interval.index)),
                            ),
                {
                    if tolerance::<N>().is_below(openings.amount(Pair(approved_sources[k], interval.index))) {
                        assert(replay_tolerance::<N>().below(
                            amount(
                                openings@,
                                Pair(self.input.tasks@[t as int].kind->approved_sources@[k as int], interval.index),
                            ),
                        ));
                        return true;
                    }
                }
                false
            },
        }
    }

    fn find_highest(
        &self,
        openings: &Ledger<Pair<StockpileId, usize>, N>,
        books: &BarBooks<N>,
        l: usize,
        i: usize,
        bars: &Vec<usize>,
    ) -> (r: Option<usize>)
        requires
            l < self.input.loaders@.len(),
            i < self.input.intervals@.len(),
            bars@ == self.bars(l as int),
            forall|q: int| 0 <= q < bars@.len() ==> (#[trigger] bars@[q]) < self.input.tasks@.len(),
        ensures
            r matches Some(b) ==> b < bars@.len() && self.highest(openings@, books@, l as int, i as int) == Some(b as int),
            r is None ==> self.highest(openings@, books@, l as int, i as int) is None,
    {
        let ghost wanted = self.ready_at(openings@, books@, l as int, i as int);
        let ghost n = bars@.len() as int;
        for b in 0..bars.len()
            invariant
                l < self.input.loaders@.len(),
                i < self.input.intervals@.len(),
                bars@ == self.bars(l as int),
                n == bars@.len(),
                forall|q: int| 0 <= q < bars@.len() ==> (#[trigger] bars@[q]) < self.input.tasks@.len(),
                wanted == self.ready_at(openings@, books@, l as int, i as int),
                first_where(0, n, wanted) == first_where(b as int, n, wanted),
        {
            if self.is_ready(openings, books, l, i, bars[b]) {
                assert(wanted(b as int));
                return Some(b);
            }
        }
        None
    }

    fn does_bar_work(&self, l: usize, m: usize, bars: &Vec<usize>, b: usize) -> (r: bool)
        requires
            l < self.input.loaders@.len(),
            m < self.rows(),
            self.known(m as int),
            bars@ == self.bars(l as int),
            b < bars@.len(),
            bars@[b as int] < self.input.tasks@.len(),
        ensures
            r == self.bar_works(l as int, m as int)(b as int),
    {
        task_authorises(&self.input.tasks[bars[b]], &self.input.movements[self.solution.movements[m].candidate])
    }

    fn check_bar_row(
        &self,
        books: &mut BarBooks<N>,
        highest: Option<usize>,
        l: usize,
        i: usize,
        s: usize,
        bars: &Vec<usize>,
        m: usize,
    )
        requires
            l < self.input.loaders@.len(),
            i < self.input.intervals@.len(),
            m < self.rows(),
            bars@ == self.bars(l as int),
            forall|q: int| 0 <= q < bars@.len() ==> (#[trigger] bars@[q]) < self.input.tasks@.len(),
            highest matches Some(b) ==> b < bars@.len(),
        ensures
            final(books)@ == self.bar_issue(
                (match highest {
                    Some(b) => Some(b as int),
                    None => None,
                }),
                l as int,
                i as int,
                s as int,
            )(old(books)@, m as int),
    {
        let row = self.solution.movements[m];
        let interval: usize = self.input.intervals[i].index;
        let loader = self.input.loaders[l].id;
        if !(row.interval == interval && row.segment == s && !row.tonnes_t.is_at_most(tolerance()) && row.candidate
            < self.input.movements.len() && self.input.movements[row.candidate].loader == loader) {
            return;
        }
        let ghost wanted = self.bar_works(l as int, m as int);
        let ghost n = bars@.len() as int;
        let mut worked: usize = 0;
        while worked < bars.len() && !self.does_bar_work(l, m, bars, worked)
            invariant
                l < self.input.loaders@.len(),
                m < self.rows(),
                self.known(m as int),
                bars@ == self.bars(l as int),
                n == bars@.len(),
                worked <= n,
                forall|q: int| 0 <= q < bars@.len() ==> (#[trigger] bars@[q]) < self.input.tasks@.len(),
                wanted == self.bar_works(l as int, m as int),
                first_where(0, n, wanted) == first_where(worked as int, n, wanted),
            decreases n - worked,
        {
            worked = worked + 1;
        }
        if worked >= bars.len() {
            return;
        }
        assert(wanted(worked as int));
        match highest {
            None => books.issues.push(
                ReplayIssue::NoBarWork { loader, tonnes: row.tonnes_t, interval, segment: s },
            ),
            Some(expected) => if !self.does_bar_work(l, m, bars, expected) {
                books.issues.push(
                    ReplayIssue::PriorityBroken {
                        loader,
                        worked: self.input.tasks[bars[worked]].id,
                        interval,
                        segment: s,
                        expected: self.input.tasks[bars[expected]].id,
                    },
                );
            },
        }
    }

    fn do_bar_work(&self, books: &mut BarBooks<N>, l: usize, i: usize, s: usize, bars: &Vec<usize>, m: usize)
        requires
            l < self.input.loaders@.len(),
            i < self.input.intervals@.len(),
            m < self.rows(),
            bars@ == self.bars(l as int),
            forall|q: int| 0 <= q < bars@.len() ==> (#[trigger] bars@[q]) < self.input.tasks@.len(),
        ensures
            final(books)@ == self.work_step(l as int, i as int, s as int)(old(books)@, m as int),
    {
        let row = self.solution.movements[m];
        if !(row.interval == self.input.intervals[i].index && row.segment == s && row.candidate
            < self.input.movements.len()) {
            return;
        }
        let candidate = &self.input.movements[row.candidate];
        if let SourceId::Ground(ground) = candidate.source {
            if candidate.activity == Activity::Dig {
                if let Some(left) = books.remaining.get(ground.0 as u64) {
                    books.remaining.put(ground.0 as u64, left.sub(row.tonnes_t));
                }
            }
        }
        let ghost dug = books@;
        if candidate.loader == self.input.loaders[l].id && candidate.activity == Activity::Reclaim {
            for b in 0..bars.len()
                invariant
                    l < self.input.loaders@.len(),
                    m < self.rows(),
                    self.known(m as int),
                    row == self.row(m as int),
                    bars@ == self.bars(l as int),
                    forall|q: int| 0 <= q < bars@.len() ==> (#[trigger] bars@[q]) < self.input.tasks@.len(),
                    books@ == folded(b as nat, dug, self.spend_step(l as int, m as int)),
            {
                if self.does_bar_work(l, m, bars, b) {
                    books.spent.raise(bars[b], row.tonnes_t);
                }
            }
        }
    }

    fn check_bar_segment(
        &self,
        books: &mut BarBooks<N>,
        openings: &Ledger<Pair<StockpileId, usize>, N>,
        l: usize,
        i: usize,
        s: usize,
        bars: &Vec<usize>,
    )
        requires
            l < self.input.loaders@.len(),
            i < self.input.intervals@.len(),
            bars@ == self.bars(l as int),
            forall|q: int| 0 <= q < bars@.len() ==> (#[trigger] bars@[q]) < self.input.tasks@.len(),
        ensures
            final(books)@ == self.bar_segment(openings@, l as int, i as int)(old(books)@, s as int),
    {
        let ghost start = books@;
        let highest: Option<usize> = self.find_highest(openings, books, l, i, bars);
        let ghost place = self.highest(openings@, start, l as int, i as int);
        for m in 0..self.solution.movements.len()
            invariant
                l < self.input.loaders@.len(),
                i < self.input.intervals@.len(),
                bars@ == self.bars(l as int),
                forall|q: int| 0 <= q < bars@.len() ==> (#[trigger] bars@[q]) < self.input.tasks@.len(),
                highest matches Some(b) ==> b < bars@.len() && place == Some(b as int),
                highest is None ==> place is None,
                books@ == folded(m as nat, start, self.bar_issue(place, l as int, i as int, s as int)),
        {
            self.check_bar_row(books, highest, l, i, s, bars, m);
        }
        let ghost middle = books@;
        for m in 0..self.solution.movements.len()
            invariant
                l < self.input.loaders@.len(),
                i < self.input.intervals@.len(),
                bars@ == self.bars(l as int),
                forall|q: int| 0 <= q < bars@.len() ==> (#[trigger] bars@[q]) < self.input.tasks@.len(),
                books@ == folded(m as nat, middle, self.work_step(l as int, i as int, s as int)),
        {
            self.do_bar_work(books, l, i, s, bars, m);
        }
    }

    fn check_bar_loader(
        &self,
        issues: Vec<ReplayIssue<N>>,
        openings: &Ledger<Pair<StockpileId, usize>, N>,
        l: usize,
    ) -> (r: Vec<ReplayIssue<N>>)
        requires
            l < self.input.loaders@.len(),
            windows_compare(self.input.tasks@),
        ensures
            r@ == self.bar_loader(openings@)(issues@, l as int),
    {
        let bars = authored_order(&self.input.tasks, self.input.loaders[l].id);
        if bars.len() < 2 {
            return issues;
        }
        let ghost found = issues@;
        let mut books = BarBooks { issues, remaining: Ledger::new(), spent: Ledger::new() };
        let ground = &self.input.ground;
        for g in 0..ground.len()
            invariant
                ground == self.input.ground,
                books.issues@ == found,
                books.spent@ == Seq::<(usize, N)>::empty(),
                books.remaining@ == folded(g as nat, Seq::<(u64, N)>::empty(), full_ground(ground@)),
        {
            books.remaining.put(ground[g].id.0 as u64, ground[g].tonnes_t);
        }
        for b in 0..bars.len()
            invariant
                books.issues@ == found,
                books.remaining@ == folded(ground@.len(), Seq::<(u64, N)>::empty(), full_ground(ground@)),
                books.spent@ == folded(b as nat, Seq::<(usize, N)>::empty(), unspent(bars@)),
        {
            books.spent.put(bars[b], N::whole(0));
        }
        let ghost start = books@;
        let segments: usize = self.segments();
        for i in 0..self.input.intervals.len()
            invariant
                l < self.input.loaders@.len(),
                bars@ == self.bars(l as int),
                forall|q: int| 0 <= q < bars@.len() ==> (#[trigger] bars@[q]) < self.input.tasks@.len(),
                segments == self.segments_spec(),
                books@ == folded(i as nat, start, self.bar_interval(openings@, l as int)),
        {
            let ghost before = books@;
            for s in 0..segments
                invariant
                    l < self.input.loaders@.len(),
                    i < self.input.intervals@.len(),
                    bars@ == self.bars(l as int),
                    forall|q: int| 0 <= q < bars@.len() ==> (#[trigger] bars@[q]) < self.input.tasks@.len(),
                    books@ == folded(s as nat, before, self.bar_segment(openings@, l as int, i as int)),
            {
                self.check_bar_segment(&mut books, openings, l, i, s, &bars);
            }
        }
        books.issues
    }

    /// Finds work done out of the authored order, after what was found before.
    pub fn check_bar_priority(
        &self,
        issues: Vec<ReplayIssue<N>>,
        openings: &Ledger<Pair<StockpileId, usize>, N>,
    ) -> (r: Vec<ReplayIssue<N>>)
        requires
            windows_compare(self.input.tasks@),
        ensures
            r@ == self.after_bars(issues@, openings@),
    {
        let ghost start = issues@;
        let mut found = issues;
        for l in 0..self.input.loaders.len()
            invariant
                windows_compare(self.input.tasks@),
                found@ == folded(l as nat, start, self.bar_loader(openings@)),
        {
            found = self.check_bar_loader(found, openings, l);
        }
        found
    }
}

} // verus!
