//! Replaying the order of blocks within a dig task: a block is left alone while
//! an earlier one of its task holds anything.
use vstd::prelude::*;

use crate::listing::{find_last_key, first_where, folded, last_keyed, sum_to};
use crate::optimisation::blended::report::{replay_tolerance, tolerance, ReplayIssue};
use crate::optimisation::blended::totals::Replay;
use crate::optimisation::ids::{Activity, GroundId, SourceId};
use crate::optimisation::input::TaskKind;
use crate::scalar::Scalar;

verus! {

impl<'a, N: Scalar> Replay<'a, N> {
    /// Row `b` is of an earlier cell than row `m`.
    pub open spec fn before_row(self, b: int, m: int) -> bool {
        self.row(b).interval < self.row(m).interval || self.row(b).interval == self.row(m).interval && self.row(
            b,
        ).segment < self.row(m).segment
    }

    /// Row `m` digs a block.
    pub open spec fn digs_block(self, m: int, ground: GroundId) -> bool {
        self.known(m) && self.candidate(m).activity is Dig && self.candidate(m).source == SourceId::Ground(ground)
    }

    pub open spec fn dug_before(self, ground: GroundId, m: int) -> spec_fn(int) -> Option<N> {
        |b: int|
            if self.digs_block(b, ground) && self.before_row(b, m) {
                Some(self.row(b).tonnes_t)
            } else {
                None
            }
    }

    /// A block of the input holds something at the start of the cell of row `m`.
    pub open spec fn holds_before(self, ground: GroundId, m: int) -> bool {
        match last_keyed(self.input.ground@, ground.0) {
            Some(g) => replay_tolerance::<N>().below(
                self.input.ground@[g].tonnes_t.minus(sum_to(self.rows(), self.dug_before(ground, m))),
            ),
            None => false,
        }
    }

    /// A block comes later in a sequence.
    pub open spec fn comes_after(self, sequence: Seq<GroundId>, ground: GroundId, y: int) -> bool {
        exists|x: int| y < x < sequence.len() && #[trigger] sequence[x] == ground
    }

    /// Place `y` of a sequence is one that row `m` passes over: its block comes
    /// before the one that is dug, and holds something.
    pub open spec fn passed_over(self, sequence: Seq<GroundId>, ground: GroundId, m: int) -> spec_fn(int) -> bool {
        |y: int|
            sequence[y] != ground && self.comes_after(sequence, ground, y) && self.holds_before(sequence[y], m)
    }

    /// Row `m` digs something for the loader of task `t`.
    pub open spec fn dig_row(self, m: int, t: int) -> bool {
        &&& self.known(m)
        &&& self.candidate(m).activity is Dig
        &&& self.candidate(m).source is Ground
        &&& self.candidate(m).loader == self.input.tasks@[t].loader
        &&& self.input.tasks@[t].kind is Dig
        &&& !self.row(m).tonnes_t.at_most(replay_tolerance())
    }

    pub open spec fn order_task(self, m: int) -> spec_fn(Seq<ReplayIssue<N>>, int) -> Seq<ReplayIssue<N>> {
        |issues: Seq<ReplayIssue<N>>, t: int|
            if self.dig_row(m, t) {
                let sequence = self.input.tasks@[t].kind->sequence@;
                let ground = self.candidate(m).source->Ground_0;
                match first_where(0, sequence.len() as int, self.passed_over(sequence, ground, m)) {
                    Some(y) => issues.push(
                        ReplayIssue::SequenceBroken {
                            task: self.input.tasks@[t].id,
                            ground,
                            earlier: sequence[y],
                            interval: self.row(m).interval,
                            segment: self.row(m).segment,
                        },
                    ),
                    None => issues,
                }
            } else {
                issues
            }
    }

    pub open spec fn order_row(self) -> spec_fn(Seq<ReplayIssue<N>>, int) -> Seq<ReplayIssue<N>> {
        |issues: Seq<ReplayIssue<N>>, m: int| folded(self.input.tasks@.len(), issues, self.order_task(m))
    }

    /// The issues with those of the order of blocks added.
    pub open spec fn after_order(self, issues: Seq<ReplayIssue<N>>) -> Seq<ReplayIssue<N>> {
        folded(self.rows(), issues, self.order_row())
    }

    fn does_hold_before(&self, ground: GroundId, m: usize) -> (r: bool)
        requires
            m < self.rows(),
        ensures
            r == self.holds_before(ground, m as int),
    {
        match find_last_key(&self.input.ground, ground.0) {
            Some(g) => {
                let here = self.solution.movements[m];
                let mut dug = N::whole(0);
                for b in 0..self.solution.movements.len()
                    invariant
                        m < self.rows(),
                        here == self.row(m as int),
                        dug == sum_to(b as nat, self.dug_before(ground, m as int)),
                {
                    let row = self.solution.movements[b];
                    if row.candidate < self.input.movements.len() {
                        let candidate = &self.input.movements[row.candidate];
                        if candidate.activity == Activity::Dig && candidate.source == SourceId::Ground(ground) && (
                        row.interval < here.interval || row.interval == here.interval && row.segment < here.segment) {
                            dug = dug.add(row.tonnes_t);
                        }
                    }
                }
                tolerance::<N>().is_below(self.input.ground[g].tonnes_t.sub(dug))
            },
            None => false,
        }
    }

    fn does_come_after(&self, sequence: &Vec<GroundId>, ground: GroundId, y: usize) -> (r: bool)
        requires
            y < sequence@.len(),
        ensures
            r == self.comes_after(sequence@, ground, y as int),
    {
        for x in y + 1..sequence.len()
            invariant
                y < x,
                forall|q: int| y < q < x ==> #[trigger] sequence@[q] != ground,
        {
            if sequence[x] == ground {
                assert(sequence@[x as int] == ground);
                return true;
            }
        }
        false
    }

    fn check_order_task(&self, issues: &mut Vec<ReplayIssue<N>>, m: usize, t: usize)
        requires
            m < self.rows(),
            t < self.input.tasks@.len(),
        ensures
            final(issues)@ == self.order_task(m as int)(old(issues)@, t as int),
    {
        let row = self.solution.movements[m];
        let task = &self.input.tasks[t];
        if row.candidate >= self.input.movements.len() || row.tonnes_t.is_at_most(tolerance()) {
            return ;
        }
        let candidate = &self.input.movements[row.candidate];
        if candidate.activity != Activity::Dig || candidate.loader != task.loader {
            return ;
        }
        let ground = match candidate.source {
            SourceId::Ground(ground) => ground,
            SourceId::Stockpile(_) => {
                return ;
            },
        };
        match &task.kind {
            TaskKind::Dig { sequence } => {
                let ghost wanted = self.passed_over(sequence@, ground, m as int);
                let ghost n = sequence@.len() as int;
                for y in 0..sequence.len()
                    invariant
                        m < self.rows(),
                        t < self.input.tasks@.len(),
                        row == self.row(m as int),
                        task == self.input.tasks@[t as int],
                        task.kind == (TaskKind::<N>::Dig { sequence: *sequence }),
                        self.dig_row(m as int, t as int),
                        ground == self.candidate(m as int).source->Ground_0,
                        n == sequence@.len(),
                        wanted == self.passed_over(sequence@, ground, m as int),
                        first_where(0, n, wanted) == first_where(y as int, n, wanted),
                        issues@ == old(issues)@,
                {
                    if sequence[y] != ground && self.does_come_after(sequence, ground, y) && self.does_hold_before(
                        sequence[y],
                        m,
                    ) {
                        assert(wanted(y as int));
                        issues.push(
                            ReplayIssue::SequenceBroken {
                                task: task.id,
                                ground,
                                earlier: sequence[y],
                                interval: row.interval,
                                segment: row.segment,
                            },
                        );
                        return ;
                    }
                }
            },
            TaskKind::Reclaim { approved_sources: _, maximum_t: _ } => {},
        }
    }

    /// Checks that no block is dug while an earlier one of its task holds
    /// anything.
    pub fn check_block_order(&self, issues: Vec<ReplayIssue<N>>) -> (r: Vec<ReplayIssue<N>>)
        ensures
            r@ == self.after_order(issues@),
    {
        let mut out = issues;
        let ghost start = out@;
        let ghost each = self.order_row();
        for m in 0..self.solution.movements.len()
            invariant
                each == self.order_row(),
                out@ == folded(m as nat, start, each),
        {
            let ghost before = out@;
            let ghost step = self.order_task(m as int);
            for t in 0..self.input.tasks.len()
                invariant
                    m < self.rows(),
                    step == self.order_task(m as int),
                    out@ == folded(t as nat, before, step),
            {
                self.check_order_task(&mut out, m, t);
            }
            assert(out@ == each(before, m as int));
        }
        out
    }
}

} // verus!
