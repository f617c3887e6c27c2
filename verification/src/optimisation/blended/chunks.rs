//! Replaying the chunks of blended piles: what each holds, and the order they
//! are filled, closed and drawn down in.
use vstd::prelude::*;

use crate::ledger::{amount, lowered_by, put_under, raised_by, Ledger, Pair};
use crate::listing::{first_where, folded};
use crate::optimisation::blended::input::BlendPile;
use crate::optimisation::blended::report::{
    replay_tolerance, tolerance, BlendKey, Books, ChunkRow, Label, ReplayIssue, ReplayState,
};
use crate::optimisation::blended::totals::Replay;
use crate::optimisation::ids::ReclaimOrder;
use crate::scalar::Scalar;

verus! {

/// The number of a chunk and interval among those of a pile.
pub open spec fn chunk_number(chunk: int, interval: int, horizon: int) -> int {
    chunk * (if horizon < 1 {
        1
    } else {
        horizon
    }) + interval
}

/// Numbers the chunks and intervals of a pile in one row.
pub fn chunk_key(chunk: usize, interval: usize, horizon: usize) -> (r: usize)
    requires
        chunk_number(chunk as int, interval as int, horizon as int) <= usize::MAX,
    ensures
        r == chunk_number(chunk as int, interval as int, horizon as int),
{
    let row: usize = if horizon < 1 {
        1
    } else {
        horizon
    };
    proof {
        assert(0 <= chunk * row) by (nonlinear_arith);
    }
    chunk * row + interval
}

/// Different chunks and intervals within the horizon have different numbers.
pub proof fn chunk_numbers_differ(chunk: int, interval: int, other_chunk: int, other_interval: int, horizon: int)
    requires
        0 <= chunk,
        0 <= other_chunk,
        0 <= interval < horizon,
        0 <= other_interval < horizon,
        chunk_number(chunk, interval, horizon) == chunk_number(other_chunk, other_interval, horizon),
    ensures
        chunk == other_chunk && interval == other_interval,
{
    crate::optimisation::blended::input::cells_differ(
        chunk as nat,
        interval as nat,
        other_chunk as nat,
        other_interval as nat,
        horizon as nat,
    );
}

/// Every number of a chunk and interval fits.
pub open spec fn chunks_fit(count: nat, horizon: nat) -> bool {
    count * horizon <= usize::MAX && count <= usize::MAX
}

pub proof fn number_fits(chunk: int, interval: int, count: nat, horizon: nat)
    requires
        chunks_fit(count, horizon),
        0 <= chunk < count,
        0 <= interval < horizon,
    ensures
        0 <= chunk_number(chunk, interval, horizon as int) <= usize::MAX,
{
    assert(chunk * horizon + interval <= count * horizon) by (nonlinear_arith)
        requires
            0 <= chunk < count,
            0 <= interval < horizon,
    ;
    assert(0 <= chunk * horizon) by (nonlinear_arith)
        requires
            0 <= chunk,
            0 <= horizon,
    ;
}

pub open spec fn widest_to<N: Scalar>(chunks: Seq<N>, n: nat) -> N
    decreases n,
{
    if n == 0 {
        N::of_whole(0)
    } else {
        widest_to(chunks, (n - 1) as nat).upper(chunks[n - 1])
    }
}

/// What an indicator that is off by a little can hide in a chunk.
pub open spec fn chunk_dust<N: Scalar>(chunks: Seq<N>) -> N {
    widest_to(chunks, chunks.len()).times(N::of_decimal(1, 6)).times(N::of_whole(10)).upper(replay_tolerance())
}

fn find_chunk_dust<N: Scalar>(chunks: &Vec<N>) -> (r: N)
    ensures
        r == chunk_dust(chunks@),
{
    let mut widest = N::whole(0);
    for c in 0..chunks.len()
        invariant
            widest == widest_to(chunks@, c as nat),
    {
        widest = widest.larger(chunks[c]);
    }
    widest.mul(N::decimal(1, 6)).mul(N::whole(10)).larger(tolerance())
}

pub open spec fn key_of<N>(pile: BlendPile<N>, key: int, grade: int) -> BlendKey {
    Pair(pile.id, Pair(key as usize, grade as usize))
}

impl<'a, N: Scalar> Replay<'a, N> {
    pub open spec fn grade_count(self) -> nat {
        self.input.grades.fields@.len()
    }

    pub open spec fn horizon(self) -> nat {
        self.input.intervals@.len()
    }

    // What the chunks of a pile hold at the start.

    /// How many chunks have an opening: those that are given one, or else the
    /// first, which then holds all that the pile does.
    pub open spec fn openings(self, p: int) -> nat {
        if self.input.piles@[p].chunk_opening@.len() == 0 {
            1
        } else {
            self.input.piles@[p].chunk_opening@.len()
        }
    }

    pub open spec fn opening_tonnes_in(self, p: int, c: int) -> N {
        if self.input.piles@[p].chunk_opening@.len() == 0 {
            self.input.piles@[p].opening_t
        } else {
            self.input.piles@[p].chunk_opening@[c].0
        }
    }

    pub open spec fn opening_list(self, p: int, c: int) -> Seq<N> {
        if self.input.piles@[p].chunk_opening@.len() == 0 {
            self.input.piles@[p].opening_q@
        } else {
            self.input.piles@[p].chunk_opening@[c].1@
        }
    }

    pub open spec fn opening_grades(self, p: int, c: int) -> nat {
        let q = self.opening_list(p, c).len();
        if q < self.grade_count() {
            q
        } else {
            self.grade_count()
        }
    }

    pub open spec fn opening_grade(self, p: int, c: int) -> spec_fn(
        Seq<(Pair<usize, usize>, N)>,
        int,
    ) -> Seq<(Pair<usize, usize>, N)> {
        |held: Seq<(Pair<usize, usize>, N)>, g: int|
            put_under(held, Pair(c as usize, g as usize), self.opening_list(p, c)[g])
    }

    pub open spec fn opening_chunk(self, p: int) -> spec_fn(ReplayState<N>, int) -> ReplayState<N> {
        |st: ReplayState<N>, c: int|
            ReplayState {
                held_t: put_under(st.held_t, c as usize, self.opening_tonnes_in(p, c)),
                held_q: folded(self.opening_grades(p, c), st.held_q, self.opening_grade(p, c)),
                ..st
            }
    }

    /// The books with the chunks of pile `p` as they are at the start.
    pub open spec fn chunks_opened(self, st: ReplayState<N>, p: int) -> ReplayState<N> {
        let pile = self.input.piles@[p];
        folded(
            self.openings(p),
            ReplayState {
                held_t: Seq::empty(),
                held_q: Seq::empty(),
                dust_threshold: st.dust_threshold.upper(chunk_dust(pile.chunks@)),
                ..st
            },
            self.opening_chunk(p),
        )
    }

    fn open_chunk(&self, books: &mut Books<N>, p: usize, c: usize, tonnes: N, contained: &Vec<N>)
        requires
            p < self.input.piles@.len(),
            tonnes == self.opening_tonnes_in(p as int, c as int),
            contained@ == self.opening_list(p as int, c as int),
        ensures
            final(books)@ == self.opening_chunk(p as int)(old(books)@, c as int),
    {
        let grades: usize = self.input.grades.count();
        books.held_t.put(c, tonnes);
        let known: usize = if contained.len() < grades {
            contained.len()
        } else {
            grades
        };
        let ghost before = books@;
        for g in 0..known
            invariant
                p < self.input.piles@.len(),
                contained@ == self.opening_list(p as int, c as int),
                known <= contained@.len(),
                books@ == (ReplayState {
                    held_q: folded(g as nat, before.held_q, self.opening_grade(p as int, c as int)),
                    ..before
                }),
        {
            books.held_q.put(Pair(c, g), contained[g]);
        }
    }

    fn open_chunks(&self, books: &mut Books<N>, p: usize)
        requires
            p < self.input.piles@.len(),
        ensures
            final(books)@ == self.chunks_opened(old(books)@, p as int),
    {
        let pile = &self.input.piles[p];
        books.held_t = Ledger::new();
        books.held_q = Ledger::new();
        books.dust_threshold = books.dust_threshold.larger(find_chunk_dust(&pile.chunks));
        let ghost start = books@;
        let ghost step = self.opening_chunk(p as int);
        if pile.chunk_opening.len() == 0 {
            self.open_chunk(books, p, 0, pile.opening_t, &pile.opening_q);
            assert(folded(0, start, step) == start);
            assert(folded(1, start, step) == step(folded(0, start, step), 0));
            return ;
        }
        for c in 0..pile.chunk_opening.len()
            invariant
                p < self.input.piles@.len(),
                pile == self.input.piles@[p as int],
                pile.chunk_opening@.len() > 0,
                step == self.opening_chunk(p as int),
                books@ == folded(c as nat, start, step),
        {
            self.open_chunk(books, p, c, pile.chunk_opening[c].0, &pile.chunk_opening[c].1);
        }
    }

    // What the chunks hold as the solution goes on.

    pub open spec fn row_is(self, p: int, chunk: int, interval: int) -> spec_fn(int) -> bool {
        |k: int|
            {
                let row = self.solution.chunks@[k];
                row.pile == self.input.piles@[p].id && row.chunk == chunk && row.interval == interval
            }
    }

    /// The row of a chunk in an interval.
    pub open spec fn chunk_row(self, p: int, chunk: int, interval: int) -> Option<int> {
        first_where(0, self.solution.chunks@.len() as int, self.row_is(p, chunk, interval))
    }

    fn find_chunk_row(&self, p: usize, chunk: usize, interval: usize) -> (r: Option<usize>)
        requires
            p < self.input.piles@.len(),
        ensures
            r matches Some(k) ==> k < self.solution.chunks@.len() && self.chunk_row(
                p as int,
                chunk as int,
                interval as int,
            ) == Some(k as int),
            r is None ==> self.chunk_row(p as int, chunk as int, interval as int) is None,
    {
        let ghost wanted = self.row_is(p as int, chunk as int, interval as int);
        let ghost n = self.solution.chunks@.len() as int;
        for k in 0..self.solution.chunks.len()
            invariant
                p < self.input.piles@.len(),
                n == self.solution.chunks@.len(),
                wanted == self.row_is(p as int, chunk as int, interval as int),
                first_where(0, n, wanted) == first_where(k as int, n, wanted),
        {
            let row = &self.solution.chunks[k];
            if row.pile == self.input.piles[p].id && row.chunk == chunk && row.interval == interval {
                assert(wanted(k as int));
                return Some(k);
            }
        }
        None
    }

    pub open spec fn note_grade(self, p: int, chunk: int, interval: int) -> spec_fn(ReplayState<N>, int) -> ReplayState<N> {
        |st: ReplayState<N>, g: int|
            ReplayState {
                blends: put_under(
                    st.blends,
                    key_of(self.input.piles@[p], chunk_number(chunk, interval, self.horizon() as int), g),
                    amount(st.held_q, Pair(chunk as usize, g as usize)).over(amount(st.held_t, chunk as usize)),
                ),
                ..st
            }
    }

    /// The books with the blend of a chunk noted, where it holds anything.
    pub open spec fn blend_noted(self, st: ReplayState<N>, p: int, chunk: int, interval: int) -> ReplayState<N> {
        if replay_tolerance::<N>().below(amount(st.held_t, chunk as usize)) {
            folded(self.grade_count(), st, self.note_grade(p, chunk, interval))
        } else {
            st
        }
    }

    /// What a tonne from a chunk has of a grade.
    pub open spec fn chunk_fraction(self, st: ReplayState<N>, chunk: int, g: int) -> N {
        let tonnes = amount(st.held_t, chunk as usize);
        if replay_tolerance::<N>().below(tonnes) {
            amount(st.held_q, Pair(chunk as usize, g as usize)).over(tonnes)
        } else {
            N::of_whole(0)
        }
    }

    pub open spec fn draw_grade(self, p: int, chunk: int, interval: int, reclaimed: N) -> spec_fn(
        ReplayState<N>,
        int,
    ) -> ReplayState<N> {
        |st: ReplayState<N>, g: int|
            {
                let taken = self.chunk_fraction(st, chunk, g).times(reclaimed);
                ReplayState {
                    drawn_q: raised_by(st.drawn_q, key_of(self.input.piles@[p], interval, g), taken),
                    held_q: lowered_by(st.held_q, Pair(chunk as usize, g as usize), taken),
                    ..st
                }
            }
    }

    /// The books with what a row reclaims taken from its chunk.
    pub open spec fn chunk_drawn(self, st: ReplayState<N>, p: int, chunk: int, interval: int, reclaimed: N) -> ReplayState<
        N,
    > {
        let tallied = ReplayState {
            drawn_t: raised_by(st.drawn_t, Pair(self.input.piles@[p].id, interval as usize), reclaimed),
            ..st
        };
        let graded = folded(self.grade_count(), tallied, self.draw_grade(p, chunk, interval, reclaimed));
        ReplayState { held_t: lowered_by(graded.held_t, chunk as usize, reclaimed), ..graded }
    }

    pub open spec fn receive_grade(self, p: int, chunk: int, candidate: int, tonnes: N) -> spec_fn(
        ReplayState<N>,
        int,
    ) -> ReplayState<N> {
        |st: ReplayState<N>, g: int|
            {
                let material = self.input.movements@[candidate].material;
                match self.input.grades.fraction_at(material, g) {
                    Some(value) => ReplayState {
                        held_q: raised_by(st.held_q, Pair(chunk as usize, g as usize), tonnes.times(value)),
                        ..st
                    },
                    None => st.with_issue(
                        ReplayIssue::MissingChunkGrade {
                            material,
                            pile: self.input.piles@[p].id,
                            chunk: chunk as usize,
                            grade: g as usize,
                        },
                    ),
                }
            }
    }

    pub open spec fn receive_step(self, p: int, chunk: int, k: int) -> spec_fn(ReplayState<N>, int) -> ReplayState<N> {
        |st: ReplayState<N>, q: int|
            {
                let (candidate, tonnes) = self.solution.chunks@[k].receipts@[q];
                if candidate < self.input.movements@.len() {
                    folded(
                        self.grade_count(),
                        ReplayState { held_t: raised_by(st.held_t, chunk as usize, tonnes), ..st },
                        self.receive_grade(p, chunk, candidate as int, tonnes),
                    )
                } else {
                    st
                }
            }
    }

    /// The books after a chunk has done what its row `k` says.
    pub open spec fn chunk_moved(self, st: ReplayState<N>, p: int, chunk: int, interval: int, k: int) -> ReplayState<N> {
        let row = self.solution.chunks@[k];
        let pile = self.input.piles@[p].id;
        let compared = st.compared(
            Label::ChunkOpening { pile, chunk: chunk as usize, interval: interval as usize },
            row.open_t,
            amount(st.held_t, chunk as usize),
        );
        let drawn = self.chunk_drawn(compared, p, chunk, interval, row.reclaimed_t);
        let received = folded(row.receipts@.len(), drawn, self.receive_step(p, chunk, k));
        let left = amount(received.held_t, chunk as usize);
        received.with_issue_if(
            left.below(replay_tolerance::<N>().opposite()),
            ReplayIssue::ChunkClosing { pile, chunk: chunk as usize, interval: interval as usize, tonnes: left },
        )
    }

    pub open spec fn chunk_step(self, p: int, interval: int) -> spec_fn(ReplayState<N>, int) -> ReplayState<N> {
        |st: ReplayState<N>, chunk: int|
            {
                let noted = self.blend_noted(st, p, chunk, interval);
                match self.chunk_row(p, chunk, interval) {
                    Some(k) => self.chunk_moved(noted, p, chunk, interval, k),
                    None => noted,
                }
            }
    }

    pub open spec fn chunk_interval(self, p: int) -> spec_fn(ReplayState<N>, int) -> ReplayState<N> {
        |st: ReplayState<N>, interval: int| folded(self.input.piles@[p].chunks@.len(), st, self.chunk_step(p, interval))
    }

    fn note_blend(&self, books: &mut Books<N>, p: usize, chunk: usize, interval: usize)
        requires
            p < self.input.piles@.len(),
            0 <= chunk_number(chunk as int, interval as int, self.horizon() as int) <= usize::MAX,
        ensures
            final(books)@ == self.blend_noted(old(books)@, p as int, chunk as int, interval as int),
    {
        let tonnes = books.held_t.amount(chunk);
        if !tolerance::<N>().is_below(tonnes) {
            return;
        }
        let key: usize = chunk_key(chunk, interval, self.input.intervals.len());
        let pile = self.input.piles[p].id;
        let ghost start = books@;
        let grades: usize = self.input.grades.count();
        for g in 0..grades
            invariant
                grades == self.grade_count(),
                p < self.input.piles@.len(),
                pile == self.input.piles@[p as int].id,
                key == chunk_number(chunk as int, interval as int, self.horizon() as int),
                tonnes == amount(start.held_t, chunk),
                books@.held_t == start.held_t,
                books@ == folded(g as nat, start, self.note_grade(p as int, chunk as int, interval as int)),
        {
            let held = books.held_q.amount(Pair(chunk, g));
            books.blends.put(Pair(pile, Pair(key, g)), held.div(tonnes));
        }
    }

    fn draw_chunk(&self, books: &mut Books<N>, p: usize, chunk: usize, interval: usize, reclaimed: N)
        requires
            p < self.input.piles@.len(),
        ensures
            final(books)@ == self.chunk_drawn(old(books)@, p as int, chunk as int, interval as int, reclaimed),
    {
        let pile = self.input.piles[p].id;
        books.drawn_t.raise(Pair(pile, interval), reclaimed);
        let tonnes = books.held_t.amount(chunk);
        let ghost start = books@;
        let grades: usize = self.input.grades.count();
        for g in 0..grades
            invariant
                grades == self.grade_count(),
                p < self.input.piles@.len(),
                pile == self.input.piles@[p as int].id,
                tonnes == amount(start.held_t, chunk),
                books@.held_t == start.held_t,
                books@ == folded(g as nat, start, self.draw_grade(p as int, chunk as int, interval as int, reclaimed)),
        {
            let fraction = if tolerance::<N>().is_below(tonnes) {
                books.held_q.amount(Pair(chunk, g)).div(tonnes)
            } else {
                N::whole(0)
            };
            let taken = fraction.mul(reclaimed);
            books.drawn_q.raise(Pair(pile, Pair(interval, g)), taken);
            books.held_q.lower(Pair(chunk, g), taken);
        }
        books.held_t.lower(chunk, reclaimed);
    }

    fn receive_chunk(&self, books: &mut Books<N>, p: usize, chunk: usize, k: usize)
        requires
            p < self.input.piles@.len(),
            k < self.solution.chunks@.len(),
        ensures
            final(books)@ == folded(
                self.solution.chunks@[k as int].receipts@.len(),
                old(books)@,
                self.receive_step(p as int, chunk as int, k as int),
            ),
    {
        let receipts = &self.solution.chunks[k].receipts;
        let ghost start = books@;
        for q in 0..receipts.len()
            invariant
                p < self.input.piles@.len(),
                k < self.solution.chunks@.len(),
                receipts == self.solution.chunks@[k as int].receipts,
                books@ == folded(q as nat, start, self.receive_step(p as int, chunk as int, k as int)),
        {
            let (candidate, tonnes) = receipts[q];
            if candidate < self.input.movements.len() {
                let material = self.input.movements[candidate].material;
                books.held_t.raise(chunk, tonnes);
                let ghost before = books@;
                let grades: usize = self.input.grades.count();
                for g in 0..grades
                    invariant
                        grades == self.grade_count(),
                        p < self.input.piles@.len(),
                        candidate < self.input.movements@.len(),
                        material == self.input.movements@[candidate as int].material,
                        books@ == folded(
                            g as nat,
                            before,
                            self.receive_grade(p as int, chunk as int, candidate as int, tonnes),
                        ),
                {
                    match self.input.grades.fraction(material, g) {
                        Some(value) => books.held_q.raise(Pair(chunk, g), tonnes.mul(value)),
                        None => books.report(
                            ReplayIssue::MissingChunkGrade { material, pile: self.input.piles[p].id, chunk, grade: g },
                        ),
                    }
                }
            }
        }
    }

    fn move_chunk(&self, books: &mut Books<N>, p: usize, chunk: usize, interval: usize)
        requires
            p < self.input.piles@.len(),
            0 <= chunk_number(chunk as int, interval as int, self.horizon() as int) <= usize::MAX,
        ensures
            final(books)@ == self.chunk_step(p as int, interval as int)(old(books)@, chunk as int),
    {
        self.note_blend(books, p, chunk, interval);
        if let Some(k) = self.find_chunk_row(p, chunk, interval) {
            let row = &self.solution.chunks[k];
            let pile = self.input.piles[p].id;
            let held = books.held_t.amount(chunk);
            books.residual(Label::ChunkOpening { pile, chunk, interval }, row.open_t, held);
            self.draw_chunk(books, p, chunk, interval, row.reclaimed_t);
            self.receive_chunk(books, p, chunk, k);
            let left = books.held_t.amount(chunk);
            if left.is_below(tolerance::<N>().neg()) {
                books.report(ReplayIssue::ChunkClosing { pile, chunk, interval, tonnes: left });
            }
        }
    }

    // The order that chunks are filled, closed and drawn down in.

    pub open spec fn row_open(self, p: int, chunk: int, interval: int) -> bool {
        match self.chunk_row(p, chunk, interval) {
            Some(k) => !self.solution.chunks@[k].closed,
            None => false,
        }
    }

    /// A chunk holds more than dust by its row, and may be drawn where it has to be closed.
    pub open spec fn row_holds(self, p: int, chunk: int, interval: int, released: bool) -> bool {
        match self.chunk_row(p, chunk, interval) {
            Some(k) => (released ==> self.solution.chunks@[k].closed) && chunk_dust(self.input.piles@[p].chunks@).below(
                self.solution.chunks@[k].open_t,
            ),
            None => false,
        }
    }

    pub open spec fn earlier_open(self, p: int, chunk: int, interval: int) -> spec_fn(ReplayState<N>, int) -> ReplayState<
        N,
    > {
        |st: ReplayState<N>, earlier: int|
            st.with_issue_if(
                self.row_open(p, earlier, interval),
                ReplayIssue::EarlierOpen {
                    pile: self.input.piles@[p].id,
                    chunk: chunk as usize,
                    interval: interval as usize,
                    earlier: earlier as usize,
                },
            )
    }

    pub open spec fn earlier_holds(self, p: int, chunk: int, interval: int) -> spec_fn(ReplayState<N>, int) -> ReplayState<
        N,
    > {
        |st: ReplayState<N>, earlier: int|
            st.with_issue_if(
                self.row_holds(p, earlier, interval, false),
                ReplayIssue::FifoViolated {
                    pile: self.input.piles@[p].id,
                    chunk: chunk as usize,
                    interval: interval as usize,
                    earlier: earlier as usize,
                },
            )
    }

    pub open spec fn later_holds(self, p: int, chunk: int, interval: int) -> spec_fn(ReplayState<N>, int) -> ReplayState<N> {
        |st: ReplayState<N>, past: int|
            st.with_issue_if(
                self.row_holds(p, chunk + 1 + past, interval, true),
                ReplayIssue::LifoViolated {
                    pile: self.input.piles@[p].id,
                    chunk: chunk as usize,
                    interval: interval as usize,
                    later: (chunk + 1 + past) as usize,
                },
            )
    }

    /// Receiving while closed, and reclaiming while open.
    pub open spec fn state_checked(self, st: ReplayState<N>, p: int, chunk: int, interval: int, row: ChunkRow<N>) -> ReplayState<
        N,
    > {
        let pile = self.input.piles@[p];
        let dust = chunk_dust(pile.chunks@);
        let capped = st.limited(
            Label::ChunkCapacity { pile: pile.id, chunk: chunk as usize, interval: interval as usize },
            row.open_t,
            pile.chunks@[chunk],
        );
        let received = if row.closed && replay_tolerance::<N>().below(row.received_t) {
            if row.received_t.at_most(dust) {
                capped.with_dust(row.received_t)
            } else {
                capped.with_issue(
                    ReplayIssue::ClosedReceipt {
                        pile: pile.id,
                        chunk: chunk as usize,
                        tonnes: row.received_t,
                        interval: interval as usize,
                    },
                )
            }
        } else {
            capped
        };
        if !row.closed && replay_tolerance::<N>().below(row.reclaimed_t) {
            if row.reclaimed_t.at_most(dust) {
                received.with_dust(row.reclaimed_t)
            } else {
                received.with_issue(
                    ReplayIssue::OpenReclaim { pile: pile.id, chunk: chunk as usize, interval: interval as usize },
                )
            }
        } else {
            received
        }
    }

    /// Filling behind an open chunk, and drawing out of order.
    pub open spec fn turn_checked(self, st: ReplayState<N>, p: int, chunk: int, interval: int, row: ChunkRow<N>) -> ReplayState<
        N,
    > {
        let pile = self.input.piles@[p];
        let dust = chunk_dust(pile.chunks@);
        let filled = if dust.below(row.received_t) {
            folded(chunk as nat, st, self.earlier_open(p, chunk, interval))
        } else {
            st
        };
        if dust.below(row.reclaimed_t) {
            match pile.order {
                ReclaimOrder::Fifo => folded(chunk as nat, filled, self.earlier_holds(p, chunk, interval)),
                ReclaimOrder::Lifo => folded(
                    (pile.chunks@.len() - chunk - 1) as nat,
                    filled,
                    self.later_holds(p, chunk, interval),
                ),
            }
        } else {
            filled
        }
    }

    pub open spec fn order_step(self, p: int, interval: int) -> spec_fn(ReplayState<N>, int) -> ReplayState<N> {
        |st: ReplayState<N>, chunk: int|
            match self.chunk_row(p, chunk, interval) {
                Some(k) => {
                    let row = self.solution.chunks@[k];
                    let turned = self.turn_checked(self.state_checked(st, p, chunk, interval, row), p, chunk, interval, row);
                    turned.with_issue_if(
                        interval + 1 < self.horizon() && row.closed && self.row_open(p, chunk, interval + 1),
                        ReplayIssue::Reopened {
                            pile: self.input.piles@[p].id,
                            chunk: chunk as usize,
                            interval: interval as usize,
                        },
                    )
                },
                None => st,
            }
    }

    pub open spec fn order_interval(self, p: int) -> spec_fn(ReplayState<N>, int) -> ReplayState<N> {
        |st: ReplayState<N>, interval: int| folded(self.input.piles@[p].chunks@.len(), st, self.order_step(p, interval))
    }

    fn is_row_open(&self, p: usize, chunk: usize, interval: usize) -> (r: bool)
        requires
            p < self.input.piles@.len(),
        ensures
            r == self.row_open(p as int, chunk as int, interval as int),
    {
        match self.find_chunk_row(p, chunk, interval) {
            Some(k) => !self.solution.chunks[k].closed,
            None => false,
        }
    }

    fn does_row_hold(&self, p: usize, chunk: usize, interval: usize, released: bool) -> (r: bool)
        requires
            p < self.input.piles@.len(),
        ensures
            r == self.row_holds(p as int, chunk as int, interval as int, released),
    {
        match self.find_chunk_row(p, chunk, interval) {
            Some(k) => (!released || self.solution.chunks[k].closed) && find_chunk_dust(
                &self.input.piles[p].chunks,
            ).is_below(self.solution.chunks[k].open_t),
            None => false,
        }
    }

    fn check_state(&self, books: &mut Books<N>, p: usize, chunk: usize, interval: usize, row: &ChunkRow<N>)
        requires
            p < self.input.piles@.len(),
            chunk < self.input.piles@[p as int].chunks@.len(),
        ensures
            final(books)@ == self.state_checked(old(books)@, p as int, chunk as int, interval as int, *row),
    {
        let pile = &self.input.piles[p];
        let dust = find_chunk_dust(&pile.chunks);
        books.breach(Label::ChunkCapacity { pile: pile.id, chunk, interval }, row.open_t, pile.chunks[chunk]);
        if row.closed && tolerance::<N>().is_below(row.received_t) {
            if row.received_t.is_at_most(dust) {
                books.dust(row.received_t);
            } else {
                books.report(ReplayIssue::ClosedReceipt { pile: pile.id, chunk, tonnes: row.received_t, interval });
            }
        }
        if !row.closed && tolerance::<N>().is_below(row.reclaimed_t) {
            if row.reclaimed_t.is_at_most(dust) {
                books.dust(row.reclaimed_t);
            } else {
                books.report(ReplayIssue::OpenReclaim { pile: pile.id, chunk, interval });
            }
        }
    }

    fn check_turn(&self, books: &mut Books<N>, p: usize, chunk: usize, interval: usize, row: &ChunkRow<N>)
        requires
            p < self.input.piles@.len(),
            chunk < self.input.piles@[p as int].chunks@.len(),
        ensures
            final(books)@ == self.turn_checked(old(books)@, p as int, chunk as int, interval as int, *row),
    {
        let pile = &self.input.piles[p];
        let dust = find_chunk_dust(&pile.chunks);
        let ghost (gp, gc, gi) = (p as int, chunk as int, interval as int);
        let ghost start = books@;
        if dust.is_below(row.received_t) {
            for earlier in 0..chunk
                invariant
                    gp == p,
                    gc == chunk,
                    gi == interval,
                    p < self.input.piles@.len(),
                    pile == self.input.piles@[gp],
                    books@ == folded(earlier as nat, start, self.earlier_open(gp, gc, gi)),
            {
                if self.is_row_open(p, earlier, interval) {
                    books.report(ReplayIssue::EarlierOpen { pile: pile.id, chunk, interval, earlier });
                }
            }
        }
        let ghost filled = books@;
        if dust.is_below(row.reclaimed_t) {
            match pile.order {
                ReclaimOrder::Fifo => {
                    for earlier in 0..chunk
                        invariant
                            gp == p,
                            gc == chunk,
                            gi == interval,
                            p < self.input.piles@.len(),
                            pile == self.input.piles@[gp],
                            books@ == folded(earlier as nat, filled, self.earlier_holds(gp, gc, gi)),
                    {
                        if self.does_row_hold(p, earlier, interval, false) {
                            books.report(ReplayIssue::FifoViolated { pile: pile.id, chunk, interval, earlier });
                        }
                    }
                },
                ReclaimOrder::Lifo => {
                    let count: usize = pile.chunks.len();
                    let past: usize = count - chunk - 1;
                    for more in 0..past
                        invariant
                            gp == p,
                            gc == chunk,
                            gi == interval,
                            p < self.input.piles@.len(),
                            pile == self.input.piles@[gp],
                            chunk < count,
                            past == count - chunk - 1,
                            books@ == folded(more as nat, filled, self.later_holds(gp, gc, gi)),
                    {
                        let later: usize = chunk + 1 + more;
                        if self.does_row_hold(p, later, interval, true) {
                            books.report(ReplayIssue::LifoViolated { pile: pile.id, chunk, interval, later });
                        }
                    }
                },
            }
        }
    }

    fn check_chunk_order(&self, books: &mut Books<N>, p: usize, chunk: usize, interval: usize)
        requires
            p < self.input.piles@.len(),
            chunk < self.input.piles@[p as int].chunks@.len(),
            interval < self.horizon(),
        ensures
            final(books)@ == self.order_step(p as int, interval as int)(old(books)@, chunk as int),
    {
        if let Some(k) = self.find_chunk_row(p, chunk, interval) {
            let row = &self.solution.chunks[k];
            self.check_state(books, p, chunk, interval, row);
            self.check_turn(books, p, chunk, interval, row);
            let horizon: usize = self.input.intervals.len();
            if interval + 1 < horizon && row.closed && self.is_row_open(p, chunk, interval + 1) {
                books.report(ReplayIssue::Reopened { pile: self.input.piles[p].id, chunk, interval });
            }
        }
    }

    /// The books after the chunks of pile `p`.
    pub open spec fn chunks_step(self) -> spec_fn(ReplayState<N>, int) -> ReplayState<N> {
        |st: ReplayState<N>, p: int|
            if self.input.piles@[p].chunks@.len() == 0 {
                st
            } else {
                folded(
                    self.horizon(),
                    folded(self.horizon(), self.chunks_opened(st, p), self.chunk_interval(p)),
                    self.order_interval(p),
                )
            }
    }

    /// The books after every chunk.
    pub open spec fn after_chunks(self, st: ReplayState<N>) -> ReplayState<N> {
        if self.solution.chunks@.len() == 0 {
            st
        } else {
            folded(self.input.piles@.len(), st, self.chunks_step())
        }
    }

    fn check_pile_chunks(&self, books: &mut Books<N>, p: usize)
        requires
            p < self.input.piles@.len(),
            chunks_fit(self.input.piles@[p as int].chunks@.len(), self.horizon()),
        ensures
            final(books)@ == self.chunks_step()(old(books)@, p as int),
    {
        let count: usize = self.input.piles[p].chunks.len();
        if count == 0 {
            return;
        }
        self.open_chunks(books, p);
        let ghost opened = books@;
        for interval in 0..self.input.intervals.len()
            invariant
                p < self.input.piles@.len(),
                count == self.input.piles@[p as int].chunks@.len(),
                chunks_fit(count as nat, self.horizon()),
                books@ == folded(interval as nat, opened, self.chunk_interval(p as int)),
        {
            let ghost before = books@;
            for chunk in 0..count
                invariant
                    p < self.input.piles@.len(),
                    interval < self.horizon(),
                    chunks_fit(count as nat, self.horizon()),
                    books@ == folded(chunk as nat, before, self.chunk_step(p as int, interval as int)),
            {
                proof {
                    number_fits(chunk as int, interval as int, count as nat, self.horizon());
                }
                self.move_chunk(books, p, chunk, interval);
            }
        }
        let ghost moved = books@;
        for interval in 0..self.input.intervals.len()
            invariant
                p < self.input.piles@.len(),
                count == self.input.piles@[p as int].chunks@.len(),
                books@ == folded(interval as nat, moved, self.order_interval(p as int)),
        {
            let ghost before = books@;
            for chunk in 0..count
                invariant
                    p < self.input.piles@.len(),
                    count == self.input.piles@[p as int].chunks@.len(),
                    interval < self.horizon(),
                    books@ == folded(chunk as nat, before, self.order_step(p as int, interval as int)),
            {
                self.check_chunk_order(books, p, chunk, interval);
            }
        }
    }

    /// Replays the chunks of every pile.
    pub fn check_chunks(&self, books: &mut Books<N>)
        requires
            forall|p: int|
                0 <= p < self.input.piles@.len() ==> chunks_fit(
                    (#[trigger] self.input.piles@[p]).chunks@.len(),
                    self.horizon(),
                ),
        ensures
            final(books)@ == self.after_chunks(old(books)@),
    {
        if self.solution.chunks.len() == 0 {
            return;
        }
        let ghost start = books@;
        for p in 0..self.input.piles.len()
            invariant
                forall|p: int|
                    0 <= p < self.input.piles@.len() ==> chunks_fit(
                        (#[trigger] self.input.piles@[p]).chunks@.len(),
                        self.horizon(),
                    ),
                books@ == folded(p as nat, start, self.chunks_step()),
        {
            self.check_pile_chunks(books, p);
        }
    }
}

} // verus!
