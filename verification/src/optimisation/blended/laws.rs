//! What a replay without issues says of a schedule.
use vstd::prelude::*;

use crate::ledger::{amount, held_under, put_under, raised_by, Pair};
use crate::listing::{first_where_finds, folded, sum_to};
use crate::optimisation::blended::bars::{full_ground, unspent, BarState};
use crate::optimisation::blended::chunks::chunk_dust;
use crate::optimisation::blended::input::rate_of;
use crate::optimisation::blended::piles::{DrawView, Holding};
use crate::optimisation::blended::report::{replay_tolerance, ChunkRow, Label, ReplayIssue, ReplayState};
use crate::optimisation::blended::totals::Replay;
use crate::optimisation::ids::{Activity, SourceId, StockpileId};
use crate::optimisation::input::TaskKind;
use crate::scalar::Scalar;

verus! {

/// A use that is not above its limit by more than replaying lets pass.
pub open spec fn kept_to<N: Scalar>(used: N, limit: N) -> bool {
    !limit.plus(replay_tolerance()).below(used)
}

/// A quantity that is not below zero by more than replaying lets pass.
pub open spec fn not_negative<N: Scalar>(value: N) -> bool {
    !value.below(replay_tolerance::<N>().opposite())
}

/// No step takes an issue away.
spec fn grows<N>(step: spec_fn(ReplayState<N>, int) -> ReplayState<N>) -> bool {
    forall|st: ReplayState<N>, i: int| (#[trigger] step(st, i)).issues.len() >= st.issues.len()
}

proof fn fold_grows<N>(n: nat, start: ReplayState<N>, step: spec_fn(ReplayState<N>, int) -> ReplayState<N>)
    requires
        grows(step),
    ensures
        folded(n, start, step).issues.len() >= start.issues.len(),
    decreases n,
{
    if n > 0 {
        fold_grows((n - 1) as nat, start, step);
        let before = folded((n - 1) as nat, start, step);
        assert(step(before, n - 1).issues.len() >= before.issues.len());
    }
}

/// Where nothing is found in the end, nothing was found on the way.
proof fn fold_clean<N>(n: nat, start: ReplayState<N>, step: spec_fn(ReplayState<N>, int) -> ReplayState<N>, i: int)
    requires
        grows(step),
        0 <= i < n,
        folded(n, start, step).issues.len() == 0,
    ensures
        folded(i as nat, start, step).issues.len() == 0,
        step(folded(i as nat, start, step), i).issues.len() == 0,
    decreases n,
{
    let before = folded((n - 1) as nat, start, step);
    assert(step(before, n - 1).issues.len() >= before.issues.len());
    if i < n - 1 {
        fold_clean((n - 1) as nat, start, step, i);
    }
}

impl<'a, N: Scalar> Replay<'a, N> {
    // The steps of a replay only add issues.

    proof fn totals_grow(self)
        ensures
            grows(self.negative_step()),
            grows(self.value_step()),
            grows(self.ground_step()),
            grows(self.composition_step()),
            grows(self.interval_step()),
            grows(self.destination_step()),
            grows(self.cap_step()),
            grows(self.window_step()),
            forall|i: int| grows(#[trigger] self.segment_step(i)),
            forall|i: int, s: int| grows(#[trigger] self.loader_step(i, s)),
            forall|i: int, s: int| grows(#[trigger] self.truck_step(i, s)),
            forall|d: int| grows(#[trigger] self.day_step(d)),
    {
        assert forall|i: int, s: int| grows(#[trigger] self.loader_step(i, s)) by {}
        assert forall|i: int, s: int| grows(#[trigger] self.truck_step(i, s)) by {}
        assert forall|d: int| grows(#[trigger] self.day_step(d)) by {}
        assert forall|i: int| grows(#[trigger] self.segment_step(i)) by {
            assert forall|st: ReplayState<N>, s: int| (#[trigger] self.segment_step(i)(st, s)).issues.len()
                >= st.issues.len() by {
                assert(grows(self.loader_step(i, s)));
                assert(grows(self.truck_step(i, s)));
                fold_grows(self.input.loaders@.len(), st, self.loader_step(i, s));
                fold_grows(
                    self.input.trucks@.len(),
                    folded(self.input.loaders@.len(), st, self.loader_step(i, s)),
                    self.truck_step(i, s),
                );
            }
        }
        assert forall|st: ReplayState<N>, i: int| (#[trigger] self.interval_step()(st, i)).issues.len()
            >= st.issues.len() by {
            assert(grows(self.segment_step(i)));
            fold_grows(self.segments_spec(), st, self.segment_step(i));
        }
        assert forall|st: ReplayState<N>, d: int| (#[trigger] self.destination_step()(st, d)).issues.len()
            >= st.issues.len() by {
            assert(grows(self.day_step(d)));
            fold_grows(self.input.destinations@[d].crusher_daily_t@.len(), st, self.day_step(d));
        }
        assert forall|st: ReplayState<N>, g: int| (#[trigger] self.composition_step()(st, g)).issues.len()
            >= st.issues.len() by {
            assert forall|mid: ReplayState<N>, c: int| (#[trigger] self.cell_step(g)(mid, c)).issues.len()
                >= mid.issues.len() by {
                let cell = self.dug_cells(g)[c] as int;
                assert(grows(self.share_step(g, cell)));
                fold_grows(self.input.ground@[g].material@.len(), mid, self.share_step(g, cell));
            }
            assert(grows(self.cell_step(g)));
            fold_grows(self.dug_cells(g).len(), st, self.cell_step(g));
        }
    }

    proof fn pile_grows(self, draws: DrawView<N>, p: int)
        ensures
            grows(self.pile_step(draws, p)),
            forall|k: usize| grows(#[trigger] self.missing_step(p, k)),
            forall|k: usize, opening: N| grows(#[trigger] self.occupied_step(p, k, opening)),
            forall|k: usize, blend: Seq<N>| grows(#[trigger] self.delivery_step(p, k, blend)),
            forall|k: usize, blend: Seq<N>| grows(#[trigger] self.limit_step(p, k, blend)),
            forall|k: usize, held: Holding<N>| grows(#[trigger] self.blend_step(p, k, held)),
            forall|k: usize, closed: Holding<N>| grows(#[trigger] self.closing_step(p, k, closed)),
    {
        assert forall|k: usize| grows(#[trigger] self.missing_step(p, k)) by {
            assert forall|st: ReplayState<N>, m: int| (#[trigger] self.missing_step(p, k)(st, m)).issues.len()
                >= st.issues.len() by {
                assert(grows(self.missing_grade(p, m)));
                fold_grows(self.grade_count(), st, self.missing_grade(p, m));
            }
        }
        assert forall|k: usize, opening: N| grows(#[trigger] self.occupied_step(p, k, opening)) by {}
        assert forall|k: usize, blend: Seq<N>| grows(#[trigger] self.limit_step(p, k, blend)) by {}
        assert forall|k: usize, held: Holding<N>| grows(#[trigger] self.blend_step(p, k, held)) by {}
        assert forall|k: usize, closed: Holding<N>| grows(#[trigger] self.closing_step(p, k, closed)) by {}
        assert forall|k: usize, blend: Seq<N>| grows(#[trigger] self.delivery_step(p, k, blend)) by {
            assert forall|st: ReplayState<N>, m: int| (#[trigger] self.delivery_step(p, k, blend)(st, m)).issues.len()
                >= st.issues.len() by {
                assert(grows(self.payment_step(m, blend)));
                fold_grows(
                    self.input.conditional_values@.len(),
                    self.qualified(st, p, k, m, blend),
                    self.payment_step(m, blend),
                );
            }
        }
        assert forall|st: ReplayState<N>, i: int| (#[trigger] self.pile_step(draws, p)(st, i)).issues.len()
            >= st.issues.len() by {
            self.pile_parts_grow(draws, p, st, i);
        }
    }

    /// The books of a pile on the way through an interval.
    spec fn pile_stages(self, draws: DrawView<N>, p: int, st: ReplayState<N>, i: int) -> (
        ReplayState<N>,
        ReplayState<N>,
        ReplayState<N>,
        ReplayState<N>,
        ReplayState<N>,
        ReplayState<N>,
        ReplayState<N>,
        ReplayState<N>,
    ) {
        let k = self.input.intervals@[i].index;
        let held = self.holding(draws, p, i as nat);
        let closed = self.holding(draws, p, (i + 1) as nat);
        let blend = self.delivered_blend(draws, p, k, held);
        let taken = self.all_taken(p, k);
        let a = ReplayState {
            openings: put_under(st.openings, Pair(self.pile(p).id, k), held.tonnes),
            ..st
        };
        let b = folded(self.rows(), a, self.missing_step(p, k));
        let c = b.limited(
            Label::ReleasedOpening { pile: self.pile(p).id, interval: k },
            taken,
            held.tonnes,
        );
        let d = folded(self.segments_spec(), c, self.occupied_step(p, k, held.tonnes));
        let e = self.blended(d, p, k, held);
        let f = match self.chunk_draw(draws, p, k) {
            Some(tonnes) => e.compared(
                Label::ChunkDraws { pile: self.pile(p).id, interval: k },
                tonnes,
                taken,
            ),
            None => e,
        };
        let g = self.limits_checked(f, p, k, blend);
        let h = folded(self.rows(), g, self.delivery_step(p, k, blend));
        let j = h.with_issue_if(
            closed.tonnes.below(replay_tolerance::<N>().opposite()),
            ReplayIssue::PileClosing { pile: self.pile(p).id, interval: k, tonnes: closed.tonnes },
        );
        (b, c, d, e, f, g, h, j)
    }

    proof fn pile_parts_grow(self, draws: DrawView<N>, p: int, st: ReplayState<N>, i: int)
        requires
            forall|k: usize| grows(#[trigger] self.missing_step(p, k)),
            forall|k: usize, opening: N| grows(#[trigger] self.occupied_step(p, k, opening)),
            forall|k: usize, blend: Seq<N>| grows(#[trigger] self.delivery_step(p, k, blend)),
            forall|k: usize, blend: Seq<N>| grows(#[trigger] self.limit_step(p, k, blend)),
            forall|k: usize, held: Holding<N>| grows(#[trigger] self.blend_step(p, k, held)),
            forall|k: usize, closed: Holding<N>| grows(#[trigger] self.closing_step(p, k, closed)),
        ensures
            ({
                let (b, c, d, e, f, g, h, j) = self.pile_stages(draws, p, st, i);
                let end = self.pile_step(draws, p)(st, i);
                st.issues.len() <= b.issues.len() <= c.issues.len() <= d.issues.len() <= e.issues.len()
                    <= f.issues.len() <= g.issues.len() <= h.issues.len() <= j.issues.len() <= end.issues.len()
            }),
    {
        let k = self.input.intervals@[i].index;
        let held = self.holding(draws, p, i as nat);
        let closed = self.holding(draws, p, (i + 1) as nat);
        let blend = self.delivered_blend(draws, p, k, held);
        let (b, c, d, e, f, g, h, j) = self.pile_stages(draws, p, st, i);
        let a = ReplayState {
            openings: put_under(st.openings, Pair(self.pile(p).id, k), held.tonnes),
            ..st
        };
        fold_grows(self.rows(), a, self.missing_step(p, k));
        fold_grows(self.segments_spec(), c, self.occupied_step(p, k, held.tonnes));
        fold_grows(self.grade_count(), d, self.blend_step(p, k, held));
        fold_grows(self.input.grade_limits@.len(), f, self.limit_step(p, k, blend));
        fold_grows(self.rows(), g, self.delivery_step(p, k, blend));
        fold_grows(self.grade_count(), j, self.closing_step(p, k, closed));
    }

    proof fn piles_grow(self, draws: DrawView<N>)
        ensures
            grows(self.piles_step(draws)),
    {
        assert forall|st: ReplayState<N>, p: int| (#[trigger] self.piles_step(draws)(st, p)).issues.len()
            >= st.issues.len() by {
            self.pile_grows(draws, p);
            fold_grows(self.horizon(), st, self.pile_step(draws, p));
        }
    }

    proof fn chunks_grow(self)
        ensures
            grows(self.chunks_step()),
    {
        assert forall|st: ReplayState<N>, p: int| (#[trigger] self.chunks_step()(st, p)).issues.len()
            >= st.issues.len() by {
            self.chunk_interval_grows(p);
            self.order_interval_grows(p);
            let pile = self.input.piles@[p];
            let blank = ReplayState {
                held_t: Seq::empty(),
                held_q: Seq::empty(),
                dust_threshold: st.dust_threshold.upper(
                    chunk_dust(pile.chunks@),
                ),
                ..st
            };
            assert(grows(self.opening_chunk(p)));
            fold_grows(self.openings(p), blank, self.opening_chunk(p));
            let opened = self.chunks_opened(st, p);
            fold_grows(self.horizon(), opened, self.chunk_interval(p));
            let moved = folded(self.horizon(), opened, self.chunk_interval(p));
            fold_grows(self.horizon(), moved, self.order_interval(p));
        }
    }

    proof fn chunk_interval_grows(self, p: int)
        ensures
            grows(self.chunk_interval(p)),
    {
        assert forall|st: ReplayState<N>, interval: int| (#[trigger] self.chunk_interval(p)(st, interval)).issues.len()
            >= st.issues.len() by {
            assert forall|mid: ReplayState<N>, chunk: int| (#[trigger] self.chunk_step(p, interval)(
                mid,
                chunk,
            )).issues.len() >= mid.issues.len() by {
                assert(grows(self.note_grade(p, chunk, interval)));
                fold_grows(self.grade_count(), mid, self.note_grade(p, chunk, interval));
                let noted = self.blend_noted(mid, p, chunk, interval);
                if let Some(k) = self.chunk_row(p, chunk, interval) {
                    self.chunk_moved_grows(noted, p, chunk, interval, k);
                }
            }
            assert(grows(self.chunk_step(p, interval)));
            fold_grows(self.input.piles@[p].chunks@.len(), st, self.chunk_step(p, interval));
        }
    }

    proof fn chunk_moved_grows(self, st: ReplayState<N>, p: int, chunk: int, interval: int, k: int)
        ensures
            self.chunk_moved(st, p, chunk, interval, k).issues.len() >= st.issues.len(),
    {
        let row = self.solution.chunks@[k];
        let compared = st.compared(
            Label::ChunkOpening {
                pile: self.input.piles@[p].id,
                chunk: chunk as usize,
                interval: interval as usize,
            },
            row.open_t,
            amount(st.held_t, chunk as usize),
        );
        let tallied = ReplayState {
            drawn_t: raised_by(
                compared.drawn_t,
                Pair(self.input.piles@[p].id, interval as usize),
                row.reclaimed_t,
            ),
            ..compared
        };
        assert(grows(self.draw_grade(p, chunk, interval, row.reclaimed_t)));
        fold_grows(self.grade_count(), tallied, self.draw_grade(p, chunk, interval, row.reclaimed_t));
        let drawn = self.chunk_drawn(compared, p, chunk, interval, row.reclaimed_t);
        assert forall|mid: ReplayState<N>, q: int| (#[trigger] self.receive_step(p, chunk, k)(mid, q)).issues.len()
            >= mid.issues.len() by {
            let (candidate, tonnes) = self.solution.chunks@[k].receipts@[q];
            assert(grows(self.receive_grade(p, chunk, candidate as int, tonnes)));
            fold_grows(
                self.grade_count(),
                ReplayState { held_t: raised_by(mid.held_t, chunk as usize, tonnes), ..mid },
                self.receive_grade(p, chunk, candidate as int, tonnes),
            );
        }
        assert(grows(self.receive_step(p, chunk, k)));
        fold_grows(row.receipts@.len(), drawn, self.receive_step(p, chunk, k));
    }

    proof fn order_interval_grows(self, p: int)
        ensures
            grows(self.order_interval(p)),
    {
        assert forall|st: ReplayState<N>, interval: int| (#[trigger] self.order_interval(p)(st, interval)).issues.len()
            >= st.issues.len() by {
            self.order_step_grows(p, interval);
            fold_grows(self.input.piles@[p].chunks@.len(), st, self.order_step(p, interval));
        }
    }

    proof fn order_step_grows(self, p: int, interval: int)
        ensures
            grows(self.order_step(p, interval)),
    {
        assert forall|mid: ReplayState<N>, chunk: int| (#[trigger] self.order_step(p, interval)(
            mid,
            chunk,
        )).issues.len() >= mid.issues.len() by {
            if let Some(k) = self.chunk_row(p, chunk, interval) {
                let row = self.solution.chunks@[k];
                let checked = self.state_checked(mid, p, chunk, interval, row);
                assert(grows(self.earlier_open(p, chunk, interval)));
                assert(grows(self.earlier_holds(p, chunk, interval)));
                assert(grows(self.later_holds(p, chunk, interval)));
                fold_grows(chunk as nat, checked, self.earlier_open(p, chunk, interval));
                let dust = chunk_dust(self.input.piles@[p].chunks@);
                let filled = if dust.below(row.received_t) {
                    folded(chunk as nat, checked, self.earlier_open(p, chunk, interval))
                } else {
                    checked
                };
                fold_grows(chunk as nat, filled, self.earlier_holds(p, chunk, interval));
                fold_grows(
                    (self.input.piles@[p].chunks@.len() - chunk - 1) as nat,
                    filled,
                    self.later_holds(p, chunk, interval),
                );
            }
        }
    }

    // The order of tasks only adds issues.

    proof fn bars_grow(self, issues: Seq<ReplayIssue<N>>, openings: Seq<(Pair<StockpileId, usize>, N)>)
        ensures
            self.after_bars(issues, openings).len() >= issues.len(),
    {
        assert forall|held: Seq<ReplayIssue<N>>, l: int| (#[trigger] self.bar_loader(openings)(held, l)).len()
            >= held.len() by {
            self.bar_interval_grows(openings, l);
            let start = BarState {
                issues: held,
                remaining: folded(
                    self.input.ground@.len(),
                    Seq::empty(),
                    full_ground(self.input.ground@),
                ),
                spent: folded(
                    self.bars(l).len(),
                    Seq::empty(),
                    unspent(self.bars(l)),
                ),
            };
            bar_fold_grows(self.horizon(), start, self.bar_interval(openings, l));
        }
        list_fold_grows(self.input.loaders@.len(), issues, self.bar_loader(openings));
    }

    // So does the order of blocks.

    proof fn order_grows(self, issues: Seq<ReplayIssue<N>>)
        ensures
            self.after_order(issues).len() >= issues.len(),
    {
        assert forall|held: Seq<ReplayIssue<N>>, m: int| (#[trigger] self.order_row()(held, m)).len() >= held.len() by {
            assert forall|list: Seq<ReplayIssue<N>>, t: int| (#[trigger] self.order_task(m)(list, t)).len()
                >= list.len() by {}
            list_fold_grows(self.input.tasks@.len(), held, self.order_task(m));
        }
        list_fold_grows(self.rows(), issues, self.order_row());
    }

    proof fn bar_interval_grows(self, openings: Seq<(Pair<StockpileId, usize>, N)>, l: int)
        ensures
            bar_grows(self.bar_interval(openings, l)),
    {
        assert forall|state: BarState<N>, i: int| (#[trigger] self.bar_interval(openings, l)(state, i)).issues.len()
            >= state.issues.len() by {
            self.bar_segment_grows(openings, l, i);
            bar_fold_grows(self.segments_spec(), state, self.bar_segment(openings, l, i));
        }
    }

    proof fn bar_segment_grows(self, openings: Seq<(Pair<StockpileId, usize>, N)>, l: int, i: int)
        ensures
            bar_grows(self.bar_segment(openings, l, i)),
    {
        assert forall|mid: BarState<N>, s: int| (#[trigger] self.bar_segment(openings, l, i)(mid, s)).issues.len()
            >= mid.issues.len() by {
            let highest = self.highest(openings, mid, l, i);
            assert(bar_grows(self.bar_issue(highest, l, i, s)));
            bar_fold_grows(self.rows(), mid, self.bar_issue(highest, l, i, s));
            let told = folded(self.rows(), mid, self.bar_issue(highest, l, i, s));
            self.work_grows(l, i, s);
            bar_fold_grows(self.rows(), told, self.work_step(l, i, s));
        }
    }

    proof fn work_grows(self, l: int, i: int, s: int)
        ensures
            bar_grows(self.work_step(l, i, s)),
    {
        assert forall|held: BarState<N>, m: int| (#[trigger] self.work_step(l, i, s)(held, m)).issues.len()
            >= held.issues.len() by {
            assert(bar_grows(self.spend_step(l, m)));
            let candidate = self.candidate(m);
            let dug = match candidate.source {
                SourceId::Ground(ground) => match held_under(
                    held.remaining,
                    ground.0 as u64,
                ) {
                    Some(left) => if candidate.activity is Dig {
                        BarState {
                            remaining: put_under(
                                held.remaining,
                                ground.0 as u64,
                                left.minus(self.row(m).tonnes_t),
                            ),
                            ..held
                        }
                    } else {
                        held
                    },
                    None => held,
                },
                SourceId::Stockpile(_) => held,
            };
            bar_fold_grows(self.bars(l).len(), dug, self.spend_step(l, m));
        }
    }

    /// Without issues in the end there are none after any part.
    proof fn clean_parts(self)
        requires
            self.all_issues().len() == 0,
        ensures
            self.after_piles().issues.len() == 0,
            self.before_piles().issues.len() == 0,
            self.after_totals(ReplayState::blank()).issues.len() == 0,
    {
        let state = self.after_piles();
        self.bars_grow(state.issues, state.openings);
        self.order_grows(self.after_bars(state.issues, state.openings));
        self.piles_grow(self.draws());
        fold_grows(self.input.piles@.len(), self.before_piles(), self.piles_step(self.draws()));
        self.chunks_grow();
        let totals = self.after_totals(ReplayState::blank());
        fold_grows(self.input.piles@.len(), totals, self.chunks_step());
    }

    /// Tonnes and contained quantities of a pile go by one balance: what it
    /// holds, and what it receives, less what is taken, at the blend that it
    /// delivers.
    pub proof fn mass_balance(self, draws: DrawView<N>, p: int, i: nat, g: int)
        requires
            0 <= g < self.grade_count(),
        ensures
            ({
                let k = self.input.intervals@[i as int].index;
                let held = self.holding(draws, p, i);
                let closed = self.holding(draws, p, i + 1);
                let taken = self.all_taken(p, k);
                &&& closed.tonnes == held.tonnes.plus(sum_to(self.rows(), self.brought(p, k))).minus(taken)
                &&& closed.contained[g] == held.contained[g].plus(
                    sum_to(self.rows(), self.brought_grade(p, k, g)),
                ).minus(self.delivered_blend(draws, p, k, held)[g].times(taken))
            }),
    {
    }

    /// A pile in a schedule that replays without issues gives no more than it
    /// held when the interval began, nothing where it held nothing, stays within
    /// its capacity and above zero in every segment, and ends the interval with
    /// tonnes and contained quantities that are possible.
    #[verifier::rlimit(40)]
    pub proof fn valid_replay_keeps_piles(self, p: int, i: int)
        requires
            self.all_issues().len() == 0,
            0 <= p < self.input.piles@.len(),
            0 <= i < self.input.intervals@.len(),
        ensures
            ({
                let k = self.input.intervals@[i].index;
                let held = self.holding(self.draws(), p, i as nat);
                let closed = self.holding(self.draws(), p, (i + 1) as nat);
                let taken = self.all_taken(p, k);
                &&& kept_to(taken, held.tonnes)
                &&& !replay_tolerance::<N>().below(held.tonnes) ==> !replay_tolerance::<N>().below(taken)
                &&& forall|s: int|
                    0 <= s < self.segments_spec() ==> {
                        let occupied = #[trigger] self.occupied(p, k, held.tonnes, (s + 1) as nat);
                        kept_to(occupied, self.pile(p).capacity_t) && not_negative(occupied)
                    }
                &&& not_negative(closed.tonnes)
                &&& forall|g: int|
                    0 <= g < self.grade_count() ==> not_negative(#[trigger] closed.contained[g]) && kept_to(
                        closed.contained[g],
                        closed.tonnes.upper(N::of_whole(0)),
                    )
            }),
    {
        self.clean_parts();
        let draws = self.draws();
        self.piles_grow(draws);
        self.pile_grows(draws, p);
        fold_clean(self.input.piles@.len(), self.before_piles(), self.piles_step(draws), p);
        let before = folded(p as nat, self.before_piles(), self.piles_step(draws));
        fold_clean(self.horizon(), before, self.pile_step(draws, p), i);
        let st = folded(i as nat, before, self.pile_step(draws, p));
        self.pile_parts_grow(draws, p, st, i);
        let k = self.input.intervals@[i].index;
        let held = self.holding(draws, p, i as nat);
        let closed = self.holding(draws, p, (i + 1) as nat);
        let (b, c, d, e, f, g, h, j) = self.pile_stages(draws, p, st, i);
        let end = self.pile_step(draws, p)(st, i);
        assert(end == folded(self.grade_count(), j, self.closing_step(p, k, closed)));
        assert forall|s: int| 0 <= s < self.segments_spec() implies {
            let occupied = #[trigger] self.occupied(p, k, held.tonnes, (s + 1) as nat);
            kept_to(occupied, self.pile(p).capacity_t) && not_negative(occupied)
        } by {
            fold_clean(self.segments_spec(), c, self.occupied_step(p, k, held.tonnes), s);
        }
        assert forall|q: int| 0 <= q < self.grade_count() implies not_negative(#[trigger] closed.contained[q])
            && kept_to(closed.contained[q], closed.tonnes.upper(N::of_whole(0))) by {
            fold_clean(self.grade_count(), j, self.closing_step(p, k, closed), q);
        }
    }

    /// A schedule that replays without issues moves no negative tonnes, only by
    /// routes that there are and that some task lets be taken then, takes no
    /// block further than its tonnes, keeps every loader to its rate and every
    /// truck class to its hours in every segment, and keeps destinations and
    /// reclaim tasks to their limits.
    #[verifier::rlimit(40)]
    pub proof fn valid_replay_keeps_limits(self)
        requires
            self.all_issues().len() == 0,
        ensures
            forall|m: int|
                #![trigger self.row(m)]
                0 <= m < self.rows() ==> not_negative(self.row(m).tonnes_t) && self.known(m),
            forall|g: int|
                0 <= g < self.input.ground@.len() ==> kept_to(
                    sum_to(self.rows(), #[trigger] self.dug(g)),
                    self.input.ground@[g].tonnes_t,
                ),
            forall|i: int, s: int, l: int|
                #![trigger self.loaded(i, s, l, Activity::Dig)]
                0 <= i < self.input.intervals@.len() && 0 <= s < self.segments_spec() && 0 <= l
                    < self.input.loaders@.len() ==> match rate_of(
                    self.input.loaders@[l],
                    self.input.intervals@[i].index,
                ) {
                    Some(rate) => kept_to(
                        sum_to(self.rows(), self.loaded(i, s, l, Activity::Dig)),
                        rate.dig_tph.times(self.duration(i, s)),
                    ) && kept_to(
                        sum_to(self.rows(), self.loaded(i, s, l, Activity::Reclaim)),
                        rate.reclaim_tph.times(self.duration(i, s)),
                    ),
                    None => true,
                },
            forall|i: int, s: int, t: int|
                #![trigger self.trucked(i, s, t)]
                0 <= i < self.input.intervals@.len() && 0 <= s < self.segments_spec() && 0 <= t
                    < self.input.trucks@.len() ==> {
                    let truck = self.input.trucks@[t];
                    let interval = self.input.intervals@[i];
                    interval.index >= truck.hours@.len() || interval.length().at_most(N::of_whole(0)) || kept_to(
                        sum_to(self.rows(), self.trucked(i, s, t)),
                        truck.hours@[interval.index as int].over(interval.length()).times(self.duration(i, s)),
                    )
                },
            forall|d: int|
                #![trigger self.delivered(d)]
                0 <= d < self.input.destinations@.len() && !(self.input.destinations@[d].kind is Crusher) ==> match
                self.input.destinations@[d].capacity_t {
                    Some(capacity) => kept_to(sum_to(self.rows(), self.delivered(d)), capacity),
                    None => true,
                },
            forall|d: int, day: int|
                #![trigger self.delivered_on(d, day)]
                0 <= d < self.input.destinations@.len() && self.input.destinations@[d].kind is Crusher && 0 <= day
                    < self.input.destinations@[d].crusher_daily_t@.len() ==> match
                self.input.destinations@[d].crusher_daily_t@[day] {
                    Some(budget) => kept_to(sum_to(self.rows(), self.delivered_on(d, day)), budget),
                    None => true,
                },
            forall|t: int|
                #![trigger self.capped(t)]
                0 <= t < self.input.tasks@.len() ==> match self.input.tasks@[t].kind {
                    TaskKind::Reclaim { approved_sources, maximum_t: Some(maximum) } => kept_to(
                        sum_to(self.rows(), self.capped(t)),
                        maximum,
                    ),
                    _ => true,
                },
            forall|m: int|
                #![trigger self.authorised(m)]
                0 <= m < self.rows() && !self.row(m).tonnes_t.at_most(replay_tolerance()) && self.row(m).interval
                    < self.input.intervals@.len() ==> self.authorised(m),
    {
        self.clean_parts();
        self.totals_grow();
        let st = ReplayState::<N>::blank();
        let z = folded(self.rows(), st, self.negative_step());
        let a = folded(self.rows(), z, self.value_step());
        let b = folded(self.input.ground@.len(), a, self.ground_step());
        let c = folded(self.input.ground@.len(), b, self.composition_step());
        let d = folded(self.input.intervals@.len(), c, self.interval_step());
        let e = folded(self.input.destinations@.len(), d, self.destination_step());
        let f = folded(self.input.tasks@.len(), e, self.cap_step());
        fold_grows(self.rows(), f, self.window_step());
        fold_grows(self.input.tasks@.len(), e, self.cap_step());
        fold_grows(self.input.destinations@.len(), d, self.destination_step());
        fold_grows(self.input.intervals@.len(), c, self.interval_step());
        fold_grows(self.input.ground@.len(), b, self.composition_step());
        fold_grows(self.input.ground@.len(), a, self.ground_step());
        fold_grows(self.rows(), z, self.value_step());
        assert forall|m: int|
            #![trigger self.row(m)]
            0 <= m < self.rows() implies not_negative(self.row(m).tonnes_t) && self.known(m) by {
            fold_clean(self.rows(), st, self.negative_step(), m);
            fold_clean(self.rows(), z, self.value_step(), m);
        }
        assert forall|g: int| 0 <= g < self.input.ground@.len() implies kept_to(
            sum_to(self.rows(), #[trigger] self.dug(g)),
            self.input.ground@[g].tonnes_t,
        ) by {
            fold_clean(self.input.ground@.len(), a, self.ground_step(), g);
        }
        assert forall|i: int, s: int, l: int|
            #![trigger self.loaded(i, s, l, Activity::Dig)]
            0 <= i < self.input.intervals@.len() && 0 <= s < self.segments_spec() && 0 <= l
                < self.input.loaders@.len() implies match rate_of(
            self.input.loaders@[l],
            self.input.intervals@[i].index,
        ) {
            Some(rate) => kept_to(
                sum_to(self.rows(), self.loaded(i, s, l, Activity::Dig)),
                rate.dig_tph.times(self.duration(i, s)),
            ) && kept_to(
                sum_to(self.rows(), self.loaded(i, s, l, Activity::Reclaim)),
                rate.reclaim_tph.times(self.duration(i, s)),
            ),
            None => true,
        } by {
            self.segment_clean(c, i, s);
            let before = folded(s as nat, folded(i as nat, c, self.interval_step()), self.segment_step(i));
            assert(grows(self.loader_step(i, s)));
            fold_clean(self.input.loaders@.len(), before, self.loader_step(i, s), l);
        }
        assert forall|i: int, s: int, t: int|
            #![trigger self.trucked(i, s, t)]
            0 <= i < self.input.intervals@.len() && 0 <= s < self.segments_spec() && 0 <= t
                < self.input.trucks@.len() implies {
            let truck = self.input.trucks@[t];
            let interval = self.input.intervals@[i];
            interval.index >= truck.hours@.len() || interval.length().at_most(N::of_whole(0)) || kept_to(
                sum_to(self.rows(), self.trucked(i, s, t)),
                truck.hours@[interval.index as int].over(interval.length()).times(self.duration(i, s)),
            )
        } by {
            self.segment_clean(c, i, s);
            let before = folded(s as nat, folded(i as nat, c, self.interval_step()), self.segment_step(i));
            let loaded = folded(self.input.loaders@.len(), before, self.loader_step(i, s));
            assert(grows(self.truck_step(i, s)));
            fold_clean(self.input.trucks@.len(), loaded, self.truck_step(i, s), t);
        }
        assert forall|q: int|
            #![trigger self.delivered(q)]
            0 <= q < self.input.destinations@.len() && !(self.input.destinations@[q].kind is Crusher) implies match
        self.input.destinations@[q].capacity_t {
            Some(capacity) => kept_to(sum_to(self.rows(), self.delivered(q)), capacity),
            None => true,
        } by {
            fold_clean(self.input.destinations@.len(), d, self.destination_step(), q);
        }
        assert forall|q: int, day: int|
            #![trigger self.delivered_on(q, day)]
            0 <= q < self.input.destinations@.len() && self.input.destinations@[q].kind is Crusher && 0 <= day
                < self.input.destinations@[q].crusher_daily_t@.len() implies match
        self.input.destinations@[q].crusher_daily_t@[day] {
            Some(budget) => kept_to(sum_to(self.rows(), self.delivered_on(q, day)), budget),
            None => true,
        } by {
            fold_clean(self.input.destinations@.len(), d, self.destination_step(), q);
            let before = folded(q as nat, d, self.destination_step());
            assert(grows(self.day_step(q)));
            fold_clean(self.input.destinations@[q].crusher_daily_t@.len(), before, self.day_step(q), day);
        }
        assert forall|t: int|
            #![trigger self.capped(t)]
            0 <= t < self.input.tasks@.len() implies match self.input.tasks@[t].kind {
            TaskKind::Reclaim { approved_sources, maximum_t: Some(maximum) } => kept_to(
                sum_to(self.rows(), self.capped(t)),
                maximum,
            ),
            _ => true,
        } by {
            fold_clean(self.input.tasks@.len(), e, self.cap_step(), t);
        }
        assert forall|m: int|
            #![trigger self.authorised(m)]
            0 <= m < self.rows() && !self.row(m).tonnes_t.at_most(replay_tolerance()) && self.row(m).interval
                < self.input.intervals@.len() implies self.authorised(m) by {
            assert(self.row(m).tonnes_t == self.row(m).tonnes_t);
            fold_clean(self.rows(), f, self.window_step(), m);
        }
    }

    proof fn segment_clean(self, c: ReplayState<N>, i: int, s: int)
        requires
            folded(self.input.intervals@.len(), c, self.interval_step()).issues.len() == 0,
            0 <= i < self.input.intervals@.len(),
            0 <= s < self.segments_spec(),
        ensures
            ({
                let before = folded(s as nat, folded(i as nat, c, self.interval_step()), self.segment_step(i));
                let loaded = folded(self.input.loaders@.len(), before, self.loader_step(i, s));
                &&& loaded.issues.len() == 0
                &&& folded(self.input.trucks@.len(), loaded, self.truck_step(i, s)).issues.len() == 0
            }),
    {
        self.totals_grow();
        fold_clean(self.input.intervals@.len(), c, self.interval_step(), i);
        let start = folded(i as nat, c, self.interval_step());
        assert(grows(self.segment_step(i)));
        fold_clean(self.segments_spec(), start, self.segment_step(i), s);
        let before = folded(s as nat, start, self.segment_step(i));
        let loaded = folded(self.input.loaders@.len(), before, self.loader_step(i, s));
        assert(grows(self.truck_step(i, s)));
        fold_grows(self.input.trucks@.len(), loaded, self.truck_step(i, s));
    }
}

spec fn bar_grows<N>(step: spec_fn(BarState<N>, int) -> BarState<N>) -> bool {
    forall|st: BarState<N>, i: int| (#[trigger] step(st, i)).issues.len() >= st.issues.len()
}

proof fn bar_fold_grows<N>(n: nat, start: BarState<N>, step: spec_fn(BarState<N>, int) -> BarState<N>)
    requires
        bar_grows(step),
    ensures
        folded(n, start, step).issues.len() >= start.issues.len(),
    decreases n,
{
    if n > 0 {
        bar_fold_grows((n - 1) as nat, start, step);
        let before = folded((n - 1) as nat, start, step);
        assert(step(before, n - 1).issues.len() >= before.issues.len());
    }
}

proof fn list_fold_grows<T>(n: nat, start: Seq<T>, step: spec_fn(Seq<T>, int) -> Seq<T>)
    requires
        forall|held: Seq<T>, i: int| (#[trigger] step(held, i)).len() >= held.len(),
    ensures
        folded(n, start, step).len() >= start.len(),
    decreases n,
{
    if n > 0 {
        list_fold_grows((n - 1) as nat, start, step);
        let before = folded((n - 1) as nat, start, step);
        assert(step(before, n - 1).len() >= before.len());
    }
}

/// What the order of tasks went by stays what it was where nothing was found.
proof fn bar_fold_clean<N>(n: nat, start: BarState<N>, step: spec_fn(BarState<N>, int) -> BarState<N>, i: int)
    requires
        bar_grows(step),
        0 <= i < n,
        folded(n, start, step).issues.len() == 0,
    ensures
        folded(i as nat, start, step).issues.len() == 0,
        step(folded(i as nat, start, step), i).issues.len() == 0,
    decreases n,
{
    let before = folded((n - 1) as nat, start, step);
    assert(step(before, n - 1).issues.len() >= before.issues.len());
    if i < n - 1 {
        bar_fold_clean((n - 1) as nat, start, step, i);
    }
}

proof fn list_fold_clean<T>(n: nat, start: Seq<T>, step: spec_fn(Seq<T>, int) -> Seq<T>, i: int)
    requires
        forall|held: Seq<T>, j: int| (#[trigger] step(held, j)).len() >= held.len(),
        0 <= i < n,
        folded(n, start, step).len() == 0,
    ensures
        folded(i as nat, start, step).len() == 0,
        step(folded(i as nat, start, step), i).len() == 0,
    decreases n,
{
    let before = folded((n - 1) as nat, start, step);
    assert(step(before, n - 1).len() >= before.len());
    if i < n - 1 {
        list_fold_clean((n - 1) as nat, start, step, i);
    }
}

// What is found of the order that things are done in.

impl<'a, N: Scalar> Replay<'a, N> {
    /// What loader `l` has before it when the first interval starts.
    pub open spec fn bar_start(self, l: int) -> BarState<N> {
        BarState {
            issues: Seq::empty(),
            remaining: folded(self.input.ground@.len(), Seq::empty(), full_ground(self.input.ground@)),
            spent: folded(self.bars(l).len(), Seq::empty(), unspent(self.bars(l))),
        }
    }

    /// What loader `l` has before it when segment `s` of interval `i` starts.
    pub open spec fn bar_at(self, l: int, i: int, s: int) -> BarState<N> {
        let openings = self.after_piles().openings;
        folded(
            s as nat,
            folded(i as nat, self.bar_start(l), self.bar_interval(openings, l)),
            self.bar_segment(openings, l, i),
        )
    }

    /// A schedule that replays without issues fills every interval: its
    /// segments last as long as it does.
    pub proof fn valid_replay_fills_the_clock(self, i: int)
        requires
            self.all_issues().len() == 0,
            0 <= i < self.input.intervals@.len(),
        ensures
            !replay_tolerance::<N>().below(
                sum_to(self.segments_spec(), self.clock(i)).minus(self.input.intervals@[i].length()).magnitude(),
            ),
    {
        self.clean_parts();
        self.totals_grow();
        let z = folded(self.rows(), ReplayState::<N>::blank(), self.negative_step());
        let a = folded(self.rows(), z, self.value_step());
        let b = folded(self.input.ground@.len(), a, self.ground_step());
        let c = folded(self.input.ground@.len(), b, self.composition_step());
        let d = folded(self.input.intervals@.len(), c, self.interval_step());
        let e = folded(self.input.destinations@.len(), d, self.destination_step());
        let f = folded(self.input.tasks@.len(), e, self.cap_step());
        fold_grows(self.rows(), f, self.window_step());
        fold_grows(self.input.tasks@.len(), e, self.cap_step());
        fold_grows(self.input.destinations@.len(), d, self.destination_step());
        fold_clean(self.input.intervals@.len(), c, self.interval_step(), i);
    }

    /// Without issues in the end, none are found of the order of tasks nor of
    /// the order of blocks.
    proof fn clean_order(self)
        requires
            self.all_issues().len() == 0,
        ensures
            self.after_piles().issues.len() == 0,
            self.after_bars(self.after_piles().issues, self.after_piles().openings).len() == 0,
            self.after_order(self.after_bars(self.after_piles().issues, self.after_piles().openings)).len() == 0,
    {
        let state = self.after_piles();
        self.bars_grow(state.issues, state.openings);
        self.order_grows(self.after_bars(state.issues, state.openings));
    }

    /// A schedule that replays without issues keeps the priority that a
    /// loader's reclaim bars were written in: what one of them moves is moved
    /// by the first bar that is ready when the segment starts.
    pub proof fn valid_replay_keeps_priority(self, l: int, i: int, s: int, m: int, b: int)
        requires
            self.all_issues().len() == 0,
            0 <= l < self.input.loaders@.len(),
            self.bars(l).len() >= 2,
            0 <= i < self.input.intervals@.len(),
            0 <= s < self.segments_spec(),
            0 <= m < self.rows(),
            self.bar_row(l, i, s, m),
            0 <= b < self.bars(l).len(),
            self.bar_works(l, m)(b),
        ensures
            self.highest(self.after_piles().openings, self.bar_at(l, i, s), l, i) matches Some(first)
                && self.bar_works(l, m)(first),
    {
        self.clean_order();
        let openings = self.after_piles().openings;
        let issues = self.after_piles().issues;
        assert forall|held: Seq<ReplayIssue<N>>, q: int| (#[trigger] self.bar_loader(openings)(held, q)).len()
            >= held.len() by {
            self.bar_interval_grows(openings, q);
            bar_fold_grows(
                self.horizon(),
                BarState { issues: held, ..self.bar_start(q) },
                self.bar_interval(openings, q),
            );
        }
        list_fold_clean(self.input.loaders@.len(), issues, self.bar_loader(openings), l);
        let held = folded(l as nat, issues, self.bar_loader(openings));
        assert(held =~= Seq::empty());
        self.bar_interval_grows(openings, l);
        bar_fold_clean(self.horizon(), self.bar_start(l), self.bar_interval(openings, l), i);
        let interval = folded(i as nat, self.bar_start(l), self.bar_interval(openings, l));
        self.bar_segment_grows(openings, l, i);
        bar_fold_clean(self.segments_spec(), interval, self.bar_segment(openings, l, i), s);
        let state = self.bar_at(l, i, s);
        let highest = self.highest(openings, state, l, i);
        let told = folded(self.rows(), state, self.bar_issue(highest, l, i, s));
        self.work_grows(l, i, s);
        bar_fold_grows(self.rows(), told, self.work_step(l, i, s));
        assert(bar_grows(self.bar_issue(highest, l, i, s)));
        bar_fold_clean(self.rows(), state, self.bar_issue(highest, l, i, s), m);
        first_where_finds(0, self.bars(l).len() as int, self.bar_works(l, m));
    }

    /// A schedule that replays without issues digs blocks in the order of
    /// their sequence: none is dug while one before it still holds something.
    pub proof fn valid_replay_keeps_block_order(self, m: int, t: int, x: int, y: int)
        requires
            self.all_issues().len() == 0,
            0 <= m < self.rows(),
            0 <= t < self.input.tasks@.len(),
            self.dig_row(m, t),
            0 <= y < x < self.input.tasks@[t].kind->sequence@.len(),
            self.candidate(m).source == SourceId::Ground(self.input.tasks@[t].kind->sequence@[x]),
            self.input.tasks@[t].kind->sequence@[y] != self.input.tasks@[t].kind->sequence@[x],
        ensures
            !self.holds_before(self.input.tasks@[t].kind->sequence@[y], m),
    {
        self.clean_order();
        let issues = self.after_bars(self.after_piles().issues, self.after_piles().openings);
        assert forall|held: Seq<ReplayIssue<N>>, q: int| (#[trigger] self.order_row()(held, q)).len() >= held.len() by {
            assert forall|list: Seq<ReplayIssue<N>>, u: int| (#[trigger] self.order_task(q)(list, u)).len()
                >= list.len() by {}
            list_fold_grows(self.input.tasks@.len(), held, self.order_task(q));
        }
        list_fold_clean(self.rows(), issues, self.order_row(), m);
        let held = folded(m as nat, issues, self.order_row());
        assert forall|list: Seq<ReplayIssue<N>>, u: int| (#[trigger] self.order_task(m)(list, u)).len()
            >= list.len() by {}
        list_fold_clean(self.input.tasks@.len(), held, self.order_task(m), t);
        let sequence = self.input.tasks@[t].kind->sequence@;
        let ground = sequence[x];
        first_where_finds(0, sequence.len() as int, self.passed_over(sequence, ground, m));
        assert(!self.passed_over(sequence, ground, m)(y));
        assert(self.comes_after(sequence, ground, y));
    }

    /// A schedule that replays without issues keeps chunks to their turns. A
    /// chunk holds no more than its capacity. It receives only while it is
    /// open and nothing before it is, and gives up only once it is closed:
    /// first in first out while nothing before it holds anything, last in
    /// first out while nothing closed after it does. Once closed it is not
    /// open in the next interval. Up to dust none of this is told.
    pub proof fn valid_replay_keeps_chunks(self, p: int, chunk: int, i: int)
        requires
            self.all_issues().len() == 0,
            0 <= p < self.input.piles@.len(),
            0 <= chunk < self.input.piles@[p].chunks@.len(),
            0 <= i < self.input.intervals@.len(),
            self.chunk_row(p, chunk, i) is Some,
        ensures
            ({
                let pile = self.input.piles@[p];
                let row = self.solution.chunks@[self.chunk_row(p, chunk, i)->0];
                let dust = chunk_dust(pile.chunks@);
                &&& kept_to(row.open_t, pile.chunks@[chunk])
                &&& row.closed && replay_tolerance::<N>().below(row.received_t) ==> row.received_t.at_most(dust)
                &&& !row.closed && replay_tolerance::<N>().below(row.reclaimed_t) ==> row.reclaimed_t.at_most(dust)
                &&& dust.below(row.received_t) ==> forall|other: int|
                    0 <= other < chunk ==> !#[trigger] self.row_open(p, other, i)
                &&& dust.below(row.reclaimed_t) && pile.order is Fifo ==> forall|other: int|
                    0 <= other < chunk ==> !#[trigger] self.row_holds(p, other, i, false)
                &&& dust.below(row.reclaimed_t) && pile.order is Lifo ==> forall|other: int|
                    chunk < other < pile.chunks@.len() ==> !#[trigger] self.row_holds(p, other, i, true)
                &&& row.closed && i + 1 < self.input.intervals@.len() ==> !self.row_open(p, chunk, i + 1)
            }),
    {
        self.clean_parts();
        self.chunks_grow();
        first_where_finds(0, self.solution.chunks@.len() as int, self.row_is(p, chunk, i));
        let totals = self.after_totals(ReplayState::blank());
        fold_clean(self.input.piles@.len(), totals, self.chunks_step(), p);
        let st = folded(p as nat, totals, self.chunks_step());
        let moved = folded(self.horizon(), self.chunks_opened(st, p), self.chunk_interval(p));
        self.order_interval_grows(p);
        fold_clean(self.horizon(), moved, self.order_interval(p), i);
        let before = folded(i as nat, moved, self.order_interval(p));
        self.order_step_grows(p, i);
        fold_clean(self.input.piles@[p].chunks@.len(), before, self.order_step(p, i), chunk);
        let mid = folded(chunk as nat, before, self.order_step(p, i));
        let row = self.solution.chunks@[self.chunk_row(p, chunk, i)->0];
        self.turn_clean(mid, p, chunk, i, row);
    }

    proof fn turn_clean(self, st: ReplayState<N>, p: int, chunk: int, i: int, row: ChunkRow<N>)
        requires
            0 <= chunk < self.input.piles@[p].chunks@.len(),
            self.turn_checked(self.state_checked(st, p, chunk, i, row), p, chunk, i, row).issues.len() == 0,
        ensures
            ({
                let pile = self.input.piles@[p];
                let dust = chunk_dust(pile.chunks@);
                &&& kept_to(row.open_t, pile.chunks@[chunk])
                &&& row.closed && replay_tolerance::<N>().below(row.received_t) ==> row.received_t.at_most(dust)
                &&& !row.closed && replay_tolerance::<N>().below(row.reclaimed_t) ==> row.reclaimed_t.at_most(dust)
                &&& dust.below(row.received_t) ==> forall|other: int|
                    0 <= other < chunk ==> !#[trigger] self.row_open(p, other, i)
                &&& dust.below(row.reclaimed_t) && pile.order is Fifo ==> forall|other: int|
                    0 <= other < chunk ==> !#[trigger] self.row_holds(p, other, i, false)
                &&& dust.below(row.reclaimed_t) && pile.order is Lifo ==> forall|other: int|
                    chunk < other < pile.chunks@.len() ==> !#[trigger] self.row_holds(p, other, i, true)
            }),
    {
        let pile = self.input.piles@[p];
        let dust = chunk_dust(pile.chunks@);
        let checked = self.state_checked(st, p, chunk, i, row);
        assert(grows(self.earlier_open(p, chunk, i)));
        assert(grows(self.earlier_holds(p, chunk, i)));
        assert(grows(self.later_holds(p, chunk, i)));
        let filled = if dust.below(row.received_t) {
            folded(chunk as nat, checked, self.earlier_open(p, chunk, i))
        } else {
            checked
        };
        let after = (pile.chunks@.len() - chunk - 1) as nat;
        fold_grows(chunk as nat, filled, self.earlier_holds(p, chunk, i));
        fold_grows(after, filled, self.later_holds(p, chunk, i));
        assert(filled.issues.len() == 0);
        fold_grows(chunk as nat, checked, self.earlier_open(p, chunk, i));
        assert(checked.issues.len() == 0);
        if dust.below(row.received_t) {
            assert forall|other: int| 0 <= other < chunk implies !#[trigger] self.row_open(p, other, i) by {
                fold_clean(chunk as nat, checked, self.earlier_open(p, chunk, i), other);
            }
        }
        if dust.below(row.reclaimed_t) && pile.order is Fifo {
            assert forall|other: int| 0 <= other < chunk implies !#[trigger] self.row_holds(p, other, i, false) by {
                fold_clean(chunk as nat, filled, self.earlier_holds(p, chunk, i), other);
            }
        }
        if dust.below(row.reclaimed_t) && pile.order is Lifo {
            assert forall|other: int| chunk < other < pile.chunks@.len() implies !#[trigger] self.row_holds(
                p,
                other,
                i,
                true,
            ) by {
                fold_clean(after, filled, self.later_holds(p, chunk, i), other - chunk - 1);
            }
        }
    }

    /// A chunk that is closed in a schedule that replays without issues stays
    /// closed for as long as the schedule tells of it.
    pub proof fn valid_replay_keeps_chunks_closed(self, p: int, chunk: int, i: int, j: int)
        requires
            self.all_issues().len() == 0,
            0 <= p < self.input.piles@.len(),
            0 <= chunk < self.input.piles@[p].chunks@.len(),
            0 <= i <= j < self.input.intervals@.len(),
            forall|k: int| i <= k <= j ==> (#[trigger] self.chunk_row(p, chunk, k)) is Some,
            self.solution.chunks@[self.chunk_row(p, chunk, i)->0].closed,
        ensures
            self.solution.chunks@[self.chunk_row(p, chunk, j)->0].closed,
        decreases j - i,
    {
        if i < j {
            self.valid_replay_keeps_chunks_closed(p, chunk, i, j - 1);
            assert(self.chunk_row(p, chunk, j - 1) is Some);
            self.valid_replay_keeps_chunks(p, chunk, j - 1);
            assert(self.chunk_row(p, chunk, j) is Some);
        }
    }
}

} // verus!
