//! What a replay says of piles, blends and what they qualify for, told of the
//! rows alone.
use vstd::prelude::*;

use crate::listing::{first_from, first_where, first_where_finds, key_is, last_where, sum_to};
use crate::optimisation::audit::limits::same_sum;
use crate::optimisation::blended::grade::{row_refusal, value_refusal, GradeBasis, GradeField};
use crate::optimisation::blended::input::{
    bounds_admit, chunk_tonnes, delivers, BlendPile, GradeBound, GradeHalfSpace, GradeQualification,
};
use crate::optimisation::blended::piles::{DrawView, Holding};
use crate::optimisation::blended::report::ReplayState;
use crate::optimisation::blended::totals::Replay;
use crate::optimisation::ids::{DestinationKind, MaterialId, SourceId, StockpileId};
use crate::scalar::{shrunk, Fixed, Scalar};

verus! {

// Ranges.

proof fn billionth()
    ensures
        Fixed::of_decimal(1, 9).0 == 1,
{
    reveal_with_fuel(shrunk, 10);
}

/// A blend is on a side exactly where it is past the endpoint: short of it by no
/// more than a billionth where the endpoint counts, and past it by more than
/// that where it does not.
pub proof fn sides_hold(side: GradeHalfSpace<Fixed>, blend: Fixed)
    requires
        i64::MIN < side.endpoint.value.0 < i64::MAX,
    ensures
        side.admits(blend) == ({
            let (end, at) = (side.endpoint.value.0 as int, blend.0 as int);
            if side.above && side.endpoint.inclusive {
                at >= end - 1
            } else if side.above {
                at > end + 1
            } else if side.endpoint.inclusive {
                at <= end + 1
            } else {
                at < end - 1
            }
        }),
{
    billionth();
}

/// A blend is in a range exactly where it is past its lower end, where it has
/// one, and short of its upper end, where it has one. A grade that is not listed
/// counts as nothing.
pub proof fn ranges_hold<N: Scalar>(bound: GradeBound<N>, blend: Seq<N>)
    ensures
        bound.admits(blend) == ({
            let value = if bound.grade < blend.len() {
                blend[bound.grade as int]
            } else {
                N::of_whole(0)
            };
            &&& bound.lower matches Some(endpoint) ==> (GradeHalfSpace { grade: bound.grade, above: true, endpoint }).admits(
                value,
            )
            &&& bound.upper matches Some(endpoint) ==> (GradeHalfSpace {
                grade: bound.grade,
                above: false,
                endpoint,
            }).admits(value)
        }),
{
    let sides = bound.sides();
    if let Some(lower) = bound.lower {
        let side = GradeHalfSpace { grade: bound.grade, above: true, endpoint: lower };
        assert(sides[0] == side);
        if let Some(upper) = bound.upper {
            let other = GradeHalfSpace { grade: bound.grade, above: false, endpoint: upper };
            assert(sides =~= seq![side, other]);
            assert(sides[1] == other);
        } else {
            assert(sides =~= seq![side]);
        }
    } else if let Some(upper) = bound.upper {
        let other = GradeHalfSpace { grade: bound.grade, above: false, endpoint: upper };
        assert(sides =~= seq![other]);
        assert(sides[0] == other);
    } else {
        assert(sides.len() == 0);
    }
}

/// All ranges of an alternative hold.
pub open spec fn alternative_holds<N: Scalar>(route: GradeQualification<N>, k: int, blend: Seq<N>) -> bool {
    forall|b: int|
        0 <= b < route.alternatives@[k].bounds@.len() ==> (#[trigger] route.alternatives@[k].bounds@[b]).admits(blend)
}

/// A route takes a blend exactly where all ranges of one of its alternatives
/// hold.
pub proof fn alternatives_hold<N: Scalar>(route: GradeQualification<N>, blend: Seq<N>)
    ensures
        route.admits(blend) == exists|k: int|
            0 <= k < route.alternatives@.len() && #[trigger] alternative_holds(route, k, blend),
{
    if route.admits(blend) {
        let k = choose|k: int|
            0 <= k < route.alternatives@.len() && bounds_admit((#[trigger] route.alternatives@[k]).bounds@, blend);
        assert(alternative_holds(route, k, blend));
    }
    if exists|k: int| 0 <= k < route.alternatives@.len() && #[trigger] alternative_holds(route, k, blend) {
        let k = choose|k: int| 0 <= k < route.alternatives@.len() && #[trigger] alternative_holds(route, k, blend);
        assert(bounds_admit(route.alternatives@[k].bounds@, blend));
    }
}

// Grades.

/// A percentage is a hundredth of itself, to a billionth, and a fraction is
/// itself.
pub proof fn bases_hold(value: Fixed)
    ensures
        GradeBasis::Fraction.fraction_of(value) == value,
        0 <= value.0 ==> {
            let part = GradeBasis::Percent.fraction_of(value).0 as int;
            part * 100 <= value.0 < part * 100 + 100
        },
{
    if 0 <= value.0 {
        let v = value.0 as int;
        assert(Fixed::of_whole(100).0 == 100_000_000_000);
        assert((v * 1_000_000_000) / 100_000_000_000 == v / 100);
    }
}

proof fn none_first<E>(i: int, n: int, f: spec_fn(int) -> Option<E>)
    ensures
        first_from(i, n, f) is None <==> forall|k: int| i <= k < n ==> (#[trigger] f(k)) is None,
    decreases n - i,
{
    if i < n && f(i) is None {
        none_first(i + 1, n, f);
    }
}

/// A table of grades can be put together exactly where every material has a
/// value for every field, and each is from nothing to the whole.
pub proof fn tables_are_accepted<N: Scalar>(fields: Seq<GradeField>, captured: Seq<(MaterialId, Vec<Option<N>>)>)
    ensures
        first_from(0, captured.len() as int, row_refusal(fields, captured)) is None <==> forall|i: int, g: int|
            #![trigger captured[i], fields[g]]
            0 <= i < captured.len() && 0 <= g < fields.len() ==> g < captured[i].1@.len() && (
            captured[i].1@[g] matches Some(value) && value.finite() && N::of_whole(0).at_most(
                fields[g].basis.fraction_of(value),
            ) && fields[g].basis.fraction_of(value).at_most(N::of_whole(1))),
{
    let rows = row_refusal(fields, captured);
    none_first(0, captured.len() as int, rows);
    assert forall|i: int| 0 <= i < captured.len() implies (#[trigger] rows(i) is None <==> forall|g: int|
        0 <= g < fields.len() ==> g < captured[i].1@.len() && (captured[i].1@[g] matches Some(value) && value.finite()
            && N::of_whole(0).at_most((#[trigger] fields[g]).basis.fraction_of(value)) && fields[g].basis.fraction_of(
            value,
        ).at_most(N::of_whole(1)))) by {
        let each = value_refusal(fields, captured[i].0, captured[i].1@);
        none_first(0, fields.len() as int, each);
        if rows(i) is None {
            assert forall|g: int| 0 <= g < fields.len() implies g < captured[i].1@.len() && (captured[i].1@[g] matches Some(
                value,
            ) && value.finite() && N::of_whole(0).at_most((#[trigger] fields[g]).basis.fraction_of(value))
                && fields[g].basis.fraction_of(value).at_most(N::of_whole(1))) by {
                assert(each(g) is None);
            }
        }
    }
    if first_from(0, captured.len() as int, rows) is None {
        assert forall|i: int, g: int|
            #![trigger captured[i], fields[g]]
            0 <= i < captured.len() && 0 <= g < fields.len() implies g < captured[i].1@.len() && (
        captured[i].1@[g] matches Some(value) && value.finite() && N::of_whole(0).at_most(
            fields[g].basis.fraction_of(value),
        ) && fields[g].basis.fraction_of(value).at_most(N::of_whole(1))) by {
            assert(rows(i) is None);
        }
    }
}

// Piles.

proof fn last_found(n: nat, p: spec_fn(int) -> bool)
    ensures
        last_where(n, p) matches Some(k) ==> 0 <= k < n && p(k) && forall|j: int| k < j < n ==> !#[trigger] p(j),
        last_where(n, p) is None ==> forall|j: int| 0 <= j < n ==> !#[trigger] p(j),
    decreases n,
{
    if n > 0 && !p(n - 1) {
        last_found((n - 1) as nat, p);
    }
}

impl<'a, N: Scalar> Replay<'a, N> {
    /// The last destination that a route names is a pile.
    pub open spec fn ends_on_pile(self, m: int, pile: StockpileId) -> bool {
        exists|d: int|
            {
                &&& 0 <= d < self.input.destinations@.len()
                &&& (#[trigger] self.input.destinations@[d]).id == self.route(m).destination
                &&& self.input.destinations@[d].kind == DestinationKind::Stockpile(pile)
                &&& forall|e: int|
                    d < e < self.input.destinations@.len() ==> (#[trigger] self.input.destinations@[e]).id != self.route(
                        m,
                    ).destination
            }
    }

    proof fn delivers_is(self, m: int, pile: StockpileId)
        ensures
            delivers(self.route(m), pile, self.input.destinations@) == self.ends_on_pile(m, pile),
    {
        let destinations = self.input.destinations@;
        let same = key_is(destinations, self.route(m).destination.0);
        last_found(destinations.len(), same);
        if let Some(d) = last_where(destinations.len(), same) {
            assert(same(d));
            assert forall|e: int| d < e < destinations.len() implies (#[trigger] destinations[e]).id != self.route(
                m,
            ).destination by {
                assert(!same(e));
            }
        }
        if self.ends_on_pile(m, pile) {
            let d = choose|d: int|
                {
                    &&& 0 <= d < destinations.len()
                    &&& (#[trigger] destinations[d]).id == self.route(m).destination
                    &&& destinations[d].kind == DestinationKind::Stockpile(pile)
                    &&& forall|e: int|
                        d < e < destinations.len() ==> (#[trigger] destinations[e]).id != self.route(m).destination
                };
            assert(same(d));
            let x = last_where(destinations.len(), same)->0;
            assert(same(x));
            assert(destinations[x].id == self.route(m).destination);
            assert(x == d);
        }
    }

    /// Rows that bring to a pile in an interval.
    pub open spec fn brings_to(self, p: int, k: usize) -> spec_fn(int) -> bool {
        |m: int| self.solution.movements@[m].interval == k && self.ends_on_pile(m, self.input.piles@[p].id)
    }

    /// Rows that take from a pile in an interval.
    pub open spec fn takes_from(self, p: int, k: usize) -> spec_fn(int) -> bool {
        |m: int|
            self.solution.movements@[m].interval == k && self.route(m).activity is Reclaim && self.route(m).source
                == SourceId::Stockpile(self.input.piles@[p].id)
    }

    /// Rows that bring to a pile in a segment.
    pub open spec fn brings_at(self, p: int, k: usize, s: int) -> spec_fn(int) -> bool {
        |m: int|
            self.solution.movements@[m].interval == k && self.solution.movements@[m].segment == s && self.ends_on_pile(
                m,
                self.input.piles@[p].id,
            )
    }

    /// Rows that take from a pile in a segment.
    pub open spec fn takes_at(self, p: int, k: usize, s: int) -> spec_fn(int) -> bool {
        |m: int|
            self.solution.movements@[m].interval == k && self.solution.movements@[m].segment == s
                && self.route(m).activity is Reclaim && self.route(m).source == SourceId::Stockpile(
                self.input.piles@[p].id,
            )
    }

    /// What each row brings to a pile of a grade in an interval: its tonnes times
    /// the fraction of the grade in its material.
    pub open spec fn grade_brought(self, p: int, k: usize, g: int) -> spec_fn(int) -> Option<N> {
        |m: int|
            if self.has_route(m) && self.solution.movements@[m].interval == k && self.ends_on_pile(
                m,
                self.input.piles@[p].id,
            ) {
                match self.input.grades.fraction_at(self.route(m).material, g) {
                    Some(fraction) => Some(self.solution.movements@[m].tonnes_t.times(fraction)),
                    None => None,
                }
            } else {
                None
            }
    }

    proof fn sums_are(self, p: int, k: usize, g: int, s: int)
        ensures
            sum_to(self.rows(), self.brought(p, k)) == self.total_where(self.brings_to(p, k)),
            sum_to(self.rows(), self.taken(p, k)) == self.total_where(self.takes_from(p, k)),
            sum_to(self.rows(), self.brought_in(p, k, s)) == self.total_where(self.brings_at(p, k, s)),
            sum_to(self.rows(), self.taken_in(p, k, s)) == self.total_where(self.takes_at(p, k, s)),
            sum_to(self.rows(), self.brought_grade(p, k, g)) == sum_to(
                self.solution.movements@.len(),
                self.grade_brought(p, k, g),
            ),
    {
        let n = self.solution.movements@.len();
        assert forall|m: int| delivers(#[trigger] self.candidate(m), self.pile(p).id, self.input.destinations@)
            == self.ends_on_pile(m, self.pile(p).id) by {
            self.delivers_is(m, self.pile(p).id);
        }
        assert forall|m: int| 0 <= m < n implies #[trigger] self.brought(p, k)(m) == self.tonnes_where(
            self.brings_to(p, k),
        )(m) by {
            assert(self.candidate(m) == self.route(m));
        }
        assert forall|m: int| 0 <= m < n implies #[trigger] self.brought_in(p, k, s)(m) == self.tonnes_where(
            self.brings_at(p, k, s),
        )(m) by {
            assert(self.candidate(m) == self.route(m));
        }
        assert forall|m: int| 0 <= m < n implies #[trigger] self.brought_grade(p, k, g)(m) == self.grade_brought(p, k, g)(
            m,
        ) by {
            assert(self.candidate(m) == self.route(m));
        }
        same_sum(n, self.brought(p, k), self.tonnes_where(self.brings_to(p, k)));
        same_sum(n, self.taken(p, k), self.tonnes_where(self.takes_from(p, k)));
        same_sum(n, self.brought_in(p, k, s), self.tonnes_where(self.brings_at(p, k, s)));
        same_sum(n, self.taken_in(p, k, s), self.tonnes_where(self.takes_at(p, k, s)));
        same_sum(n, self.brought_grade(p, k, g), self.grade_brought(p, k, g));
    }

    /// A pile ends an interval with what it held, with what its rows bring and
    /// without what they take, and of each grade with what it held, with what
    /// they bring of it and without the delivered blend of what they take. Within
    /// the interval it goes up and down segment by segment by the same rows.
    pub proof fn piles_go_by_their_rows(self, draws: DrawView<N>, p: int, k: usize, held: Holding<N>, g: int, s: nat)
        requires
            0 <= g < self.input.grades.fields@.len(),
        ensures
            ({
                let closed = self.closed_holding(draws, p, k, held);
                let taken = self.total_where(self.takes_from(p, k));
                &&& closed.tonnes == held.tonnes.plus(self.total_where(self.brings_to(p, k))).minus(taken)
                &&& closed.contained[g] == held.contained[g].plus(
                    sum_to(self.solution.movements@.len(), self.grade_brought(p, k, g)),
                ).minus(self.delivered_blend(draws, p, k, held)[g].times(taken))
            }),
            self.occupied(p, k, held.tonnes, 0) == held.tonnes,
            self.occupied(p, k, held.tonnes, s + 1) == self.occupied(p, k, held.tonnes, s).plus(
                self.total_where(self.brings_at(p, k, s as int)).minus(self.total_where(self.takes_at(p, k, s as int))),
            ),
    {
        self.sums_are(p, k, g, s as int);
    }

    /// A pile that is not chunked delivers what it held at the start of the
    /// interval: of each grade what it held of it over what it held, and nothing
    /// where it held nothing.
    pub proof fn blends_are_of_the_opening(self, draws: DrawView<N>, p: int, k: usize, held: Holding<N>, g: int)
        requires
            0 <= g < self.input.grades.fields@.len(),
            self.input.piles@[p].chunks@.len() == 0,
        ensures
            self.delivered_blend(draws, p, k, held)[g] == (if N::of_decimal(1, 5).below(held.tonnes) {
                held.contained[g].over(held.tonnes)
            } else {
                N::of_whole(0)
            }),
    {
    }

    /// A pile starts with its opening, or with what its chunks hold together.
    pub proof fn piles_start_with_their_opening(self, draws: DrawView<N>, p: int)
        ensures
            self.holding(draws, p, 0).tonnes == (if self.input.piles@[p].chunk_opening@.len() == 0 {
                self.input.piles@[p].opening_t
            } else {
                sum_to(self.input.piles@[p].chunk_opening@.len(), chunk_amounts(self.input.piles@[p]))
            }),
    {
        let chunks = self.input.piles@[p].chunk_opening@;
        same_sum(
            chunks.len(),
            chunk_tonnes(chunks),
            chunk_amounts(self.input.piles@[p]),
        );
    }

    // Qualifying.

    /// Qualification `j` is the first that names a row's loader, a pile and the
    /// row's destination.
    pub open spec fn first_named(self, p: int, m: int, j: int) -> bool {
        let names = |q: int|
            self.input.qualifications@[q].loader == self.route(m).loader && self.input.qualifications@[q].pile
                == self.input.piles@[p].id && self.input.qualifications@[q].destination == self.route(m).destination;
        &&& 0 <= j < self.input.qualifications@.len()
        &&& names(j)
        &&& forall|q: int| 0 <= q < j ==> !#[trigger] names(q)
    }

    /// A replay accepts the blend that a row takes from a pile exactly where the
    /// first qualification of its route, if there is one, takes the blend.
    pub proof fn blends_are_qualified(self, st: ReplayState<N>, p: int, k: usize, m: int, j: int, blend: Seq<N>)
        requires
            self.first_named(p, m, j),
        ensures
            self.qualified(st, p, k, m, blend).grade_issues.len() == st.grade_issues.len()
                <==> self.input.qualifications@[j].admits(blend),
            self.qualified(st, p, k, m, blend).issues == st.issues,
    {
        let n = self.input.qualifications@.len() as int;
        let names = self.qualifies(p, m);
        first_where_finds(0, n, names);
        assert(names(j));
        let x = first_where(0, n, names)->0;
        assert(names(x));
        if x < j {
            let spelled = |q: int|
                self.input.qualifications@[q].loader == self.route(m).loader && self.input.qualifications@[q].pile
                    == self.input.piles@[p].id && self.input.qualifications@[q].destination == self.route(m).destination;
            assert(spelled(x));
        }
        assert(x == j);
    }

    /// A row is paid a conditional value, its tonnes times what a tonne is paid,
    /// exactly where the payment is for its route and all ranges of it hold.
    pub proof fn payments_are_made(self, st: ReplayState<N>, m: int, j: int, blend: Seq<N>)
        requires
            0 <= j < self.input.conditional_values@.len(),
        ensures
            ({
                let payment = self.input.conditional_values@[j];
                let due = payment.candidate == self.solution.movements@[m].candidate && forall|b: int|
                    0 <= b < payment.bounds@.len() ==> (#[trigger] payment.bounds@[b]).admits(blend);
                self.payment_step(m, blend)(st, j).objective == (if due {
                    st.objective.plus(self.solution.movements@[m].tonnes_t.times(payment.value_per_tonne))
                } else {
                    st.objective
                })
            }),
    {
    }

    /// Rows that take from a pile to a destination in an interval.
    pub open spec fn takes_to(self, p: int, k: usize, j: int) -> spec_fn(int) -> bool {
        |m: int|
            self.solution.movements@[m].interval == k && self.route(m).activity is Reclaim && self.route(m).source
                == SourceId::Stockpile(self.input.piles@[p].id) && self.route(m).destination
                == self.input.grade_limits@[j].destination
    }

    /// A replay accepts what is taken from a pile to a destination with a least
    /// grade where nothing is taken or the blend has that grade, to a billionth,
    /// and finds it wanting otherwise, unless it is next to nothing.
    pub proof fn least_grades_are_replayed(self, st: ReplayState<N>, p: int, k: usize, j: int, blend: Seq<N>)
        requires
            0 <= j < self.input.grade_limits@.len(),
        ensures
            ({
                let limit = self.input.grade_limits@[j];
                let taken = self.total_where(self.takes_to(p, k, j));
                let actual = if limit.grade < blend.len() {
                    blend[limit.grade as int]
                } else {
                    N::of_whole(0)
                };
                let met = if limit.inclusive {
                    limit.minimum.minus(N::of_decimal(1, 9)).at_most(actual)
                } else {
                    limit.minimum.plus(N::of_decimal(1, 9)).below(actual)
                };
                let now = self.limit_step(p, k, blend)(st, j);
                &&& taken.at_most(N::of_whole(0)) || met ==> now == st
                &&& !taken.at_most(N::of_whole(0)) && !met ==> {
                    let room = sum_to(self.input.movements@.len(), self.route_capacity(p, k, limit.destination));
                    if taken.at_most(room.times(N::of_decimal(1, 6))) {
                        now.grade_issues == st.grade_issues && now.negligible_tonnes == st.negligible_tonnes.plus(taken)
                    } else {
                        now.grade_issues.len() == st.grade_issues.len() + 1
                    }
                }
            }),
    {
        same_sum(
            self.solution.movements@.len(),
            self.taken_to(p, k, self.input.grade_limits@[j].destination),
            self.tonnes_where(self.takes_to(p, k, j)),
        );
    }
}

/// What each chunk of a pile holds at the start.
pub open spec fn chunk_amounts<N: Scalar>(pile: BlendPile<N>) -> spec_fn(int) -> Option<N> {
    |c: int| Some(pile.chunk_opening@[c].0)
}

} // verus!
