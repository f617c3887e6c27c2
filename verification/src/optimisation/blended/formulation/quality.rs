//! The rows that hold routes and payments to the grade of what is taken.
use vstd::prelude::*;

use crate::listing::{find_key, first_where, flat, folded, keyed, sum_to};
use crate::optimisation::blended::formulation::base::{Formulation, Selector};
use crate::optimisation::blended::formulation::model::{Column, Line, Sheet};
use crate::optimisation::blended::input::{
    all_sides, GradeEndpoint, GradeHalfSpace, GradeLimit, GradeQualification,
};
use crate::optimisation::ids::{Activity, DestinationId, LoaderId, SourceId, StockpileId};
use crate::optimisation::sheet::{at_least_row, at_most_row, binary, equal_row, less_one, nil, one, term, terms_of, terms_of_three};
use crate::scalar::Scalar;

verus! {

/// Where the grades that a route takes are laid down.
#[derive(Clone, Copy, Debug, PartialEq, Eq, Structural)]
pub enum RouteRule {
    /// By a qualification of the input.
    Given { index: usize },
    /// By a destination's least grade, for the route of a candidate.
    FromLimit { limit: usize, candidate: usize },
}

/// How far a blend is kept off an endpoint.
pub open spec fn grade_margin<N: Scalar>(inclusive: bool) -> N {
    if inclusive {
        N::of_decimal(1, 6)
    } else {
        N::of_whole(2).times(N::of_decimal(1, 6))
    }
}

/// Where `flag` is one, what is taken lies on a side.
pub open spec fn side_row<N: Scalar>(
    flag: Column,
    recl_q: Column,
    recl_t: Column,
    test: GradeHalfSpace<N>,
    ceiling: N,
    ceiling_t: N,
) -> Line<N> {
    let margin = grade_margin::<N>(test.endpoint.inclusive);
    if test.above {
        let threshold = test.endpoint.value.plus(margin);
        let big = threshold.magnitude().upper(one::<N>()).times(ceiling_t).upper(one::<N>());
        at_least_row(
            seq![(recl_q, one::<N>()), (recl_t, threshold.opposite()), (flag, big.opposite())],
            big.opposite(),
        )
    } else {
        let threshold = test.endpoint.value.minus(margin);
        let big = ceiling.plus(threshold.magnitude()).upper(one::<N>()).times(ceiling_t).upper(one::<N>());
        at_most_row(seq![(recl_q, one::<N>()), (recl_t, threshold.opposite()), (flag, big)], big)
    }
}

fn write_side<N: Scalar>(
    sheet: &mut Sheet<N>,
    flag: Column,
    recl_q: Column,
    recl_t: Column,
    test: GradeHalfSpace<N>,
    ceiling: N,
    ceiling_t: N,
)
    ensures
        final(sheet)@ == old(sheet)@.push(side_row(flag, recl_q, recl_t, test, ceiling, ceiling_t)),
{
    let margin = if test.endpoint.inclusive {
        N::decimal(1, 6)
    } else {
        N::whole(2).mul(N::decimal(1, 6))
    };
    if test.above {
        let threshold = test.endpoint.value.add(margin);
        let big = threshold.abs().larger(N::whole(1)).mul(ceiling_t).larger(N::whole(1));
        sheet.geq(terms_of_three(recl_q, N::whole(1), recl_t, threshold.neg(), flag, big.neg()), big.neg());
    } else {
        let threshold = test.endpoint.value.sub(margin);
        let big = ceiling.add(threshold.abs()).larger(N::whole(1)).mul(ceiling_t).larger(N::whole(1));
        sheet.leq(terms_of_three(recl_q, N::whole(1), recl_t, threshold.neg(), flag, big), big);
    }
}

impl<'a, N: Scalar> Formulation<'a, N> {
    pub open spec fn taken(self, pile: StockpileId, k: int) -> Column {
        Column::ReclT { pile, interval: k as usize }
    }

    pub open spec fn taken_q(self, pile: StockpileId, k: int, grade: usize) -> Column {
        Column::ReclQ { pile, interval: k as usize, grade }
    }

    /// Candidate `c` is the first by which its loader takes from a pile.
    pub open spec fn first_lift(self, c: int, pile: StockpileId) -> bool {
        self.takes_from(c, pile) && forall|b: int|
            0 <= b < c && #[trigger] self.takes_from(b, pile) ==> self.candidate(b).loader != self.candidate(c).loader
    }

    pub open spec fn reach_part(self, pile: StockpileId, k: int) -> spec_fn(int) -> Option<N> {
        |c: int|
            if self.first_lift(c, pile) {
                Some(self.rate_or_zero(c, k).times(self.length(k)))
            } else {
                None
            }
    }

    pub(crate) fn is_first_lift(&self, c: usize, pile: StockpileId) -> (r: bool)
        requires
            c < self.candidates(),
        ensures
            r == self.first_lift(c as int, pile),
    {
        let candidate = &self.input.movements[c];
        if candidate.activity != Activity::Reclaim || candidate.source != SourceId::Stockpile(pile) {
            return false;
        }
        for b in 0..c
            invariant
                c < self.candidates(),
                candidate == self.candidate(c as int),
                forall|q: int|
                    0 <= q < b && #[trigger] self.takes_from(q, pile) ==> self.candidate(q).loader
                        != candidate.loader,
        {
            let other = &self.input.movements[b];
            if other.activity == Activity::Reclaim && other.source == SourceId::Stockpile(pile) && other.loader
                == candidate.loader {
                assert(self.takes_from(b as int, pile));
                return false;
            }
        }
        true
    }

    /// The most that can be taken from a pile in an interval: what it could
    /// hold, or what the loaders that take from it lift in that time, each
    /// loader once.
    pub open spec fn reclaim_ceiling(self, pile: StockpileId, k: int) -> N {
        let capacity = match keyed(self.input.piles@, pile.0) {
            Some(p) => self.pile(p).capacity_t.upper(self.pile(p).opening_t),
            None => N::of_whole(0),
        };
        capacity.lower(sum_to(self.candidates(), self.reach_part(pile, k))).upper(N::of_whole(0))
    }

    fn find_reclaim_ceiling(&self, pile: StockpileId, k: usize) -> (r: N)
        requires
            k < self.horizon(),
        ensures
            r == self.reclaim_ceiling(pile, k as int),
    {
        let capacity = match find_key(&self.input.piles, pile.0) {
            Some(p) => self.input.piles[p].capacity_t.larger(self.input.piles[p].opening_t),
            None => N::whole(0),
        };
        let length = self.input.intervals[k].duration_h();
        let mut reachable = N::whole(0);
        for c in 0..self.input.movements.len()
            invariant
                length == self.length(k as int),
                reachable == sum_to(c as nat, self.reach_part(pile, k as int)),
        {
            if self.is_first_lift(c, pile) {
                reachable = reachable.add(self.find_rate(c, k).mul(length));
            }
        }
        capacity.smaller(reachable).larger(N::whole(0))
    }

    // Which routes are held to a grade.

    pub open spec fn given(self, rule: RouteRule) -> GradeQualification<N> {
        self.input.qualifications@[rule->index as int]
    }

    pub open spec fn limit(self, rule: RouteRule) -> GradeLimit<N> {
        self.input.grade_limits@[rule->limit as int]
    }

    pub open spec fn rule_loader(self, rule: RouteRule) -> LoaderId {
        match rule {
            RouteRule::Given { index } => self.given(rule).loader,
            RouteRule::FromLimit { limit, candidate } => self.candidate(candidate as int).loader,
        }
    }

    pub open spec fn rule_pile(self, rule: RouteRule) -> StockpileId {
        match rule {
            RouteRule::Given { index } => self.given(rule).pile,
            RouteRule::FromLimit { limit, candidate } => self.candidate(candidate as int).source->Stockpile_0,
        }
    }

    pub open spec fn rule_destination(self, rule: RouteRule) -> DestinationId {
        match rule {
            RouteRule::Given { index } => self.given(rule).destination,
            RouteRule::FromLimit { limit, candidate } => self.limit(rule).destination,
        }
    }

    pub open spec fn rule_stands(self, rule: RouteRule) -> bool {
        match rule {
            RouteRule::Given { index } => index < self.input.qualifications@.len(),
            RouteRule::FromLimit { limit, candidate } => limit < self.input.grade_limits@.len() && candidate
                < self.candidates() && self.candidate(candidate as int).source is Stockpile,
        }
    }

    pub open spec fn covers_route(self, rule: RouteRule, loader: LoaderId, pile: StockpileId, destination: DestinationId) -> bool {
        self.rule_loader(rule) == loader && self.rule_pile(rule) == pile && self.rule_destination(rule) == destination
    }

    /// Some rule of a list is about a route.
    pub open spec fn covered(
        self,
        rules: Seq<RouteRule>,
        loader: LoaderId,
        pile: StockpileId,
        destination: DestinationId,
    ) -> bool {
        exists|x: int| 0 <= x < rules.len() && self.covers_route(#[trigger] rules[x], loader, pile, destination)
    }

    /// A reclaim to a destination with a least grade gets a rule, unless its
    /// route has one.
    pub open spec fn limit_rule(self, j: int) -> spec_fn(Seq<RouteRule>, int) -> Seq<RouteRule> {
        |rules: Seq<RouteRule>, c: int|
            {
                let candidate = self.candidate(c);
                let destination = self.input.grade_limits@[j].destination;
                match candidate.source {
                    SourceId::Stockpile(pile) => if candidate.activity is Reclaim && candidate.destination == destination
                        && !self.covered(rules, candidate.loader, pile, destination) {
                        rules.push(RouteRule::FromLimit { limit: j as usize, candidate: c as usize })
                    } else {
                        rules
                    },
                    SourceId::Ground(_) => rules,
                }
            }
    }

    pub open spec fn limit_rules(self) -> spec_fn(Seq<RouteRule>, int) -> Seq<RouteRule> {
        |rules: Seq<RouteRule>, j: int| folded(self.candidates(), rules, self.limit_rule(j))
    }

    pub open spec fn given_rules(self) -> Seq<RouteRule> {
        Seq::new(self.input.qualifications@.len(), |x: int| RouteRule::Given { index: x as usize })
    }

    /// The rules of every route: the qualifications, then those that follow
    /// from least grades.
    pub open spec fn route_rules(self) -> Seq<RouteRule> {
        folded(self.input.grade_limits@.len(), self.given_rules(), self.limit_rules())
    }

    /// Under how many alternatives a rule permits its route.
    pub open spec fn alternatives(self, rule: RouteRule) -> nat {
        match rule {
            RouteRule::Given { index } => self.given(rule).alternatives@.len(),
            RouteRule::FromLimit { limit, candidate } => 1,
        }
    }

    /// The sides on which a blend lies under an alternative.
    pub open spec fn rule_sides(self, rule: RouteRule, a: int) -> Seq<GradeHalfSpace<N>> {
        match rule {
            RouteRule::Given { index } => all_sides(self.given(rule).alternatives@[a].bounds@),
            RouteRule::FromLimit { limit, candidate } => {
                let least = self.limit(rule);
                seq![
                    GradeHalfSpace {
                        grade: least.grade,
                        above: true,
                        endpoint: GradeEndpoint { value: least.minimum, inclusive: least.inclusive },
                    },
                ]
            },
        }
    }

    pub open spec fn open_route(self, rule: RouteRule) -> bool {
        match rule {
            RouteRule::Given { index } => self.given(rule).open_to_all(),
            RouteRule::FromLimit { limit, candidate } => false,
        }
    }

    fn find_loader(&self, rule: RouteRule) -> (r: LoaderId)
        requires
            self.rule_stands(rule),
        ensures
            r == self.rule_loader(rule),
    {
        match rule {
            RouteRule::Given { index } => self.input.qualifications[index].loader,
            RouteRule::FromLimit { limit: _, candidate } => self.input.movements[candidate].loader,
        }
    }

    fn find_pile(&self, rule: RouteRule) -> (r: StockpileId)
        requires
            self.rule_stands(rule),
        ensures
            r == self.rule_pile(rule),
    {
        match rule {
            RouteRule::Given { index } => self.input.qualifications[index].pile,
            RouteRule::FromLimit { limit: _, candidate } => match self.input.movements[candidate].source {
                SourceId::Stockpile(pile) => pile,
                SourceId::Ground(ground) => StockpileId(ground.0),
            },
        }
    }

    fn find_destination(&self, rule: RouteRule) -> (r: DestinationId)
        requires
            self.rule_stands(rule),
        ensures
            r == self.rule_destination(rule),
    {
        match rule {
            RouteRule::Given { index } => self.input.qualifications[index].destination,
            RouteRule::FromLimit { limit, candidate: _ } => self.input.grade_limits[limit].destination,
        }
    }

    fn is_covered(&self, rules: &Vec<RouteRule>, loader: LoaderId, pile: StockpileId, destination: DestinationId) -> (r: bool)
        requires
            forall|x: int| 0 <= x < rules@.len() ==> self.rule_stands(#[trigger] rules@[x]),
        ensures
            r == self.covered(rules@, loader, pile, destination),
    {
        for x in 0..rules.len()
            invariant
                forall|x: int| 0 <= x < rules@.len() ==> self.rule_stands(#[trigger] rules@[x]),
                forall|q: int| 0 <= q < x ==> !self.covers_route(#[trigger] rules@[q], loader, pile, destination),
        {
            let rule = rules[x];
            if self.find_loader(rule) == loader && self.find_pile(rule) == pile && self.find_destination(rule)
                == destination {
                assert(self.covers_route(rules@[x as int], loader, pile, destination));
                return true;
            }
        }
        false
    }

    fn find_rules(&self) -> (r: Vec<RouteRule>)
        ensures
            r@ == self.route_rules(),
            forall|x: int| 0 <= x < r@.len() ==> self.rule_stands(#[trigger] r@[x]),
    {
        let mut rules: Vec<RouteRule> = Vec::new();
        for x in 0..self.input.qualifications.len()
            invariant
                rules@ =~= self.given_rules().take(x as int),
                forall|x: int| 0 <= x < rules@.len() ==> self.rule_stands(#[trigger] rules@[x]),
        {
            rules.push(RouteRule::Given { index: x });
        }
        assert(rules@ =~= self.given_rules());
        let ghost start = self.given_rules();
        let ghost step = self.limit_rules();
        for j in 0..self.input.grade_limits.len()
            invariant
                step == self.limit_rules(),
                rules@ == folded(j as nat, start, step),
                forall|x: int| 0 <= x < rules@.len() ==> self.rule_stands(#[trigger] rules@[x]),
        {
            let destination = self.input.grade_limits[j].destination;
            let ghost before = rules@;
            let ghost inner = self.limit_rule(j as int);
            for c in 0..self.input.movements.len()
                invariant
                    j < self.input.grade_limits@.len(),
                    destination == self.input.grade_limits@[j as int].destination,
                    inner == self.limit_rule(j as int),
                    rules@ == folded(c as nat, before, inner),
                    forall|x: int| 0 <= x < rules@.len() ==> self.rule_stands(#[trigger] rules@[x]),
            {
                let candidate = &self.input.movements[c];
                if let SourceId::Stockpile(pile) = candidate.source {
                    if candidate.activity == Activity::Reclaim && candidate.destination == destination
                        && !self.is_covered(&rules, candidate.loader, pile, destination) {
                        rules.push(RouteRule::FromLimit { limit: j, candidate: c });
                    }
                }
            }
            assert(rules@ == step(before, j as int));
        }
        rules
    }

    fn find_alternatives(&self, rule: RouteRule) -> (r: usize)
        requires
            self.rule_stands(rule),
        ensures
            r == self.alternatives(rule),
    {
        match rule {
            RouteRule::Given { index } => self.input.qualifications[index].alternatives.len(),
            RouteRule::FromLimit { limit: _, candidate: _ } => 1,
        }
    }

    fn find_sides(&self, rule: RouteRule, a: usize) -> (r: Vec<GradeHalfSpace<N>>)
        requires
            self.rule_stands(rule),
            a < self.alternatives(rule),
        ensures
            r@ == self.rule_sides(rule, a as int),
    {
        match rule {
            RouteRule::Given { index } => self.input.qualifications[index].alternatives[a].half_spaces(),
            RouteRule::FromLimit { limit, candidate: _ } => {
                let least = &self.input.grade_limits[limit];
                let mut sides: Vec<GradeHalfSpace<N>> = Vec::new();
                sides.push(
                    GradeHalfSpace {
                        grade: least.grade,
                        above: true,
                        endpoint: GradeEndpoint { value: least.minimum, inclusive: least.inclusive },
                    },
                );
                assert(sides@ =~= self.rule_sides(rule, a as int));
                sides
            },
        }
    }

    fn is_open_route(&self, rule: RouteRule) -> (r: bool)
        requires
            self.rule_stands(rule),
        ensures
            r == self.open_route(rule),
    {
        match rule {
            RouteRule::Given { index } => self.input.qualifications[index].unconditional(),
            RouteRule::FromLimit { limit: _, candidate: _ } => false,
        }
    }

    // What a held route may carry.

    pub open spec fn route(self, rule: RouteRule) -> Selector {
        Selector::Qualified {
            loader: self.rule_loader(rule),
            pile: self.rule_pile(rule),
            destination: self.rule_destination(rule),
        }
    }

    pub open spec fn carries(self, rule: RouteRule, k: int) -> spec_fn(int) -> bool {
        |c: int| self.weight(self.route(rule), c) is Some && self.moves(c, k)
    }

    /// The most that a route can carry in an interval: what its loader lifts in
    /// that time.
    pub open spec fn flow_bound(self, rule: RouteRule, k: int) -> N {
        match first_where(0, self.candidates() as int, self.carries(rule, k)) {
            Some(c) => self.rate_or_zero(c, k).times(self.length(k)),
            None => N::of_whole(0),
        }
    }

    pub open spec fn eligible_column(self, x: int, k: int) -> Column {
        Column::Eligible { qualification: x as usize, interval: k as usize }
    }

    pub open spec fn picked_column(self, x: int, k: int, a: int) -> Column {
        Column::Picked { qualification: x as usize, interval: k as usize, alternative: a as usize }
    }

    pub open spec fn side_line(self, flag: Column, pile: StockpileId, k: int, sides: Seq<GradeHalfSpace<N>>) -> spec_fn(
        int,
    ) -> Seq<Line<N>> {
        |y: int|
            if sides[y].grade < self.grades() {
                seq![
                    side_row(
                        flag,
                        self.taken_q(pile, k, sides[y].grade),
                        self.taken(pile, k),
                        sides[y],
                        self.ceiling(sides[y].grade as int),
                        self.reclaim_ceiling(pile, k),
                    ),
                ]
            } else {
                Seq::empty()
            }
    }

    pub open spec fn alternative_line(self, x: int, k: int) -> spec_fn(int) -> Seq<Line<N>> {
        |a: int|
            {
                let rule = self.route_rules()[x];
                let pick = self.picked_column(x, k, a);
                let sides = self.rule_sides(rule, a);
                seq![binary(pick)] + flat(sides.len(), self.side_line(pick, self.rule_pile(rule), k, sides))
            }
    }

    pub open spec fn pick_terms(self, x: int, k: int) -> Seq<(Column, N)> {
        seq![(self.eligible_column(x, k), less_one::<N>())] + Seq::new(
            self.alternatives(self.route_rules()[x]),
            |a: int| (self.picked_column(x, k, a), one::<N>()),
        )
    }

    /// A route carries something in an interval only where what is taken lies
    /// within one of its alternatives.
    pub open spec fn route_interval(self, x: int) -> spec_fn(int) -> Seq<Line<N>> {
        |k: int|
            {
                let rule = self.route_rules()[x];
                let flow = self.run_terms(self.route(rule), k, self.segments as nat);
                let bound = self.flow_bound(rule, k);
                let used = self.eligible_column(x, k);
                if keyed(self.input.piles@, self.rule_pile(rule).0) is None || flow.len() == 0 || bound.at_most(
                    N::of_whole(0),
                ) {
                    Seq::empty()
                } else {
                    seq![binary(used), at_most_row(flow.push((used, bound.opposite())), nil::<N>())] + flat(
                        self.alternatives(rule),
                        self.alternative_line(x, k),
                    ) + seq![at_least_row(self.pick_terms(x, k), nil::<N>())]
                }
            }
    }

    pub open spec fn route_lines(self) -> spec_fn(int) -> Seq<Line<N>> {
        |x: int|
            if self.open_route(self.route_rules()[x]) {
                Seq::empty()
            } else {
                flat(self.horizon(), self.route_interval(x))
            }
    }

    fn find_flow_bound(&self, rule: RouteRule, sel: Selector, k: usize) -> (r: N)
        requires
            sel == self.route(rule),
            k < self.horizon(),
        ensures
            r == self.flow_bound(rule, k as int),
    {
        let ghost wanted = self.carries(rule, k as int);
        let ghost n = self.candidates() as int;
        for c in 0..self.input.movements.len()
            invariant
                sel == self.route(rule),
                k < self.horizon(),
                n == self.candidates(),
                wanted == self.carries(rule, k as int),
                first_where(0, n, wanted) == first_where(c as int, n, wanted),
        {
            if self.find_weight(sel, c).is_some() && self.can_move(c, k) {
                assert(wanted(c as int));
                return self.find_rate(c, k).mul(self.input.intervals[k].duration_h());
            }
        }
        N::whole(0)
    }

    fn write_sides(&self, sheet: &mut Sheet<N>, flag: Column, pile: StockpileId, k: usize, sides: &Vec<GradeHalfSpace<N>>)
        requires
            self.ready_to_write(),
            k < self.horizon(),
        ensures
            final(sheet)@ == old(sheet)@ + flat(sides@.len(), self.side_line(flag, pile, k as int, sides@)),
    {
        let most = self.find_reclaim_ceiling(pile, k);
        let ghost base = sheet@;
        let ghost line = self.side_line(flag, pile, k as int, sides@);
        assert(base + flat(0, line) =~= base);
        for y in 0..sides.len()
            invariant
                self.ready_to_write(),
                most == self.reclaim_ceiling(pile, k as int),
                line == self.side_line(flag, pile, k as int, sides@),
                sheet@ == base + flat(y as nat, line),
        {
            let test = sides[y];
            if test.grade < self.input.grades.fields.len() {
                write_side(
                    sheet,
                    flag,
                    Column::ReclQ { pile, interval: k, grade: test.grade },
                    Column::ReclT { pile, interval: k },
                    test,
                    self.find_ceiling(test.grade),
                    most,
                );
            }
            assert(sheet@ =~= base + (flat(y as nat, line) + line(y as int)));
        }
    }

    fn write_alternatives(&self, sheet: &mut Sheet<N>, x: usize, k: usize, rules: &Vec<RouteRule>)
        requires
            self.ready_to_write(),
            k < self.horizon(),
            rules@ == self.route_rules(),
            x < rules@.len(),
            self.rule_stands(rules@[x as int]),
        ensures
            final(sheet)@ == old(sheet)@ + flat(self.alternatives(rules@[x as int]), self.alternative_line(x as int, k as int))
                + seq![at_least_row(self.pick_terms(x as int, k as int), nil::<N>())],
    {
        let rule = rules[x];
        let pile = self.find_pile(rule);
        let count: usize = self.find_alternatives(rule);
        let mut picks = term(Column::Eligible { qualification: x, interval: k }, N::whole(1).neg());
        let ghost base = sheet@;
        let ghost line = self.alternative_line(x as int, k as int);
        let ghost all = self.pick_terms(x as int, k as int);
        assert(base + flat(0, line) =~= base);
        for a in 0..count
            invariant
                self.ready_to_write(),
                k < self.horizon(),
                rules@ == self.route_rules(),
                x < rules@.len(),
                rule == rules@[x as int],
                self.rule_stands(rule),
                pile == self.rule_pile(rule),
                count == self.alternatives(rule),
                line == self.alternative_line(x as int, k as int),
                all == self.pick_terms(x as int, k as int),
                picks@ =~= all.take(a + 1),
                sheet@ == base + flat(a as nat, line),
        {
            let pick = Column::Picked { qualification: x, interval: k, alternative: a };
            sheet.binary(pick);
            picks.push((pick, N::whole(1)));
            let sides = self.find_sides(rule, a);
            self.write_sides(sheet, pick, pile, k, &sides);
            assert(sheet@ =~= base + (flat(a as nat, line) + line(a as int)));
        }
        assert(picks@ =~= all);
        sheet.geq(picks, N::whole(0));
        assert(sheet@ =~= base + flat(self.alternatives(rule), line) + seq![at_least_row(all, nil::<N>())]);
    }

    fn write_route_interval(&self, sheet: &mut Sheet<N>, x: usize, k: usize, rules: &Vec<RouteRule>)
        requires
            self.ready_to_write(),
            k < self.horizon(),
            rules@ == self.route_rules(),
            x < rules@.len(),
            self.rule_stands(rules@[x as int]),
        ensures
            final(sheet)@ == old(sheet)@ + self.route_interval(x as int)(k as int),
    {
        let ghost base = sheet@;
        let rule = rules[x];
        let pile = self.find_pile(rule);
        if find_key(&self.input.piles, pile.0).is_some() {
            let sel = Selector::Qualified {
                loader: self.find_loader(rule),
                pile,
                destination: self.find_destination(rule),
            };
            let mut flow: Vec<(Column, N)> = Vec::new();
            self.add_run(&mut flow, sel, k, self.segments);
            assert(flow@ =~= self.run_terms(self.route(rule), k as int, self.segments as nat));
            let bound = self.find_flow_bound(rule, sel, k);
            if !(flow.len() == 0 || bound.is_at_most(N::whole(0))) {
                let used = Column::Eligible { qualification: x, interval: k };
                sheet.binary(used);
                flow.push((used, bound.neg()));
                sheet.leq(flow, N::whole(0));
                self.write_alternatives(sheet, x, k, rules);
            }
        }
        assert(sheet@ =~= base + self.route_interval(x as int)(k as int));
    }

    /// Writes that held routes carry only what they may.
    pub fn write_routes(&self, sheet: &mut Sheet<N>)
        requires
            self.ready_to_write(),
        ensures
            final(sheet)@ == old(sheet)@ + flat(self.route_rules().len(), self.route_lines()),
    {
        let rules = self.find_rules();
        let ghost base = sheet@;
        let ghost all = self.route_lines();
        assert(base + flat(0, all) =~= base);
        for x in 0..rules.len()
            invariant
                self.ready_to_write(),
                rules@ == self.route_rules(),
                forall|x: int| 0 <= x < rules@.len() ==> self.rule_stands(#[trigger] rules@[x]),
                all == self.route_lines(),
                sheet@ == base + flat(x as nat, all),
        {
            if !self.is_open_route(rules[x]) {
                let ghost inner = sheet@;
                let ghost line = self.route_interval(x as int);
                assert(inner + flat(0, line) =~= inner);
                for k in 0..self.input.intervals.len()
                    invariant
                        self.ready_to_write(),
                        rules@ == self.route_rules(),
                        x < rules@.len(),
                        self.rule_stands(rules@[x as int]),
                        line == self.route_interval(x as int),
                        sheet@ == inner + flat(k as nat, line),
                {
                    self.write_route_interval(sheet, x, k, &rules);
                    assert(sheet@ =~= inner + (flat(k as nat, line) + line(k as int)));
                }
            }
            assert(sheet@ =~= base + (flat(x as nat, all) + all(x as int)));
        }
    }

    // Payments by grade.

    pub open spec fn truth(self, j: int, k: int) -> Column {
        Column::Truth { payment: j as usize, interval: k as usize }
    }

    pub open spec fn part(self, j: int, k: int, y: int) -> Column {
        Column::Part { payment: j as usize, interval: k as usize, side: y as usize }
    }

    pub open spec fn counterpart(self, j: int, k: int, y: int) -> Column {
        Column::Counterpart { payment: j as usize, interval: k as usize, side: y as usize }
    }

    /// A side of a payment's ranges either holds or fails.
    pub open spec fn part_line(self, j: int, k: int, pile: StockpileId, sides: Seq<GradeHalfSpace<N>>) -> spec_fn(
        int,
    ) -> Seq<Line<N>> {
        |y: int|
            if sides[y].grade < self.grades() {
                let (q, t) = (self.taken_q(pile, k, sides[y].grade), self.taken(pile, k));
                let (ceiling, most) = (self.ceiling(sides[y].grade as int), self.reclaim_ceiling(pile, k));
                seq![
                    binary(self.part(j, k, y)),
                    side_row(self.part(j, k, y), q, t, sides[y], ceiling, most),
                    binary(self.counterpart(j, k, y)),
                    equal_row(
                        seq![(self.part(j, k, y), one::<N>()), (self.counterpart(j, k, y), one::<N>())],
                        one::<N>(),
                    ),
                    side_row(self.counterpart(j, k, y), q, t, sides[y].opposite_side(), ceiling, most),
                ]
            } else {
                Seq::empty()
            }
    }

    pub open spec fn part_column(self, j: int, k: int, sides: Seq<GradeHalfSpace<N>>) -> spec_fn(int) -> Seq<Column> {
        |y: int|
            if sides[y].grade < self.grades() {
                seq![self.part(j, k, y)]
            } else {
                Seq::empty()
            }
    }

    pub open spec fn part_holds(self, truth: Column, parts: Seq<Column>) -> spec_fn(int) -> Seq<Line<N>> {
        |r: int| seq![at_most_row(seq![(truth, one::<N>()), (parts[r], less_one::<N>())], nil::<N>())]
    }

    /// A payment's ranges hold in an interval where every side of them does.
    pub open spec fn truth_lines(self, j: int, k: int, pile: StockpileId, sides: Seq<GradeHalfSpace<N>>) -> Seq<Line<N>> {
        let truth = self.truth(j, k);
        let parts = flat(sides.len(), self.part_column(j, k, sides));
        seq![binary(truth)] + flat(sides.len(), self.part_line(j, k, pile, sides)) + (if parts.len() == 0 {
            seq![equal_row(seq![(truth, one::<N>())], one::<N>())]
        } else {
            flat(parts.len(), self.part_holds(truth, parts)) + seq![
                at_least_row(
                    seq![(truth, one::<N>())] + self.flag_terms(parts, less_one::<N>()),
                    N::of_whole(parts.len() as u64).minus(one::<N>()).opposite(),
                ),
            ]
        })
    }

    /// What a payment is made for: what is moved, where its ranges hold.
    pub open spec fn paid_line(self, j: int, c: int, k: int, big: N) -> spec_fn(int) -> Seq<Line<N>> {
        |s: int|
            {
                let paid = Column::Paid { payment: j as usize, interval: k as usize, segment: s as usize };
                let moved = self.movement(c, k, s);
                let truth = self.truth(j, k);
                seq![
                    Line::Continuous {
                        column: paid,
                        upper: big,
                        value: self.input.conditional_values@[j].value_per_tonne,
                    },
                    at_most_row(seq![(paid, one::<N>()), (moved, less_one::<N>())], nil::<N>()),
                    at_most_row(seq![(paid, one::<N>()), (truth, big.opposite())], nil::<N>()),
                    at_least_row(
                        seq![(paid, one::<N>()), (moved, less_one::<N>()), (truth, big.opposite())],
                        big.opposite(),
                    ),
                ]
            }
    }

    pub open spec fn payment_interval(self, j: int, c: int, pile: StockpileId) -> spec_fn(int) -> Seq<Line<N>> {
        |k: int|
            if keyed(self.input.piles@, pile.0) is Some && self.moves(c, k) {
                let sides = all_sides(self.input.conditional_values@[j].bounds@);
                let big = self.rate_or_zero(c, k).times(self.length(k));
                self.truth_lines(j, k, pile, sides) + flat(self.segments as nat, self.paid_line(j, c, k, big))
            } else {
                Seq::empty()
            }
    }

    pub open spec fn payment_lines(self) -> spec_fn(int) -> Seq<Line<N>> {
        |j: int|
            {
                let c = self.input.conditional_values@[j].candidate as int;
                if c < self.candidates() && self.candidate(c).activity is Reclaim {
                    match self.candidate(c).source {
                        SourceId::Stockpile(pile) => flat(self.horizon(), self.payment_interval(j, c, pile)),
                        SourceId::Ground(_) => Seq::empty(),
                    }
                } else {
                    Seq::empty()
                }
            }
    }

    fn write_parts(
        &self,
        sheet: &mut Sheet<N>,
        j: usize,
        k: usize,
        pile: StockpileId,
        sides: &Vec<GradeHalfSpace<N>>,
    ) -> (parts: Vec<Column>)
        requires
            self.ready_to_write(),
            k < self.horizon(),
        ensures
            final(sheet)@ == old(sheet)@ + flat(sides@.len(), self.part_line(j as int, k as int, pile, sides@)),
            parts@ == flat(sides@.len(), self.part_column(j as int, k as int, sides@)),
    {
        let most = self.find_reclaim_ceiling(pile, k);
        let mut parts: Vec<Column> = Vec::new();
        let ghost base = sheet@;
        let ghost line = self.part_line(j as int, k as int, pile, sides@);
        let ghost each = self.part_column(j as int, k as int, sides@);
        assert(base + flat(0, line) =~= base);
        for y in 0..sides.len()
            invariant
                self.ready_to_write(),
                most == self.reclaim_ceiling(pile, k as int),
                line == self.part_line(j as int, k as int, pile, sides@),
                each == self.part_column(j as int, k as int, sides@),
                sheet@ == base + flat(y as nat, line),
                parts@ == flat(y as nat, each),
        {
            let test = sides[y];
            if test.grade < self.input.grades.fields.len() {
                let q = Column::ReclQ { pile, interval: k, grade: test.grade };
                let t = Column::ReclT { pile, interval: k };
                let ceiling = self.find_ceiling(test.grade);
                let part = Column::Part { payment: j, interval: k, side: y };
                let counterpart = Column::Counterpart { payment: j, interval: k, side: y };
                sheet.binary(part);
                write_side(sheet, part, q, t, test, ceiling, most);
                sheet.binary(counterpart);
                sheet.eq(terms_of(part, N::whole(1), counterpart, N::whole(1)), N::whole(1));
                write_side(sheet, counterpart, q, t, test.negated(), ceiling, most);
                parts.push(part);
            }
            assert(parts@ =~= flat(y as nat, each) + each(y as int));
            assert(sheet@ =~= base + (flat(y as nat, line) + line(y as int)));
        }
        parts
    }

    fn write_truth(&self, sheet: &mut Sheet<N>, j: usize, k: usize, pile: StockpileId, sides: &Vec<GradeHalfSpace<N>>)
        requires
            self.ready_to_write(),
            k < self.horizon(),
        ensures
            final(sheet)@ == old(sheet)@ + self.truth_lines(j as int, k as int, pile, sides@),
    {
        let ghost base = sheet@;
        let truth = Column::Truth { payment: j, interval: k };
        sheet.binary(truth);
        let parts = self.write_parts(sheet, j, k, pile, sides);
        if parts.len() == 0 {
            sheet.eq(term(truth, N::whole(1)), N::whole(1));
        } else {
            let ghost inner = sheet@;
            let ghost line = self.part_holds(truth, parts@);
            assert(inner + flat(0, line) =~= inner);
            for r in 0..parts.len()
                invariant
                    line == self.part_holds(truth, parts@),
                    sheet@ == inner + flat(r as nat, line),
            {
                sheet.leq(terms_of(truth, N::whole(1), parts[r], N::whole(1).neg()), N::whole(0));
                assert(sheet@ =~= inner + (flat(r as nat, line) + line(r as int)));
            }
            let mut terms = term(truth, N::whole(1));
            self.add_flags(&mut terms, &parts, N::whole(1).neg());
            sheet.geq(terms, N::whole(parts.len() as u64).sub(N::whole(1)).neg());
        }
        assert(sheet@ =~= base + self.truth_lines(j as int, k as int, pile, sides@));
    }

    fn write_payment_interval(&self, sheet: &mut Sheet<N>, j: usize, c: usize, k: usize, pile: StockpileId)
        requires
            self.ready_to_write(),
            k < self.horizon(),
            j < self.input.conditional_values@.len(),
            c < self.candidates(),
        ensures
            final(sheet)@ == old(sheet)@ + self.payment_interval(j as int, c as int, pile)(k as int),
    {
        let ghost base = sheet@;
        if find_key(&self.input.piles, pile.0).is_some() && self.can_move(c, k) {
            let payment = &self.input.conditional_values[j];
            let sides = payment.half_spaces();
            self.write_truth(sheet, j, k, pile, &sides);
            let big = self.find_rate(c, k).mul(self.input.intervals[k].duration_h());
            let truth = Column::Truth { payment: j, interval: k };
            let ghost inner = sheet@;
            let ghost line = self.paid_line(j as int, c as int, k as int, big);
            assert(inner + flat(0, line) =~= inner);
            for s in 0..self.segments
                invariant
                    j < self.input.conditional_values@.len(),
                    payment == self.input.conditional_values@[j as int],
                    truth == self.truth(j as int, k as int),
                    line == self.paid_line(j as int, c as int, k as int, big),
                    sheet@ == inner + flat(s as nat, line),
            {
                let paid = Column::Paid { payment: j, interval: k, segment: s };
                let moved = Column::Movement { candidate: c, interval: k, segment: s };
                sheet.valued(paid, big, payment.value_per_tonne);
                sheet.leq(terms_of(paid, N::whole(1), moved, N::whole(1).neg()), N::whole(0));
                sheet.leq(terms_of(paid, N::whole(1), truth, big.neg()), N::whole(0));
                sheet.geq(terms_of_three(paid, N::whole(1), moved, N::whole(1).neg(), truth, big.neg()), big.neg());
                assert(sheet@ =~= inner + (flat(s as nat, line) + line(s as int)));
            }
        }
        assert(sheet@ =~= base + self.payment_interval(j as int, c as int, pile)(k as int));
    }

    /// Writes what is paid for by grade.
    pub fn write_payments(&self, sheet: &mut Sheet<N>)
        requires
            self.ready_to_write(),
        ensures
            final(sheet)@ == old(sheet)@ + flat(self.input.conditional_values@.len(), self.payment_lines()),
    {
        let ghost base = sheet@;
        let ghost all = self.payment_lines();
        assert(base + flat(0, all) =~= base);
        for j in 0..self.input.conditional_values.len()
            invariant
                self.ready_to_write(),
                all == self.payment_lines(),
                sheet@ == base + flat(j as nat, all),
        {
            let c: usize = self.input.conditional_values[j].candidate;
            if c < self.input.movements.len() && self.input.movements[c].activity == Activity::Reclaim {
                if let SourceId::Stockpile(pile) = self.input.movements[c].source {
                    let ghost inner = sheet@;
                    let ghost line = self.payment_interval(j as int, c as int, pile);
                    assert(inner + flat(0, line) =~= inner);
                    for k in 0..self.input.intervals.len()
                        invariant
                            self.ready_to_write(),
                            j < self.input.conditional_values@.len(),
                            c < self.candidates(),
                            line == self.payment_interval(j as int, c as int, pile),
                            sheet@ == inner + flat(k as nat, line),
                    {
                        self.write_payment_interval(sheet, j, c, k, pile);
                        assert(sheet@ =~= inner + (flat(k as nat, line) + line(k as int)));
                    }
                }
            }
            assert(sheet@ =~= base + (flat(j as nat, all) + all(j as int)));
        }
    }
}

} // verus!
