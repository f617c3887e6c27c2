//! What a blended optimisation is given.
use vstd::prelude::*;

use crate::listing::{find_key, find_last_key, keyed, last_keyed, sum_to, Keyed};
use crate::optimisation::authored::{authored, authored_order, windows_compare};
use crate::optimisation::blended::grade::GradeTable;
use crate::optimisation::ids::{
    Activity, CashflowRuleId, DestinationId, DestinationKind, LoaderId, ReclaimOrder, RoutingRuleId, SourceId,
    StockpileId,
};
use crate::optimisation::input::{
    holds_ground, holds_pile, Destination, GroundSource, Interval, IntervalRate, Loader, MovementCandidate, Task,
    TaskKind, TruckClass,
};
use crate::scalar::Scalar;

verus! {

/// A stockpile whose material blends. With chunks it is a row of smaller
/// piles, each filled, closed and drawn down in turn.
#[derive(Clone, Debug)]
pub struct BlendPile<N> {
    pub id: StockpileId,
    pub capacity_t: N,
    pub opening_t: N,
    /// What the opening holds of each grade.
    pub opening_q: Vec<N>,
    /// The capacity of each chunk.
    pub chunks: Vec<N>,
    pub order: ReclaimOrder,
    /// What each chunk holds at the start, and of each grade.
    pub chunk_opening: Vec<(N, Vec<N>)>,
}

/// What a list holds at an index, zero beyond its end.
pub open spec fn entry_or_zero<N: Scalar>(values: Seq<N>, g: int) -> N {
    if g < values.len() {
        values[g]
    } else {
        N::of_whole(0)
    }
}

pub open spec fn chunk_tonnes<N: Scalar>(chunks: Seq<(N, Vec<N>)>) -> spec_fn(int) -> Option<N> {
    |c: int| Some(chunks[c].0)
}

pub open spec fn chunk_contained<N: Scalar>(chunks: Seq<(N, Vec<N>)>, g: int) -> spec_fn(int) -> Option<N> {
    |c: int|
        if g < chunks[c].1@.len() {
            Some(chunks[c].1@[g])
        } else {
            None
        }
}

pub open spec fn lot_contained<N: Scalar>(lots: Seq<(N, Vec<N>)>, g: int) -> spec_fn(int) -> Option<N> {
    |c: int|
        if g < lots[c].1@.len() {
            Some(lots[c].0.times(lots[c].1@[g]))
        } else {
            None
        }
}

impl<N> Keyed for BlendPile<N> {
    open spec fn key_of(&self) -> u32 {
        self.id.0
    }

    fn key(&self) -> (r: u32) {
        self.id.0
    }
}

impl<N: Scalar> BlendPile<N> {
    /// What the pile holds at the start: its chunks together, where it has any.
    pub open spec fn opening_tonnes(self) -> N {
        if self.chunk_opening@.len() == 0 {
            self.opening_t
        } else {
            sum_to(self.chunk_opening@.len(), chunk_tonnes(self.chunk_opening@))
        }
    }

    /// What the pile holds of a grade at the start.
    pub open spec fn opening_contained(self, g: int) -> N {
        if self.chunk_opening@.len() == 0 {
            entry_or_zero(self.opening_q@, g)
        } else {
            sum_to(self.chunk_opening@.len(), chunk_contained(self.chunk_opening@, g))
        }
    }

    /// What a chunk holds at the start, where that is given. A pile with no
    /// chunk openings has everything in its first chunk.
    pub open spec fn opening_in(self, c: int) -> Option<N> {
        if self.chunk_opening@.len() == 0 {
            Some(
                if c == 0 {
                    self.opening_t
                } else {
                    N::of_whole(0)
                },
            )
        } else if c < self.chunk_opening@.len() {
            Some(self.chunk_opening@[c].0)
        } else {
            None
        }
    }

    /// What a chunk holds of a grade at the start.
    pub open spec fn opening_in_of(self, c: int, g: int) -> N {
        if self.chunk_opening@.len() == 0 {
            if c == 0 {
                entry_or_zero(self.opening_q@, g)
            } else {
                N::of_whole(0)
            }
        } else if c < self.chunk_opening@.len() {
            entry_or_zero(self.chunk_opening@[c].1@, g)
        } else {
            N::of_whole(0)
        }
    }

    /// What a chunk holds at the start.
    pub fn chunk_holds(&self, c: usize) -> (r: Option<N>)
        ensures
            r == self.opening_in(c as int),
    {
        if self.chunk_opening.len() == 0 {
            Some(
                if c == 0 {
                    self.opening_t
                } else {
                    N::whole(0)
                },
            )
        } else if c < self.chunk_opening.len() {
            Some(self.chunk_opening[c].0)
        } else {
            None
        }
    }

    /// What a chunk holds of a grade at the start.
    pub fn chunk_holds_of(&self, c: usize, g: usize) -> (r: N)
        ensures
            r == self.opening_in_of(c as int, g as int),
    {
        if self.chunk_opening.len() == 0 {
            if c == 0 && g < self.opening_q.len() {
                self.opening_q[g]
            } else {
                N::whole(0)
            }
        } else if c < self.chunk_opening.len() {
            let contained = &self.chunk_opening[c].1;
            if g < contained.len() {
                contained[g]
            } else {
                N::whole(0)
            }
        } else {
            N::whole(0)
        }
    }

    /// What the pile holds at the start, in all and of each grade.
    pub fn total_opening(&self, grades: usize) -> (r: (N, Vec<N>))
        ensures
            r.0 == self.opening_tonnes(),
            r.1@ == Seq::new(grades as nat, |g: int| self.opening_contained(g)),
    {
        let mut contained: Vec<N> = Vec::new();
        if self.chunk_opening.len() == 0 {
            for g in 0..grades
                invariant
                    self.chunk_opening@.len() == 0,
                    contained@ =~= Seq::new(g as nat, |g: int| self.opening_contained(g)),
            {
                contained.push(if g < self.opening_q.len() {
                    self.opening_q[g]
                } else {
                    N::whole(0)
                });
            }
            return (self.opening_t, contained);
        }
        let mut tonnes = N::whole(0);
        for c in 0..self.chunk_opening.len()
            invariant
                tonnes == sum_to(c as nat, chunk_tonnes(self.chunk_opening@)),
        {
            tonnes = tonnes.add(self.chunk_opening[c].0);
        }
        for g in 0..grades
            invariant
                self.chunk_opening@.len() > 0,
                contained@ =~= Seq::new(g as nat, |g: int| self.opening_contained(g)),
        {
            let mut held = N::whole(0);
            for c in 0..self.chunk_opening.len()
                invariant
                    held == sum_to(c as nat, chunk_contained(self.chunk_opening@, g as int)),
            {
                if g < self.chunk_opening[c].1.len() {
                    held = held.add(self.chunk_opening[c].1[g]);
                }
            }
            contained.push(held);
        }
        (tonnes, contained)
    }

    /// One blended pile from opening lots given by tonnes and grade fractions.
    pub fn combine(id: StockpileId, capacity_t: N, lots: &Vec<(N, Vec<N>)>, grades: usize) -> (r: Self)
        ensures
            r.id == id,
            r.capacity_t == capacity_t,
            r.opening_t == sum_to(lots@.len(), chunk_tonnes(lots@)),
            r.opening_q@ == Seq::new(grades as nat, |g: int| sum_to(lots@.len(), lot_contained(lots@, g))),
            r.chunks@.len() == 0,
            r.order == ReclaimOrder::Fifo,
            r.chunk_opening@.len() == 0,
    {
        let mut opening_t = N::whole(0);
        for c in 0..lots.len()
            invariant
                opening_t == sum_to(c as nat, chunk_tonnes(lots@)),
        {
            opening_t = opening_t.add(lots[c].0);
        }
        let mut opening_q: Vec<N> = Vec::new();
        for g in 0..grades
            invariant
                opening_q@ =~= Seq::new(g as nat, |g: int| sum_to(lots@.len(), lot_contained(lots@, g))),
        {
            let mut held = N::whole(0);
            for c in 0..lots.len()
                invariant
                    held == sum_to(c as nat, lot_contained(lots@, g as int)),
            {
                if g < lots[c].1.len() {
                    held = held.add(lots[c].0.mul(lots[c].1[g]));
                }
            }
            opening_q.push(held);
        }
        BlendPile {
            id,
            capacity_t,
            opening_t,
            opening_q,
            chunks: Vec::new(),
            order: ReclaimOrder::Fifo,
            chunk_opening: Vec::new(),
        }
    }
}

/// The end of a range of grades.
#[derive(Clone, Copy, Debug)]
pub struct GradeEndpoint<N> {
    pub value: N,
    pub inclusive: bool,
}

/// Every blend on one side of an endpoint.
#[derive(Clone, Copy, Debug)]
pub struct GradeHalfSpace<N> {
    pub grade: usize,
    pub above: bool,
    pub endpoint: GradeEndpoint<N>,
}

/// How far arithmetic may push a blend across an endpoint.
pub open spec fn grade_slack<N: Scalar>() -> N {
    N::of_decimal(1, 9)
}

impl<N: Scalar> GradeHalfSpace<N> {
    pub open spec fn admits(self, blend: N) -> bool {
        let value = self.endpoint.value;
        match (self.above, self.endpoint.inclusive) {
            (true, true) => value.minus(grade_slack()).at_most(blend),
            (true, false) => value.plus(grade_slack()).below(blend),
            (false, true) => blend.at_most(value.plus(grade_slack())),
            (false, false) => blend.below(value.minus(grade_slack())),
        }
    }

    pub open spec fn opposite_side(self) -> Self {
        GradeHalfSpace {
            grade: self.grade,
            above: !self.above,
            endpoint: GradeEndpoint { value: self.endpoint.value, inclusive: !self.endpoint.inclusive },
        }
    }

    /// Whether a blend lies on this side.
    pub fn holds(self, blend: N) -> (r: bool)
        ensures
            r == self.admits(blend),
    {
        let value = self.endpoint.value;
        let slack = N::decimal(1, 9);
        match (self.above, self.endpoint.inclusive) {
            (true, true) => value.sub(slack).is_at_most(blend),
            (true, false) => value.add(slack).is_below(blend),
            (false, true) => blend.is_at_most(value.add(slack)),
            (false, false) => blend.is_below(value.sub(slack)),
        }
    }

    /// The other side.
    pub fn negated(self) -> (r: Self)
        ensures
            r == self.opposite_side(),
    {
        GradeHalfSpace {
            grade: self.grade,
            above: !self.above,
            endpoint: GradeEndpoint { value: self.endpoint.value, inclusive: !self.endpoint.inclusive },
        }
    }
}

/// Negating twice gives the same side back.
pub proof fn negation_undone<N: Scalar>(side: GradeHalfSpace<N>)
    ensures
        side.opposite_side().opposite_side() == side,
{
}

/// A blend lies on exactly one of a side and its negation.
pub proof fn sides_divide<N: Scalar>(side: GradeHalfSpace<N>, blend: N)
    requires
        blend.number(),
        side.endpoint.value.minus(grade_slack()).number(),
        side.endpoint.value.plus(grade_slack()).number(),
    ensures
        side.opposite_side().admits(blend) <==> !side.admits(blend),
{
    let (low, high) = (side.endpoint.value.minus(grade_slack::<N>()), side.endpoint.value.plus(grade_slack::<N>()));
    N::comparison_laws(low, blend, low);
    N::comparison_laws(blend, low, blend);
    N::comparison_laws(high, blend, high);
    N::comparison_laws(blend, high, blend);
}

/// A range of one grade.
#[derive(Clone, Copy, Debug)]
pub struct GradeBound<N> {
    pub grade: usize,
    pub lower: Option<GradeEndpoint<N>>,
    pub upper: Option<GradeEndpoint<N>>,
}

impl<N: Scalar> GradeBound<N> {
    /// The sides of the range: its lower end, then its upper.
    pub open spec fn sides(self) -> Seq<GradeHalfSpace<N>> {
        (match self.lower {
            Some(endpoint) => seq![GradeHalfSpace { grade: self.grade, above: true, endpoint }],
            None => Seq::empty(),
        }) + (match self.upper {
            Some(endpoint) => seq![GradeHalfSpace { grade: self.grade, above: false, endpoint }],
            None => Seq::empty(),
        })
    }

    pub open spec fn admits(self, blend: Seq<N>) -> bool {
        let value = entry_or_zero(blend, self.grade as int);
        forall|k: int| 0 <= k < self.sides().len() ==> (#[trigger] self.sides()[k]).admits(value)
    }

    pub fn half_spaces(self) -> (r: Vec<GradeHalfSpace<N>>)
        ensures
            r@ == self.sides(),
    {
        let mut tests: Vec<GradeHalfSpace<N>> = Vec::new();
        if let Some(endpoint) = self.lower {
            tests.push(GradeHalfSpace { grade: self.grade, above: true, endpoint });
        }
        if let Some(endpoint) = self.upper {
            tests.push(GradeHalfSpace { grade: self.grade, above: false, endpoint });
        }
        assert(tests@ =~= self.sides());
        tests
    }

    /// Whether a blend lies in the range.
    pub fn holds(self, blend: &Vec<N>) -> (r: bool)
        ensures
            r == self.admits(blend@),
    {
        let value = if self.grade < blend.len() {
            blend[self.grade]
        } else {
            N::whole(0)
        };
        let tests = self.half_spaces();
        for k in 0..tests.len()
            invariant
                value == entry_or_zero(blend@, self.grade as int),
                tests@ == self.sides(),
                forall|q: int| 0 <= q < k ==> (#[trigger] self.sides()[q]).admits(value),
        {
            if !tests[k].holds(value) {
                assert(!self.sides()[k as int].admits(value));
                return false;
            }
        }
        true
    }
}

pub open spec fn bounds_admit<N: Scalar>(bounds: Seq<GradeBound<N>>, blend: Seq<N>) -> bool {
    forall|k: int| 0 <= k < bounds.len() ==> (#[trigger] bounds[k]).admits(blend)
}

pub open spec fn bound_sides<N: Scalar>(bounds: Seq<GradeBound<N>>) -> spec_fn(int) -> Seq<GradeHalfSpace<N>> {
    |k: int| bounds[k].sides()
}

/// The sides of every range, in order.
pub open spec fn all_sides<N: Scalar>(bounds: Seq<GradeBound<N>>) -> Seq<GradeHalfSpace<N>> {
    crate::listing::flat(bounds.len(), bound_sides(bounds))
}

fn bounds_hold<N: Scalar>(bounds: &Vec<GradeBound<N>>, blend: &Vec<N>) -> (r: bool)
    ensures
        r == bounds_admit(bounds@, blend@),
{
    for k in 0..bounds.len()
        invariant
            forall|q: int| 0 <= q < k ==> (#[trigger] bounds@[q]).admits(blend@),
    {
        if !bounds[k].holds(blend) {
            return false;
        }
    }
    true
}

fn bounds_sides<N: Scalar>(bounds: &Vec<GradeBound<N>>) -> (r: Vec<GradeHalfSpace<N>>)
    ensures
        r@ == all_sides(bounds@),
{
    let mut out: Vec<GradeHalfSpace<N>> = Vec::new();
    for k in 0..bounds.len()
        invariant
            out@ == crate::listing::flat(k as nat, bound_sides(bounds@)),
    {
        let mut sides = bounds[k].half_spaces();
        out.append(&mut sides);
    }
    out
}

/// The ranges under which a routing rule permits a route.
#[derive(Clone, Debug)]
pub struct GradePredicate<N> {
    pub rule: RoutingRuleId,
    pub bounds: Vec<GradeBound<N>>,
}

impl<N: Scalar> GradePredicate<N> {
    /// Whether a blend lies in every range.
    pub fn holds(&self, blend: &Vec<N>) -> (r: bool)
        ensures
            r == bounds_admit(self.bounds@, blend@),
    {
        bounds_hold(&self.bounds, blend)
    }

    /// Whether every blend is permitted.
    pub fn unconditional(&self) -> (r: bool)
        ensures
            r == (self.bounds@.len() == 0),
    {
        self.bounds.len() == 0
    }

    pub fn half_spaces(&self) -> (r: Vec<GradeHalfSpace<N>>)
        ensures
            r@ == all_sides(self.bounds@),
    {
        bounds_sides(&self.bounds)
    }
}

/// The routes from a pile to a destination that some rule permits by grade.
#[derive(Clone, Debug)]
pub struct GradeQualification<N> {
    pub loader: LoaderId,
    pub pile: StockpileId,
    pub destination: DestinationId,
    pub alternatives: Vec<GradePredicate<N>>,
}

/// The least grade that a destination takes.
#[derive(Clone, Copy, Debug)]
pub struct GradeLimit<N> {
    pub destination: DestinationId,
    pub grade: usize,
    pub minimum: N,
    pub inclusive: bool,
}

impl<N: Scalar> GradeQualification<N> {
    pub open spec fn admits(self, blend: Seq<N>) -> bool {
        exists|k: int|
            0 <= k < self.alternatives@.len() && bounds_admit((#[trigger] self.alternatives@[k]).bounds@, blend)
    }

    pub open spec fn open_to_all(self) -> bool {
        exists|k: int| 0 <= k < self.alternatives@.len() && (#[trigger] self.alternatives@[k]).bounds@.len() == 0
    }

    /// Whether some alternative permits a blend.
    pub fn holds(&self, blend: &Vec<N>) -> (r: bool)
        ensures
            r == self.admits(blend@),
    {
        for k in 0..self.alternatives.len()
            invariant
                forall|q: int| 0 <= q < k ==> !bounds_admit((#[trigger] self.alternatives@[q]).bounds@, blend@),
        {
            if self.alternatives[k].holds(blend) {
                assert(bounds_admit(self.alternatives@[k as int].bounds@, blend@));
                return true;
            }
        }
        false
    }

    /// Whether some alternative permits every blend.
    pub fn unconditional(&self) -> (r: bool)
        ensures
            r == self.open_to_all(),
    {
        for k in 0..self.alternatives.len()
            invariant
                forall|q: int| 0 <= q < k ==> (#[trigger] self.alternatives@[q]).bounds@.len() != 0,
        {
            if self.alternatives[k].unconditional() {
                assert(self.alternatives@[k as int].bounds@.len() == 0);
                return true;
            }
        }
        false
    }
}

/// A qualification with an alternative that has no ranges admits every blend.
pub proof fn unconditional_admits<N: Scalar>(qualification: GradeQualification<N>, blend: Seq<N>)
    requires
        qualification.open_to_all(),
    ensures
        qualification.admits(blend),
{
    let k = choose|k: int|
        0 <= k < qualification.alternatives@.len() && (#[trigger] qualification.alternatives@[k]).bounds@.len() == 0;
    assert(bounds_admit(qualification.alternatives@[k].bounds@, blend));
}

/// A payment that depends on the grade delivered.
#[derive(Clone, Debug)]
pub struct ConditionalValue<N> {
    pub candidate: usize,
    pub rule: CashflowRuleId,
    pub value_per_tonne: N,
    pub bounds: Vec<GradeBound<N>>,
}

impl<N: Scalar> ConditionalValue<N> {
    /// Whether a blend is paid for.
    pub fn holds(&self, blend: &Vec<N>) -> (r: bool)
        ensures
            r == bounds_admit(self.bounds@, blend@),
    {
        bounds_hold(&self.bounds, blend)
    }

    pub fn half_spaces(&self) -> (r: Vec<GradeHalfSpace<N>>)
        ensures
            r@ == all_sides(self.bounds@),
    {
        bounds_sides(&self.bounds)
    }
}

#[derive(Clone, Debug)]
pub struct BlendInput<N> {
    pub intervals: Vec<Interval<N>>,
    pub segments_per_interval: usize,
    pub grades: GradeTable<N>,
    pub piles: Vec<BlendPile<N>>,
    pub loaders: Vec<Loader<N>>,
    pub tasks: Vec<Task<N>>,
    pub ground: Vec<GroundSource<N>>,
    pub destinations: Vec<Destination<N>>,
    pub trucks: Vec<TruckClass<N>>,
    pub movements: Vec<MovementCandidate<N>>,
    pub qualifications: Vec<GradeQualification<N>>,
    pub conditional_values: Vec<ConditionalValue<N>>,
    pub grade_limits: Vec<GradeLimit<N>>,
}

/// Segments of all intervals numbered in one row.
pub fn flat_cell(interval: usize, segment: usize, segments: usize) -> (r: usize)
    requires
        interval * segments + segment <= usize::MAX,
    ensures
        r == interval * segments + segment,
{
    proof {
        assert(0 <= interval * segments) by (nonlinear_arith);
    }
    interval * segments + segment
}

/// Cells of different intervals or segments have different numbers.
pub proof fn cells_differ(interval: nat, segment: nat, other_interval: nat, other_segment: nat, segments: nat)
    requires
        segment < segments,
        other_segment < segments,
        interval * segments + segment == other_interval * segments + other_segment,
    ensures
        interval == other_interval && segment == other_segment,
{
    vstd::arithmetic::div_mod::lemma_fundamental_div_mod_converse(
        (interval * segments + segment) as int,
        segments as int,
        interval as int,
        segment as int,
    );
    vstd::arithmetic::div_mod::lemma_fundamental_div_mod_converse(
        (interval * segments + segment) as int,
        segments as int,
        other_interval as int,
        other_segment as int,
    );
}

/// The index of a loader's rate for an interval.
pub open spec fn rate_from<N>(rates: Seq<IntervalRate<N>>, interval: usize, i: int) -> Option<int>
    decreases rates.len() - i,
{
    if i >= rates.len() {
        None
    } else if rates[i].interval == interval {
        Some(i)
    } else {
        rate_from(rates, interval, i + 1)
    }
}

pub open spec fn rate_of<N>(loader: Loader<N>, interval: usize) -> Option<IntervalRate<N>> {
    match rate_from(loader.rates@, interval, 0) {
        Some(i) => Some(loader.rates@[i]),
        None => None,
    }
}

/// A loader's rates in an interval.
pub fn interval_rate<N: Scalar>(loader: &Loader<N>, interval: usize) -> (r: Option<IntervalRate<N>>)
    ensures
        r == rate_of(*loader, interval),
{
    for i in 0..loader.rates.len()
        invariant
            rate_from(loader.rates@, interval, 0) == rate_from(loader.rates@, interval, i as int),
    {
        if loader.rates[i].interval == interval {
            return Some(loader.rates[i]);
        }
    }
    None
}

/// The rate that goes with an activity.
pub open spec fn rate_for<N>(rate: IntervalRate<N>, activity: Activity) -> N {
    match activity {
        Activity::Dig => rate.dig_tph,
        Activity::Reclaim => rate.reclaim_tph,
    }
}

pub open spec fn candidate_rate<N>(
    input: BlendInput<N>,
    candidate: MovementCandidate<N>,
    interval: usize,
) -> Option<N> {
    match keyed(input.loaders@, candidate.loader.0) {
        Some(l) => match rate_of(input.loaders@[l], interval) {
            Some(rate) => Some(rate_for(rate, candidate.activity)),
            None => None,
        },
        None => None,
    }
}

/// How fast a candidate's loader can make it in an interval.
pub fn loader_rate<N: Scalar>(input: &BlendInput<N>, candidate: &MovementCandidate<N>, interval: usize) -> (r: Option<N>)
    ensures
        r == candidate_rate(*input, *candidate, interval),
{
    match find_key(&input.loaders, candidate.loader.0) {
        Some(l) => match interval_rate(&input.loaders[l], interval) {
            Some(rate) => Some(
                match candidate.activity {
                    Activity::Dig => rate.dig_tph,
                    Activity::Reclaim => rate.reclaim_tph,
                },
            ),
            None => None,
        },
        None => None,
    }
}

/// A loader's tasks in the order they are worked in.
pub fn authored_tasks<N: Scalar>(input: &BlendInput<N>, loader_index: usize) -> (r: Vec<usize>)
    requires
        loader_index < input.loaders@.len(),
        windows_compare(input.tasks@),
    ensures
        r@ == authored(input.tasks@, input.loaders@[loader_index as int].id),
        forall|q: int| 0 <= q < r@.len() ==> (#[trigger] r@[q]) < input.tasks@.len(),
{
    authored_order(&input.tasks, input.loaders[loader_index].id)
}

pub open spec fn operable<N: Scalar>(loader: Loader<N>, task: Task<N>, interval: usize) -> bool {
    match rate_of(loader, interval) {
        Some(rate) => match task.kind {
            TaskKind::Dig { .. } => N::of_whole(0).below(rate.dig_tph),
            TaskKind::Reclaim { .. } => N::of_whole(0).below(rate.reclaim_tph),
        },
        None => false,
    }
}

/// Whether a loader can work on a task at all in an interval.
pub fn task_operable<N: Scalar>(loader: &Loader<N>, task: &Task<N>, interval: usize) -> (r: bool)
    ensures
        r == operable(*loader, *task, interval),
{
    match interval_rate(loader, interval) {
        Some(rate) => match &task.kind {
            TaskKind::Dig { .. } => N::whole(0).is_below(rate.dig_tph),
            TaskKind::Reclaim { .. } => N::whole(0).is_below(rate.reclaim_tph),
        },
        None => false,
    }
}

pub open spec fn authorises<N>(task: Task<N>, candidate: MovementCandidate<N>) -> bool {
    task.loader == candidate.loader && match (task.kind, candidate.source) {
        (TaskKind::Dig { sequence }, SourceId::Ground(ground)) => candidate.activity is Dig && sequence@.contains(ground),
        (TaskKind::Reclaim { approved_sources, .. }, SourceId::Stockpile(pile)) => candidate.activity is Reclaim
            && approved_sources@.contains(pile),
        _ => false,
    }
}

/// Whether a task lets its loader make a movement.
pub fn task_authorises<N>(task: &Task<N>, candidate: &MovementCandidate<N>) -> (r: bool)
    ensures
        r == authorises(*task, *candidate),
{
    if task.loader != candidate.loader {
        return false;
    }
    match (&task.kind, candidate.source) {
        (TaskKind::Dig { sequence }, SourceId::Ground(ground)) => candidate.activity == Activity::Dig && holds_ground(
            sequence,
            ground,
        ),
        (TaskKind::Reclaim { approved_sources, maximum_t: _ }, SourceId::Stockpile(pile)) => candidate.activity
            == Activity::Reclaim && holds_pile(approved_sources, pile),
        _ => false,
    }
}

pub open spec fn delivers<N>(candidate: MovementCandidate<N>, pile: StockpileId, destinations: Seq<Destination<N>>) -> bool {
    match last_keyed(destinations, candidate.destination.0) {
        Some(d) => destinations[d].kind == DestinationKind::Stockpile(pile),
        None => false,
    }
}

/// Whether a movement ends on a pile.
pub fn delivers_to_pile<N>(candidate: &MovementCandidate<N>, pile: StockpileId, destinations: &Vec<Destination<N>>) -> (r:
    bool)
    ensures
        r == delivers(*candidate, pile, destinations@),
{
    match find_last_key(destinations, candidate.destination.0) {
        Some(d) => destinations[d].kind == DestinationKind::Stockpile(pile),
        None => false,
    }
}

} // verus!
