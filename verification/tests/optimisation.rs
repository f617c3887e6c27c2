//! Schedules, from the model of an input to the audit of what a small exact
//! solver makes of it.
use mine_schedule::cancellation::CancellationToken;
use mine_schedule::ledger::{pair_key, Ledger, Pair};
use mine_schedule::optimisation::audit::issue::IssueKind;
use mine_schedule::optimisation::audit::parcels::validate_solution;
use mine_schedule::optimisation::authored::{authored_order, do_windows_compare};
use mine_schedule::optimisation::blended::chunks::chunk_key;
use mine_schedule::optimisation::blended::estimates::{Estimates, StartPolicy};
use mine_schedule::optimisation::blended::extraction::extract_solution;
use mine_schedule::optimisation::blended::formulation::formulate::formulate;
use mine_schedule::optimisation::blended::formulation::model::{BlendColumns, Column, Sheet};
use mine_schedule::optimisation::blended::grade::{
    GradeBasis, GradeField, GradeRejection, GradeTable, ReserveAggregation, ReserveField, ReserveFieldId,
};
use mine_schedule::optimisation::blended::input::{
    BlendInput, BlendPile, ConditionalValue, GradeBound, GradeEndpoint, GradeHalfSpace, GradeLimit, GradePredicate,
    GradeQualification,
};
use mine_schedule::optimisation::blended::iterative::{CandidateOutcome, IterationBudget, Search, Termination};
use mine_schedule::optimisation::blended::replay::{replay, replay_cancellable};
use mine_schedule::optimisation::blended::report::{
    BlendSolution, ChunkRow, ExtractionAdjustments, GradeIssue, Label, MovementRow, ReplayIssue, ReplayReport,
};
use mine_schedule::optimisation::ids::{
    Activity, CashflowRuleId, DestinationId, DestinationKind, GroundId, LoaderId, LotId, MaterialId, ReclaimOrder,
    RoutingRuleId, SourceId, StockpileId, TaskId, TruckClassId,
};
use mine_schedule::optimisation::input::{
    CashflowContribution, Destination, GroundSource, HorizonSpec, InputError, InputField, Interval, IntervalRate,
    Loader, Material, MaterialShare, MovementCandidate, NumericalTolerances, OpeningLot, OptimisationInput, Stockpile,
    Task, TaskKind, TruckClass,
};
use mine_schedule::optimisation::intervals::build_intervals;
use mine_schedule::optimisation::parcel::base::Parcels;
use mine_schedule::optimisation::parcel::budget::segment_budgets;
use mine_schedule::optimisation::parcel::costs::dot;
use mine_schedule::optimisation::parcel::export::{request, take, ExportSlot};
use mine_schedule::optimisation::parcel::publish::outcome::Verdict;
use mine_schedule::optimisation::parcel::solve::{
    check, integrality_violation, map_status, next_attempt, opening, BackendStatus, Opening, Refusal, SolveLimits,
};
use mine_schedule::optimisation::result::{
    InventoryUnit, OptimisationResult, ReceiptParcel, ReclaimRecord, SolveStatistics, SolveStatus,
};
use mine_schedule::optimisation::sheet::{Entry, Sheet as GeneralSheet};
use mine_schedule::scalar::{Fixed, Scalar};

/// Tonnes, hours, grades and money as binary floating point.
#[derive(Clone, Copy, Debug, PartialEq)]
struct Real(f64);

impl Scalar for Real {
    fn of_whole(count: u64) -> Self {
        Real(count as f64)
    }

    fn of_decimal(digits: u64, places: u32) -> Self {
        Real(format!("{digits}e-{places}").parse().unwrap())
    }

    fn of_infinity() -> Self {
        Real(f64::INFINITY)
    }

    fn plus(self, other: Self) -> Self {
        Real(self.0 + other.0)
    }

    fn minus(self, other: Self) -> Self {
        Real(self.0 - other.0)
    }

    fn times(self, other: Self) -> Self {
        Real(self.0 * other.0)
    }

    fn over(self, other: Self) -> Self {
        Real(self.0 / other.0)
    }

    fn opposite(self) -> Self {
        Real(-self.0)
    }

    fn magnitude(self) -> Self {
        Real(self.0.abs())
    }

    fn upper(self, other: Self) -> Self {
        Real(self.0.max(other.0))
    }

    fn lower(self, other: Self) -> Self {
        Real(self.0.min(other.0))
    }

    fn below(self, other: Self) -> bool {
        self.0 < other.0
    }

    fn at_most(self, other: Self) -> bool {
        self.0 <= other.0
    }

    fn same(self, other: Self) -> bool {
        self.0 == other.0
    }

    fn finite(self) -> bool {
        self.0.is_finite()
    }

    fn number(self) -> bool {
        !self.0.is_nan()
    }

    fn precedes(self, other: Self) -> bool {
        self.0.total_cmp(&other.0).is_le()
    }

    fn floored(self) -> u32 {
        self.0.floor() as u32
    }

    fn raised(self) -> u64 {
        self.0.ceil() as u64
    }

    fn nearest(self) -> i64 {
        self.0.round() as i64
    }

    fn bits(self) -> u64 {
        f64::to_bits(self.0)
    }

    fn comparison_laws(_a: Self, _b: Self, _c: Self) {}

    fn sorting_laws(_a: Self, _b: Self, _c: Self) {}

    fn whole(count: u64) -> Self {
        Self::of_whole(count)
    }

    fn decimal(digits: u64, places: u32) -> Self {
        Self::of_decimal(digits, places)
    }

    fn infinity() -> Self {
        Self::of_infinity()
    }

    fn add(self, other: Self) -> Self {
        self.plus(other)
    }

    fn sub(self, other: Self) -> Self {
        self.minus(other)
    }

    fn mul(self, other: Self) -> Self {
        self.times(other)
    }

    fn div(self, other: Self) -> Self {
        self.over(other)
    }

    fn neg(self) -> Self {
        self.opposite()
    }

    fn abs(self) -> Self {
        self.magnitude()
    }

    fn larger(self, other: Self) -> Self {
        self.upper(other)
    }

    fn smaller(self, other: Self) -> Self {
        self.lower(other)
    }

    fn is_below(self, other: Self) -> bool {
        self.below(other)
    }

    fn is_at_most(self, other: Self) -> bool {
        self.at_most(other)
    }

    fn is_same(self, other: Self) -> bool {
        self.same(other)
    }

    fn is_finite(self) -> bool {
        self.finite()
    }

    fn comes_before(self, other: Self) -> bool {
        self.precedes(other)
    }

    fn floor(self) -> u32 {
        self.floored()
    }

    fn ceil(self) -> u64 {
        self.raised()
    }

    fn round(self) -> i64 {
        self.nearest()
    }

    fn to_bits(self) -> u64 {
        self.bits()
    }
}

const FE: usize = 0;

// A linear program over bounded columns, solved by the simplex method, with
// branching on the columns that are zero or one.

const SLACK: f64 = 1e-9;

#[derive(Clone)]
struct Program {
    /// What each basic column is of the others.
    tableau: Vec<Vec<f64>>,
    basic: Vec<usize>,
    others: Vec<usize>,
    value: Vec<f64>,
    low: Vec<f64>,
    high: Vec<f64>,
    worth: Vec<f64>,
}

impl Program {
    fn refresh(&mut self) {
        for i in 0..self.basic.len() {
            let mut sum = 0.0;
            for j in 0..self.others.len() {
                sum += self.tableau[i][j] * self.value[self.others[j]];
            }
            self.value[self.basic[i]] = sum;
        }
    }

    fn swap(&mut self, r: usize, j: usize) {
        let pivot = self.tableau[r][j];
        let width = self.others.len();
        for k in 0..width {
            if k != j {
                self.tableau[r][k] = -self.tableau[r][k] / pivot;
            }
        }
        self.tableau[r][j] = 1.0 / pivot;
        let row = self.tableau[r].clone();
        for i in 0..self.basic.len() {
            let factor = self.tableau[i][j];
            if i != r && factor != 0.0 {
                for k in 0..width {
                    if k == j {
                        self.tableau[i][k] = factor * row[k];
                    } else {
                        self.tableau[i][k] += factor * row[k];
                    }
                }
            }
        }
        let leaving = self.basic[r];
        self.basic[r] = self.others[j];
        self.others[j] = leaving;
    }

    /// How far column `c` is from its bounds: up is positive.
    fn lacking(&self, c: usize) -> f64 {
        if self.value[c] < self.low[c] - 1e-8 {
            1.0
        } else if self.value[c] > self.high[c] + 1e-8 {
            -1.0
        } else {
            0.0
        }
    }

    /// Moves to a point within the bounds and then to a best one.
    fn solve(&mut self) -> bool {
        let mut still = 0;
        for _ in 0..20_000 {
            let mut wanted: Vec<f64> = self.basic.iter().map(|c| self.lacking(*c)).collect();
            let feasible = wanted.iter().all(|d| *d == 0.0);
            if feasible {
                wanted = self.basic.iter().map(|c| self.worth[*c]).collect();
            }
            let mut pick: Option<(usize, f64)> = None;
            for j in 0..self.others.len() {
                let c = self.others[j];
                let mut slope = if feasible { self.worth[c] } else { 0.0 };
                for i in 0..self.basic.len() {
                    if wanted[i] != 0.0 {
                        slope += wanted[i] * self.tableau[i][j];
                    }
                }
                let room = if slope > 0.0 { self.high[c] - self.value[c] } else { self.value[c] - self.low[c] };
                if slope.abs() > 1e-8 && room > SLACK {
                    let better = match pick {
                        None => true,
                        Some((other, held)) => {
                            if still > 30 {
                                c < self.others[other]
                            } else {
                                slope.abs() > held.abs()
                            }
                        },
                    };
                    if better {
                        pick = Some((j, slope));
                    }
                }
            }
            let (j, slope) = match pick {
                Some(found) => found,
                None => return feasible,
            };
            let entering = self.others[j];
            let way = if slope > 0.0 { 1.0 } else { -1.0 };
            let span = self.high[entering] - self.low[entering];
            // Of the columns that stop the move within the tolerance, the one
            // that moves fastest leaves.
            let mut stops: Vec<(usize, f64, f64, f64)> = Vec::new();
            let mut most = span;
            for i in 0..self.basic.len() {
                let rate = way * self.tableau[i][j];
                if rate.abs() < SLACK {
                    continue;
                }
                let c = self.basic[i];
                let bound = match (self.lacking(c), rate > 0.0) {
                    (d, true) if d > 0.0 => self.low[c],
                    (d, false) if d > 0.0 => continue,
                    (d, false) if d < 0.0 => self.high[c],
                    (d, true) if d < 0.0 => continue,
                    (_, true) => self.high[c],
                    (_, false) => self.low[c],
                };
                if bound.is_finite() {
                    let reach = ((bound - self.value[c]) / rate).max(0.0);
                    most = most.min(reach + 5e-9 / rate.abs());
                    stops.push((i, bound, reach, rate.abs()));
                }
            }
            let mut stop: Option<(usize, f64, f64, f64)> = None;
            for found in stops {
                if found.2 <= most && stop.is_none_or(|held| found.3 > held.3) {
                    stop = Some(found);
                }
            }
            let stop = stop.filter(|found| found.2 < span);
            let step = stop.map_or(span, |found| found.2);
            assert!(step.is_finite(), "the program has no best point");
            still = if step > 1e-9 { 0 } else { still + 1 };
            self.value[entering] += way * step;
            for i in 0..self.basic.len() {
                let c = self.basic[i];
                self.value[c] += way * step * self.tableau[i][j];
            }
            if let Some((i, bound, _, _)) = stop {
                let leaving = self.basic[i];
                self.value[leaving] = bound;
                self.swap(i, j);
            }
        }
        panic!("the program was not solved");
    }

    /// The bounds of `self` on the unsolved program `base`.
    fn restarted(&self, base: &Program) -> Program {
        let mut fresh = base.clone();
        fresh.low = self.low.clone();
        fresh.high = self.high.clone();
        for c in &fresh.others {
            fresh.value[*c] = fresh.low[*c];
        }
        fresh.refresh();
        fresh
    }

    fn total(&self) -> f64 {
        (0..self.value.len()).map(|c| self.worth[c] * self.value[c]).sum()
    }
}

/// The best values of the columns of a sheet without mixes, with their worth.
fn best_of<C: Copy + Ord>(sheet: &GeneralSheet<C, Real>) -> Option<(Vec<C>, Vec<f64>, f64)> {
    let columns = sheet.columns();
    let flags = sheet.binaries();
    let count = columns.len();
    let at: std::collections::BTreeMap<C, usize> = columns.iter().enumerate().map(|(i, c)| (*c, i)).collect();
    let mut program = Program {
        tableau: vec![],
        basic: vec![],
        others: (0..count).collect(),
        value: vec![0.0; count],
        low: vec![0.0; count],
        high: vec![1.0; count],
        worth: vec![0.0; count],
    };
    for entry in &sheet.entries {
        match entry {
            Entry::Continuous { column, upper, value } => {
                program.high[at[column]] = upper.0;
                program.worth[at[column]] = value.0;
            },
            Entry::Binary { .. } => {},
            Entry::Row { terms, lower, upper } => {
                if terms.is_empty() {
                    continue;
                }
                let mut row = vec![0.0; count];
                for (column, weight) in terms {
                    row[at[column]] += weight.0;
                }
                program.basic.push(program.value.len());
                program.tableau.push(row);
                program.value.push(0.0);
                program.low.push(lower.map_or(f64::NEG_INFINITY, |v| v.0));
                program.high.push(upper.map_or(f64::INFINITY, |v| v.0));
                program.worth.push(0.0);
            },
            Entry::Mix { .. } => panic!("a mix is not linear"),
        }
    }
    let mut best: Option<(Vec<f64>, f64)> = None;
    let base = program.clone();
    let mut open = vec![program];
    let mut met = 0;
    while let Some(mut node) = open.pop() {
        met += 1;
        assert!(met < 20_000, "too many branches");
        node.refresh();
        if !node.solve() {
            node = node.restarted(&base);
            if !node.solve() {
                continue;
            }
        }
        let total = node.total();
        if let Some((_, held)) = &best {
            if total <= held + 1e-6 {
                continue;
            }
        }
        let mut split: Option<(usize, f64)> = None;
        for c in 0..count {
            let away = (node.value[c] - node.value[c].round()).abs();
            if flags[c] && away > 1e-8 && split.is_none_or(|(_, held)| away > held) {
                split = Some((c, away));
            }
        }
        match split {
            None => {
                best = Some((node.value[..count].to_vec(), total));
            },
            Some((c, _)) => {
                let near = node.value[c].round();
                for side in [1.0 - near, near] {
                    let mut child = node.clone();
                    child.low[c] = side;
                    child.high[c] = side;
                    if child.others.contains(&c) {
                        child.value[c] = side;
                    }
                    open.push(child);
                }
            },
        }
    }
    best.map(|(values, total)| (columns, values, total))
}

/// Searches for a schedule as the grades that are taken settle.
fn run(input: &BlendInput<Real>) -> Search<Real> {
    let sheet = formulate(input, None).unwrap();
    let budget = IterationBudget::new(30_000_000_000);
    let mut search = Search::begin(budget, vec![StartPolicy::OpeningThenSupply, StartPolicy::PhysicalFloor]);
    while search.next(input, 0).is_some() {
        let fixed = search.estimates.fix(&sheet);
        match best_of(&fixed) {
            None => search.refuse(1),
            Some((columns, values, total)) => {
                let mut read = BlendColumns::new();
                for i in 0..columns.len() {
                    read.record(columns[i], Real(values[i]));
                }
                let candidate = extract_solution(&read, Real(total));
                let report = replay(input, &candidate);
                search.judge(candidate, report, Some(Real(total)), 1, 0);
            },
        }
    }
    search
}

fn solved(input: &BlendInput<Real>) -> (BlendSolution<Real>, ReplayReport<Real>) {
    let search = run(input);
    let best = search.best.expect("an incumbent");
    assert!(best.report.is_valid(), "replay issues: {:?}", best.report.issues);
    (best.solution, best.report)
}

fn reals(values: &[f64]) -> Vec<Real> {
    values.iter().map(|value| Real(*value)).collect()
}

fn grade_fields(names: &[&str]) -> Vec<GradeField> {
    names
        .iter()
        .enumerate()
        .map(|(index, name)| GradeField {
            field: ReserveFieldId(index as u64 + 10),
            name: (*name).to_string(),
            basis: GradeBasis::Percent,
        })
        .collect()
}

/// Materials carry percentages here, converted to fractions by the table.
fn grade_table(names: &[&str], materials: &[(u32, Vec<f64>)]) -> GradeTable<Real> {
    let mut captured: Ledger<MaterialId, Vec<Option<Real>>> = Ledger::new();
    for (id, values) in materials {
        captured.put(MaterialId(*id), values.iter().map(|value| Some(Real(*value))).collect());
    }
    GradeTable::build(grade_fields(names), &captured).expect("scenario grades are compatible")
}

fn intervals(count: usize, step_h: f64) -> Vec<Interval<Real>> {
    (0..count)
        .map(|index| Interval {
            index,
            start_h: Real(index as f64 * step_h),
            end_h: Real((index + 1) as f64 * step_h),
        })
        .collect()
}

fn loader(id: u32, count: usize, dig: f64, reclaim: f64) -> Loader<Real> {
    Loader {
        id: LoaderId(id),
        rates: (0..count)
            .map(|interval| IntervalRate { interval, dig_tph: Real(dig), reclaim_tph: Real(reclaim) })
            .collect(),
    }
}

fn truck(id: u32, count: usize, hours: f64) -> TruckClass<Real> {
    TruckClass { id: TruckClassId(id), hours: vec![Real(hours); count] }
}

fn candidate(
    loader: u32,
    activity: Activity,
    source: SourceId,
    material: u32,
    destination: u32,
    value: f64,
) -> MovementCandidate<Real> {
    MovementCandidate {
        loader: LoaderId(loader),
        activity,
        source,
        material: MaterialId(material),
        destination: DestinationId(destination),
        truck: TruckClassId(0),
        truck_hours_per_tonne: Real(0.0),
        routing_rule: RoutingRuleId(0),
        routing_preference: 0,
        cashflow: vec![CashflowContribution { rule: CashflowRuleId(0), value_per_tonne: Real(value) }],
    }
}

fn dug(loader: u32, ground: u32, material: u32, destination: u32, value: f64) -> MovementCandidate<Real> {
    candidate(loader, Activity::Dig, SourceId::Ground(GroundId(ground)), material, destination, value)
}

fn reclaimed(loader: u32, pile: u32, material: u32, destination: u32, value: f64) -> MovementCandidate<Real> {
    candidate(loader, Activity::Reclaim, SourceId::Stockpile(StockpileId(pile)), material, destination, value)
}

fn dump(id: u32, capacity: Option<f64>) -> Destination<Real> {
    Destination {
        id: DestinationId(id),
        kind: DestinationKind::Dump,
        capacity_t: capacity.map(Real),
        crusher_daily_t: vec![],
    }
}

fn pile_destination(id: u32, pile: u32, capacity: Option<f64>) -> Destination<Real> {
    Destination {
        id: DestinationId(id),
        kind: DestinationKind::Stockpile(StockpileId(pile)),
        capacity_t: capacity.map(Real),
        crusher_daily_t: vec![],
    }
}

fn crusher(id: u32, days: usize, daily_t: f64) -> Destination<Real> {
    Destination {
        id: DestinationId(id),
        kind: DestinationKind::Crusher,
        capacity_t: None,
        crusher_daily_t: vec![Some(Real(daily_t)); days.max(1)],
    }
}

fn reclaim_task(id: u32, loader: u32, pile: u32, end_h: f64, maximum: Option<f64>) -> Task<Real> {
    Task {
        id: TaskId(id),
        loader: LoaderId(loader),
        priority: 0,
        window_start_h: Real(0.0),
        window_end_h: Real(end_h),
        kind: TaskKind::Reclaim { approved_sources: vec![StockpileId(pile)], maximum_t: maximum.map(Real) },
    }
}

fn dig_task(id: u32, loader: u32, ground: &[u32], end_h: f64) -> Task<Real> {
    Task {
        id: TaskId(id),
        loader: LoaderId(loader),
        priority: 0,
        window_start_h: Real(0.0),
        window_end_h: Real(end_h),
        kind: TaskKind::Dig { sequence: ground.iter().map(|id| GroundId(*id)).collect() },
    }
}

fn block(id: u32, tonnes: f64, material: u32) -> GroundSource<Real> {
    GroundSource {
        id: GroundId(id),
        tonnes_t: Real(tonnes),
        material: vec![MaterialShare { material: MaterialId(material), fraction: Real(1.0) }],
    }
}

fn pile(id: u32, capacity: f64, lots: &[(f64, Vec<f64>)], grades: usize) -> BlendPile<Real> {
    let lots: Vec<(Real, Vec<Real>)> = lots.iter().map(|(t, g)| (Real(*t), reals(g))).collect();
    BlendPile::combine(StockpileId(id), Real(capacity), &lots, grades)
}

fn tonnes_of(solution: &BlendSolution<Real>, chosen: &dyn Fn(&MovementRow<Real>) -> bool) -> f64 {
    solution.movements.iter().filter(|row| chosen(row)).map(|row| row.tonnes_t.0).sum()
}

#[test]
fn the_small_solver_finds_known_answers() {
    // Two loads share four units of room; the dearer one needs three of them.
    let mut sheet: Sheet<Real> = Sheet::new();
    let first = Column::Duration { interval: 0, segment: 0 };
    let second = Column::Duration { interval: 0, segment: 1 };
    let flag = Column::Stock { pile: StockpileId(0), interval: 0 };
    sheet.valued(first, Real(3.0), Real(2.0));
    sheet.valued(second, Real(10.0), Real(5.0));
    sheet.binary(flag);
    sheet.leq(vec![(first, Real(1.0)), (second, Real(3.0))], Real(4.0));
    sheet.leq(vec![(second, Real(1.0)), (flag, Real(-1.5))], Real(0.0));
    sheet.leq(vec![(flag, Real(2.0)), (first, Real(1.0))], Real(3.5));
    let (_, values, total) = best_of(&sheet).unwrap();
    assert!((total - 7.166_666_666).abs() < 1e-6, "{values:?}");
    sheet.geq(vec![(first, Real(1.0))], Real(2.0));
    let (_, values, total) = best_of(&sheet).unwrap();
    assert!((total - 6.0).abs() < 1e-6, "{values:?}");
    sheet.geq(vec![(second, Real(1.0))], Real(1.0));
    assert!(best_of(&sheet).is_none());
}

#[test]
fn known_blend_is_preserved() {
    let input = BlendInput {
        intervals: intervals(3, 1.0),
        segments_per_interval: 1,
        grades: grade_table(&["Fe"], &[(1, vec![60.0]), (2, vec![50.0]), (3, vec![70.0])]),
        piles: vec![pile(0, 5_000.0, &[(1_000.0, vec![0.60])], 1)],
        loaders: vec![loader(0, 3, 500.0, 0.0)],
        tasks: vec![dig_task(0, 0, &[1, 2], 3.0)],
        ground: vec![block(1, 500.0, 2), block(2, 500.0, 3)],
        destinations: vec![pile_destination(0, 0, None)],
        trucks: vec![truck(0, 3, 1_000.0)],
        movements: vec![dug(0, 1, 2, 0, 1.0), dug(0, 2, 3, 0, 1.0)],
        qualifications: vec![],
        conditional_values: vec![],
        grade_limits: vec![],
    };
    let (_, replay) = solved(&input);
    let closing = &replay.closing[0];
    assert!((closing.tonnes_t.0 - 2_000.0).abs() < 1e-6, "closing tonnes {}", closing.tonnes_t.0);
    let blended = closing.contained[FE].0 / closing.tonnes_t.0;
    assert!((blended - 0.60).abs() < 1e-6, "blended grade {blended} should stay 0.60");
}

#[test]
fn empty_pile_and_release_timing() {
    let input = BlendInput {
        intervals: intervals(2, 1.0),
        segments_per_interval: 1,
        grades: grade_table(&["Fe"], &[(1, vec![60.0])]),
        piles: vec![pile(0, 5_000.0, &[], 1)],
        loaders: vec![loader(0, 2, 500.0, 0.0), loader(1, 2, 0.0, 500.0)],
        tasks: vec![dig_task(0, 0, &[1], 2.0), reclaim_task(1, 1, 0, 2.0, None)],
        ground: vec![block(1, 500.0, 1)],
        destinations: vec![pile_destination(0, 0, None), dump(1, None)],
        trucks: vec![truck(0, 2, 10_000.0)],
        movements: vec![dug(0, 1, 1, 0, 1.0), reclaimed(1, 0, 1, 1, 100.0)],
        qualifications: vec![],
        conditional_values: vec![],
        grade_limits: vec![],
    };
    let (solution, _) = solved(&input);
    let first = tonnes_of(&solution, &|row| {
        row.interval == 0 && input.movements[row.candidate].activity == Activity::Reclaim
    });
    assert!(first < 1e-6, "reclaimed {first} t from an empty pile in interval 0");
    let later = tonnes_of(&solution, &|row| row.candidate == 1);
    assert!((later - 500.0).abs() < 1e-6);
}

#[test]
fn partial_reclaim_keeps_the_blend_across_two_grades() {
    let input = BlendInput {
        intervals: intervals(2, 1.0),
        segments_per_interval: 1,
        grades: grade_table(&["Fe", "SiO2"], &[(1, vec![60.0, 5.0])]),
        piles: vec![pile(0, 5_000.0, &[(1_000.0, vec![0.60, 0.05])], 2)],
        loaders: vec![loader(1, 2, 0.0, 400.0)],
        tasks: vec![reclaim_task(1, 1, 0, 2.0, Some(400.0))],
        ground: vec![],
        destinations: vec![dump(1, None)],
        trucks: vec![truck(0, 2, 10_000.0)],
        movements: vec![reclaimed(1, 0, 1, 1, 10.0)],
        qualifications: vec![],
        conditional_values: vec![],
        grade_limits: vec![],
    };
    let (_, replay) = solved(&input);
    let closing = &replay.closing[0];
    assert!((closing.tonnes_t.0 - 600.0).abs() < 1e-4, "closing tonnes {}", closing.tonnes_t.0);
    let fe = closing.contained[0].0 / closing.tonnes_t.0;
    let si = closing.contained[1].0 / closing.tonnes_t.0;
    assert!((fe - 0.60).abs() < 1e-6, "Fe drifted to {fe}");
    assert!((si - 0.05).abs() < 1e-6, "SiO2 drifted to {si}");
}

#[test]
fn a_full_pile_can_receive_while_it_is_reclaimed() {
    let input = BlendInput {
        intervals: intervals(1, 1.0),
        segments_per_interval: 1,
        grades: grade_table(&["Fe"], &[(1, vec![60.0])]),
        piles: vec![pile(0, 1_000.0, &[(1_000.0, vec![0.60])], 1)],
        loaders: vec![loader(0, 1, 500.0, 0.0), loader(1, 1, 0.0, 500.0)],
        tasks: vec![dig_task(0, 0, &[1], 1.0), reclaim_task(1, 1, 0, 1.0, None)],
        ground: vec![block(1, 500.0, 1)],
        destinations: vec![pile_destination(0, 0, None), dump(1, None)],
        trucks: vec![truck(0, 1, 10_000.0)],
        movements: vec![dug(0, 1, 1, 0, 10.0), reclaimed(1, 0, 1, 1, 1.0)],
        qualifications: vec![],
        conditional_values: vec![],
        grade_limits: vec![],
    };
    let (solution, replay) = solved(&input);
    let dug = tonnes_of(&solution, &|row| input.movements[row.candidate].activity == Activity::Dig);
    let reclaimed = tonnes_of(&solution, &|row| input.movements[row.candidate].activity == Activity::Reclaim);
    assert!(dug > 500.0 - 1e-4, "a full pile refused a receipt it had room for: dug {dug} t");
    assert!(reclaimed > 500.0 - 1e-4, "reclaimed only {reclaimed} t");
    assert!((replay.replayed_objective.0 - 5_500.0).abs() < 1e-3, "objective {:?}", replay.replayed_objective);
    let closing = &replay.closing[0];
    assert!((closing.tonnes_t.0 - 1_000.0).abs() < 1e-4, "closing tonnes {}", closing.tonnes_t.0);
}

#[test]
fn authored_bar_priority_is_mandatory() {
    let mut cheap = dig_task(10, 0, &[1], 1.0);
    cheap.priority = 0;
    let mut rich = dig_task(11, 0, &[2], 1.0);
    rich.priority = 1;
    let input = BlendInput {
        intervals: intervals(1, 1.0),
        segments_per_interval: 1,
        grades: grade_table(&["Fe"], &[(1, vec![60.0]), (2, vec![60.0])]),
        piles: vec![],
        loaders: vec![loader(0, 1, 500.0, 0.0)],
        tasks: vec![cheap, rich],
        ground: vec![block(1, 500.0, 1), block(2, 500.0, 2)],
        destinations: vec![dump(1, None)],
        trucks: vec![truck(0, 1, 10_000.0)],
        movements: vec![dug(0, 1, 1, 1, 1.0), dug(0, 2, 2, 1, 100.0)],
        qualifications: vec![],
        conditional_values: vec![],
        grade_limits: vec![],
    };
    let (solution, replay) = solved(&input);
    let from_rich =
        tonnes_of(&solution, &|row| input.movements[row.candidate].source == SourceId::Ground(GroundId(2)));
    assert!(from_rich < 1e-6, "a lower-priority bar was worked for {from_rich} t");
    assert!((replay.replayed_objective.0 - 500.0).abs() < 1e-3, "objective {:?}", replay.replayed_objective);
}

#[test]
fn a_partial_bar_window_does_not_win_the_whole_interval() {
    let input = BlendInput {
        intervals: intervals(1, 1.0),
        segments_per_interval: 1,
        grades: grade_table(&["Fe"], &[(1, vec![60.0])]),
        piles: vec![],
        loaders: vec![loader(0, 1, 500.0, 0.0)],
        tasks: vec![dig_task(0, 0, &[1], 0.5)],
        ground: vec![block(1, 500.0, 1)],
        destinations: vec![dump(1, None)],
        trucks: vec![truck(0, 1, 10_000.0)],
        movements: vec![dug(0, 1, 1, 1, 10.0)],
        qualifications: vec![],
        conditional_values: vec![],
        grade_limits: vec![],
    };
    let (_, replay) = solved(&input);
    assert!(replay.replayed_objective.0.abs() < 1e-6, "moved {:?} worth of material", replay.replayed_objective);
}

#[test]
fn minimum_grade_forces_a_blending_decision() {
    let input = BlendInput {
        intervals: intervals(3, 1.0),
        segments_per_interval: 1,
        grades: grade_table(&["Fe"], &[(1, vec![50.0]), (2, vec![80.0])]),
        piles: vec![pile(0, 10_000.0, &[(1_000.0, vec![0.50])], 1)],
        loaders: vec![loader(0, 3, 2_000.0, 0.0), loader(1, 3, 0.0, 500.0)],
        tasks: vec![dig_task(0, 0, &[2], 3.0), reclaim_task(1, 1, 0, 3.0, None)],
        ground: vec![block(2, 4_000.0, 2)],
        destinations: vec![pile_destination(0, 0, None), dump(1, None)],
        trucks: vec![truck(0, 3, 100_000.0)],
        movements: vec![dug(0, 2, 2, 0, 0.1), reclaimed(1, 0, 1, 1, 50.0)],
        qualifications: vec![],
        conditional_values: vec![],
        grade_limits: vec![GradeLimit {
            destination: DestinationId(1),
            grade: FE,
            minimum: Real(0.60),
            inclusive: true,
        }],
    };
    let mut search = run(&input);
    if search.best.is_none() {
        // The estimate of what the pile holds closes the route: the ceiling opens it.
        search = Search::begin(IterationBudget::new(1), vec![StartPolicy::PhysicalCeiling]);
        let sheet = formulate(&input, None).unwrap();
        while search.next(&input, 0).is_some() {
            let (columns, values, total) = best_of(&search.estimates.fix(&sheet)).expect("a point");
            let mut read = BlendColumns::new();
            for i in 0..columns.len() {
                read.record(columns[i], Real(values[i]));
            }
            let candidate = extract_solution(&read, Real(total));
            let report = replay(&input, &candidate);
            search.judge(candidate, report, Some(Real(total)), 1, 0);
        }
    }
    let best = search.best.expect("an incumbent");
    assert!(best.report.is_valid(), "replay issues: {:?}", best.report.issues);
    let taken = tonnes_of(&best.solution, &|row| input.movements[row.candidate].activity == Activity::Reclaim);
    assert!(taken > 1e-6, "the scenario is pointless if nothing is reclaimed");
}

#[test]
fn dig_and_reclaim_share_the_crusher_budget() {
    let input = BlendInput {
        intervals: intervals(2, 1.0),
        segments_per_interval: 1,
        grades: grade_table(&["Fe"], &[(1, vec![60.0])]),
        piles: vec![pile(0, 5_000.0, &[(2_000.0, vec![0.60])], 1)],
        loaders: vec![loader(0, 2, 500.0, 0.0), loader(1, 2, 0.0, 500.0)],
        tasks: vec![dig_task(0, 0, &[1], 2.0), reclaim_task(1, 1, 0, 2.0, None)],
        ground: vec![block(1, 2_000.0, 1)],
        destinations: vec![crusher(1, 1, 600.0)],
        trucks: vec![truck(0, 2, 100_000.0)],
        movements: vec![dug(0, 1, 1, 1, 1.0), reclaimed(1, 0, 1, 1, 1.0)],
        qualifications: vec![],
        conditional_values: vec![],
        grade_limits: vec![],
    };
    let (solution, _) = solved(&input);
    let delivered = tonnes_of(&solution, &|_| true);
    assert!(delivered <= 600.0 + 1e-4, "delivered {delivered} t against a 600 t shared daily budget");
    assert!(delivered > 599.0, "the budget should be filled, got {delivered}");
}

#[test]
fn authored_order_survives_economics() {
    let input = BlendInput {
        intervals: intervals(2, 1.0),
        segments_per_interval: 2,
        grades: grade_table(&["Fe"], &[(1, vec![60.0]), (2, vec![60.0])]),
        piles: vec![pile(0, 10_000.0, &[], 1)],
        loaders: vec![loader(0, 2, 100.0, 0.0)],
        tasks: vec![dig_task(0, 0, &[1, 2], 2.0)],
        ground: vec![block(1, 150.0, 1), block(2, 150.0, 2)],
        destinations: vec![pile_destination(0, 0, None)],
        trucks: vec![truck(0, 2, 100_000.0)],
        movements: vec![dug(0, 1, 1, 0, 1.0), dug(0, 2, 2, 0, 10.0)],
        qualifications: vec![],
        conditional_values: vec![],
        grade_limits: vec![],
    };
    let (solution, _) = solved(&input);
    let first = tonnes_of(&solution, &|row| row.candidate == 0);
    let second = tonnes_of(&solution, &|row| row.candidate == 1);
    assert!(first > 149.9, "the first block only got {first} t while the valuable one took {second} t");
    assert!(second <= 50.0 + 1e-4, "the later block ran ahead of its authored position: {second} t");
}

fn chunk_world(order: ReclaimOrder, chunks: usize) -> BlendInput<Real> {
    let hours = 4;
    let mut held = pile(0, 200.0 * chunks as f64, &[(200.0, vec![0.40])], 1);
    held.chunks = vec![Real(200.0); chunks];
    held.order = order;
    held.chunk_opening = (0..chunks)
        .map(|index| {
            let fraction = if index % 2 == 0 { 0.40 } else { 0.80 };
            (Real(200.0), reals(&[200.0 * fraction]))
        })
        .collect();
    BlendInput {
        intervals: intervals(hours, 1.0),
        segments_per_interval: 1,
        grades: grade_table(&["Fe"], &[(1, vec![40.0]), (2, vec![80.0])]),
        piles: vec![held],
        loaders: vec![loader(0, hours, 200.0, 0.0), loader(1, hours, 0.0, 100.0)],
        tasks: vec![dig_task(0, 0, &[2], hours as f64), reclaim_task(1, 1, 0, hours as f64, None)],
        ground: vec![block(2, 200.0, 2)],
        destinations: vec![pile_destination(0, 0, None), dump(1, None)],
        trucks: vec![truck(0, hours, 100_000.0)],
        movements: vec![dug(0, 2, 2, 0, 0.0), reclaimed(1, 0, 1, 1, 1.0)],
        qualifications: vec![],
        conditional_values: vec![],
        grade_limits: vec![],
    }
}

#[test]
fn chunked_fifo_and_lifo_differ_and_both_validate() {
    let mut contained = Vec::new();
    for order in [ReclaimOrder::Fifo, ReclaimOrder::Lifo] {
        let input = chunk_world(order, 2);
        let (solution, replay) = solved(&input);
        assert!((replay.replayed_objective.0 - 400.0).abs() < 1e-6, "{order:?} {:?}", replay.replayed_objective);
        let mut drawn: Vec<(usize, usize)> = solution
            .chunks
            .iter()
            .filter(|row| row.reclaimed_t.0 > 1e-4)
            .map(|row| (row.interval, row.chunk))
            .collect();
        drawn.sort();
        contained.push(drawn);
    }
    assert_ne!(contained[0], contained[1], "FIFO and LIFO drew the same chunks in the same order");
}

fn dynamic_chunk_world(order: ReclaimOrder, hours: usize) -> BlendInput<Real> {
    let mut held = pile(0, 1_200.0, &[], 1);
    held.chunks = vec![Real(300.0); 4];
    held.order = order;
    BlendInput {
        intervals: intervals(hours, 1.0),
        segments_per_interval: 2,
        grades: grade_table(&["Fe"], &[(1, vec![45.0]), (2, vec![85.0])]),
        piles: vec![held],
        loaders: vec![loader(0, hours, 150.0, 0.0), loader(1, hours, 150.0, 0.0), loader(2, hours, 0.0, 200.0)],
        tasks: vec![
            dig_task(0, 0, &[1], hours as f64),
            dig_task(1, 1, &[2], hours as f64),
            reclaim_task(2, 2, 0, hours as f64, None),
        ],
        ground: vec![block(1, 900.0, 1), block(2, 900.0, 2)],
        destinations: vec![pile_destination(0, 0, None), crusher(1, hours.div_ceil(24), 700.0)],
        trucks: vec![truck(0, hours, 400.0)],
        movements: vec![dug(0, 1, 1, 0, 0.0), dug(1, 2, 2, 0, 0.0), reclaimed(2, 0, 1, 1, 8.0)],
        qualifications: vec![],
        conditional_values: vec![],
        grade_limits: vec![GradeLimit {
            destination: DestinationId(1),
            grade: FE,
            minimum: Real(0.62),
            inclusive: true,
        }],
    }
}

fn moved(candidate: usize, interval: usize, tonnes: f64) -> MovementRow<Real> {
    MovementRow { candidate, interval, segment: 0, tonnes_t: Real(tonnes) }
}

fn chunk(number: usize, interval: usize, open: f64, closed: bool, taken: f64, brought: &[(usize, f64)]) -> ChunkRow<Real> {
    ChunkRow {
        pile: StockpileId(0),
        chunk: number,
        interval,
        open_t: Real(open),
        reclaimed_t: Real(taken),
        closed,
        received_t: Real(brought.iter().map(|(_, tonnes)| tonnes).sum()),
        receipts: brought.iter().map(|(candidate, tonnes)| (*candidate, Real(*tonnes))).collect(),
    }
}

/// A schedule written by hand; every interval's time lies in its first segment.
fn schedule(
    input: &BlendInput<Real>,
    movements: Vec<MovementRow<Real>>,
    chunks: Vec<ChunkRow<Real>>,
    objective: f64,
) -> BlendSolution<Real> {
    let mut durations: Ledger<Pair<usize, usize>, Real> = Ledger::new();
    for interval in &input.intervals {
        for segment in 0..input.segments_per_interval {
            let hours = if segment == 0 { interval.end_h.0 - interval.start_h.0 } else { 0.0 };
            durations.put(Pair(interval.index, segment), Real(hours));
        }
    }
    BlendSolution {
        movements,
        durations,
        chunks,
        reported_objective: Real(objective),
        adjustments: ExtractionAdjustments::none(),
    }
}

/// Both blocks fill the first two chunks, which are closed and drawn in the
/// pile's order.
fn chunk_schedule(order: ReclaimOrder) -> (BlendInput<Real>, BlendSolution<Real>) {
    let input = dynamic_chunk_world(order, 8);
    let both = [(0, 150.0), (1, 150.0)];
    let mut chunks = vec![];
    let (first, second) = match order {
        ReclaimOrder::Fifo => (0, 1),
        ReclaimOrder::Lifo => (1, 0),
    };
    for interval in 0..8 {
        for number in 0..4 {
            let (open, closed, taken) = match interval {
                _ if number > 1 => (0.0, false, 0.0),
                0 => (0.0, false, 0.0),
                1 if number == 0 => (300.0, true, 0.0),
                1 => (0.0, false, 0.0),
                2 if number == first => (300.0, true, 200.0),
                3 if number == first => (100.0, true, 100.0),
                _ if number == first => (0.0, true, 0.0),
                4 if number == second => (300.0, true, 200.0),
                5 if number == second => (100.0, true, 100.0),
                2 | 3 => (300.0, true, 0.0),
                _ => (0.0, true, 0.0),
            };
            let brought: &[(usize, f64)] = if interval == number && number < 2 { &both } else { &[] };
            chunks.push(chunk(number, interval, open, closed, taken, brought));
        }
    }
    let movements = vec![
        moved(0, 0, 150.0),
        moved(1, 0, 150.0),
        moved(0, 1, 150.0),
        moved(1, 1, 150.0),
        moved(2, 2, 200.0),
        moved(2, 3, 100.0),
        moved(2, 4, 200.0),
        moved(2, 5, 100.0),
    ];
    let solution = schedule(&input, movements, chunks, 4_800.0);
    (input, solution)
}

/// What a schedule says of a column of its model; nothing of those that follow
/// from the others.
fn scheduled(solution: &BlendSolution<Real>, column: Column) -> Option<f64> {
    let row = |wanted: StockpileId, number: usize, at: usize| {
        solution.chunks.iter().find(|row| row.pile == wanted && row.chunk == number && row.interval == at)
    };
    match column {
        Column::Duration { interval, segment } => solution.durations.get(Pair(interval, segment)).map(|hours| hours.0),
        Column::Movement { candidate, interval, segment } => Some(tonnes_of(solution, &|row| {
            row.candidate == candidate && row.interval == interval && row.segment == segment
        })),
        Column::ChunkOpenT { pile, chunk, interval } => row(pile, chunk, interval).map(|row| row.open_t.0),
        Column::ChunkReclT { pile, chunk, interval } => row(pile, chunk, interval).map(|row| row.reclaimed_t.0),
        Column::ChunkClosed { pile, chunk, interval } => {
            row(pile, chunk, interval).map(|row| if row.closed { 1.0 } else { 0.0 })
        },
        Column::ChunkRecv { pile, chunk, interval, candidate } => row(pile, chunk, interval).map(|row| {
            row.receipts.iter().filter(|(number, _)| *number == candidate).map(|(_, tonnes)| tonnes.0).sum()
        }),
        _ => None,
    }
}

/// The columns of a sheet with the bounds that some are given, tightened by the
/// rows as far as each row alone shows.
fn tightened(
    sheet: &GeneralSheet<Column, Real>,
    given: &dyn Fn(Column) -> Option<f64>,
) -> std::collections::BTreeMap<Column, (f64, f64)> {
    let mut bounds = std::collections::BTreeMap::new();
    let mut whole = std::collections::BTreeSet::new();
    for entry in &sheet.entries {
        let (column, high) = match entry {
            Entry::Continuous { column, upper, .. } => (*column, upper.0),
            Entry::Binary { column } => {
                whole.insert(*column);
                (*column, 1.0)
            },
            _ => continue,
        };
        bounds.insert(column, given(column).map_or((0.0, high), |value| (value, value)));
    }
    let mut moved = true;
    while moved {
        moved = false;
        for entry in &sheet.entries {
            let Entry::Row { terms, lower, upper } = entry else { continue };
            for (column, weight) in terms {
                if weight.0 == 0.0 {
                    continue;
                }
                let (mut least, mut most) = (0.0, 0.0);
                for (other, factor) in terms {
                    if other != column {
                        let (low, high) = bounds[other];
                        let ends = [factor.0 * low, factor.0 * high];
                        least += ends[0].min(ends[1]);
                        most += ends[0].max(ends[1]);
                    }
                }
                let (low, high) = bounds[column];
                let above = lower.map_or(f64::NEG_INFINITY, |bound| bound.0 - most);
                let below = upper.map_or(f64::INFINITY, |bound| bound.0 - least);
                let (mut from, mut to) = (above / weight.0, below / weight.0);
                if weight.0 < 0.0 {
                    (from, to) = (to, from);
                }
                if whole.contains(column) {
                    (from, to) = ((from - 1e-6).ceil(), (to + 1e-6).floor());
                }
                let next = (low.max(from), high.min(to));
                assert!(next.0 <= next.1 + 1e-6, "{column:?} between {} and {}", next.0, next.1);
                if next.0 > low + 1e-7 || next.1 < high - 1e-7 {
                    let middle = (next.0 + next.1) / 2.0;
                    bounds.insert(*column, if next.0 > next.1 { (middle, middle) } else { next });
                    moved = true;
                }
            }
        }
    }
    bounds
}

/// The schedule as a point of its model: what it says, and values of every
/// other column that a solver finds with it. `share` is the grade of every draw.
fn as_point(input: &BlendInput<Real>, solution: &BlendSolution<Real>, share: f64) -> BlendSolution<Real> {
    let sheet = formulate(input, None).unwrap();
    let supposed = Estimates { values: Ledger::new(), fallback: vec![Real(share)] };
    let fixed = supposed.fix(&sheet);
    let bounds = tightened(&fixed, &|column| scheduled(solution, column));
    let mut value: std::collections::BTreeMap<Column, f64> =
        bounds.iter().filter(|(_, (low, high))| high - low <= 1e-6).map(|(column, (low, _))| (*column, *low)).collect();
    let mut left: GeneralSheet<Column, Real> = GeneralSheet::new();
    for entry in &fixed.entries {
        match entry {
            Entry::Continuous { column, .. } if !value.contains_key(column) => {
                left.valued(*column, Real(bounds[column].1), Real(0.0));
            },
            Entry::Binary { column } if !value.contains_key(column) => left.binary(*column),
            Entry::Row { terms, lower, upper } => {
                let known: f64 = terms.iter().filter_map(|(c, w)| value.get(c).map(|v| v * w.0)).sum();
                let open: Vec<(Column, Real)> = terms.iter().filter(|(c, _)| !value.contains_key(c)).copied().collect();
                if !open.is_empty() {
                    left.row(open, lower.map(|b| Real(b.0 - known)), upper.map(|b| Real(b.0 - known)));
                }
            },
            _ => {},
        }
    }
    let (columns, values, _) = best_of(&left).expect("the schedule is a point of its model");
    for i in 0..columns.len() {
        value.insert(columns[i], values[i]);
    }
    // Every row and every mix of the model holds there.
    let mut total = 0.0;
    for entry in &sheet.entries {
        match entry {
            Entry::Continuous { column, upper, value: worth } => {
                assert!(value[column] >= -1e-6 && value[column] <= upper.0 + 1e-6);
                total += worth.0 * value[column];
            },
            Entry::Binary { column } => assert!((value[column] - value[column].round()).abs() < 1e-6),
            Entry::Row { terms, lower, upper } => {
                let sum: f64 = terms.iter().map(|(column, weight)| weight.0 * value[column]).sum();
                assert!(lower.is_none_or(|bound| sum >= bound.0 - 1e-5), "{terms:?} sums to {sum}");
                assert!(upper.is_none_or(|bound| sum <= bound.0 + 1e-5), "{terms:?} sums to {sum}");
            },
            Entry::Mix { recl_q, open_t, recl_t, open_q, .. } => {
                assert!((value[recl_q] * value[open_t] - value[recl_t] * value[open_q]).abs() < 1e-4);
            },
        }
    }
    let mut read = BlendColumns::new();
    for (column, found) in &value {
        read.record(*column, Real(*found));
    }
    extract_solution(&read, Real(total))
}

#[test]
fn chunks_fill_close_and_reclaim_from_empty() {
    for order in [ReclaimOrder::Fifo, ReclaimOrder::Lifo] {
        let (input, written) = chunk_schedule(order);
        let solution = as_point(&input, &written, 0.65);
        let replay = replay(&input, &solution);
        assert!(replay.is_valid(), "{order:?} replay issues: {:?} / {:?}", replay.issues, replay.grade_issues);

        let received: f64 = solution.chunks.iter().map(|row| row.received_t.0).sum();
        let reclaimed: f64 = solution.chunks.iter().map(|row| row.reclaimed_t.0).sum();
        assert!(received > 1.0, "{order:?} never filled a chunk");
        assert!(reclaimed > 1.0, "{order:?} never reclaimed from a filled chunk");

        let drawn: Vec<&ChunkRow<Real>> = solution.chunks.iter().filter(|row| row.reclaimed_t.0 > 1e-6).collect();
        assert!(!drawn.is_empty());
        for row in drawn {
            let key = chunk_key(row.chunk, row.interval, input.intervals.len());
            let blend = replay.blends.get(Pair(row.pile, Pair(key, FE))).map_or(0.0, |value| value.0);
            assert!(blend >= 0.62 - 1e-9, "chunk {} drew at {blend} in interval {}", row.chunk, row.interval);
        }
        assert!(replay.closing[0].tonnes_t.0.abs() < 1e-4);
        assert!((replay.replayed_objective.0 - 4_800.0).abs() < 1e-3);
    }
}

fn issues(input: &BlendInput<Real>, solution: &BlendSolution<Real>) -> Vec<ReplayIssue<Real>> {
    replay(input, solution).issues
}

/// The row of a chunk in an interval.
fn row_of(solution: &mut BlendSolution<Real>, number: usize, interval: usize) -> &mut ChunkRow<Real> {
    solution.chunks.iter_mut().find(|row| row.chunk == number && row.interval == interval).unwrap()
}

#[test]
fn a_closed_chunk_takes_nothing() {
    let (input, mut solution) = chunk_schedule(ReclaimOrder::Fifo);
    row_of(&mut solution, 1, 1).closed = true;
    assert!(issues(&input, &solution).iter().any(|issue| matches!(
        issue,
        ReplayIssue::ClosedReceipt { chunk: 1, interval: 1, tonnes: Real(t), .. } if *t == 300.0
    )));
}

#[test]
fn an_open_chunk_gives_nothing() {
    let (input, mut solution) = chunk_schedule(ReclaimOrder::Fifo);
    row_of(&mut solution, 0, 2).closed = false;
    let found = issues(&input, &solution);
    assert!(found.iter().any(|issue| matches!(issue, ReplayIssue::OpenReclaim { chunk: 0, interval: 2, .. })));
    assert!(found.iter().any(|issue| matches!(issue, ReplayIssue::Reopened { chunk: 0, interval: 1, .. })));
}

#[test]
fn chunks_are_filled_in_turn() {
    let (input, mut solution) = chunk_schedule(ReclaimOrder::Fifo);
    row_of(&mut solution, 0, 1).closed = false;
    assert!(issues(&input, &solution).iter().any(|issue| matches!(
        issue,
        ReplayIssue::EarlierOpen { chunk: 1, interval: 1, earlier: 0, .. }
    )));
}

#[test]
fn chunks_are_drawn_in_the_order_of_the_pile() {
    let (mut input, solution) = chunk_schedule(ReclaimOrder::Fifo);
    input.piles[0].order = ReclaimOrder::Lifo;
    assert!(issues(&input, &solution).iter().any(|issue| matches!(
        issue,
        ReplayIssue::LifoViolated { chunk: 0, interval: 2, later: 1, .. }
    )));
    let (mut input, solution) = chunk_schedule(ReclaimOrder::Lifo);
    input.piles[0].order = ReclaimOrder::Fifo;
    assert!(issues(&input, &solution).iter().any(|issue| matches!(
        issue,
        ReplayIssue::FifoViolated { chunk: 1, interval: 2, earlier: 0, .. }
    )));
}

#[test]
fn what_a_chunk_is_said_to_hold_is_what_it_received() {
    let (input, mut solution) = chunk_schedule(ReclaimOrder::Fifo);
    row_of(&mut solution, 0, 1).open_t = Real(310.0);
    let found = issues(&input, &solution);
    assert!(found.iter().any(|issue| matches!(
        issue,
        ReplayIssue::Residual { label: Label::ChunkOpening { chunk: 0, interval: 1, .. }, actual: Real(a), expected: Real(e) }
            if *a == 310.0 && *e == 300.0
    )));
    assert!(found.iter().any(|issue| matches!(
        issue,
        ReplayIssue::Breach { label: Label::ChunkCapacity { chunk: 0, interval: 1, .. }, .. }
    )));
}

#[test]
fn chunks_give_what_the_pile_gives() {
    let (input, mut solution) = chunk_schedule(ReclaimOrder::Fifo);
    row_of(&mut solution, 1, 5).reclaimed_t = Real(150.0);
    let found = issues(&input, &solution);
    assert!(found.iter().any(|issue| matches!(
        issue,
        ReplayIssue::Residual { label: Label::ChunkDraws { interval: 5, .. }, .. }
    )));
    assert!(found.iter().any(|issue| matches!(issue, ReplayIssue::ChunkClosing { chunk: 1, interval: 5, .. })));
}

#[test]
fn a_chunk_too_lean_is_no_delivery() {
    let (input, mut solution) = chunk_schedule(ReclaimOrder::Fifo);
    solution.movements[0].tonnes_t = Real(150.0);
    row_of(&mut solution, 0, 0).receipts = vec![(0, Real(300.0))];
    let report = replay(&input, &solution);
    assert!(!report.is_valid());
    assert!(report.grade_issues.iter().any(|issue| matches!(
        issue,
        GradeIssue::BelowMinimum { interval: 2, actual: Real(a), minimum: Real(m), .. }
            if (*a - 0.45).abs() < 1e-9 && *m == 0.62
    )));
}

/// A full pile that is drawn on while a block is dug onto it.
fn full_pile() -> (BlendInput<Real>, BlendSolution<Real>) {
    let input = BlendInput {
        intervals: intervals(1, 1.0),
        segments_per_interval: 1,
        grades: grade_table(&["Fe"], &[(1, vec![60.0])]),
        piles: vec![pile(0, 1_000.0, &[(1_000.0, vec![0.60])], 1)],
        loaders: vec![loader(0, 1, 500.0, 0.0), loader(1, 1, 0.0, 500.0)],
        tasks: vec![dig_task(0, 0, &[1], 1.0), reclaim_task(1, 1, 0, 1.0, None)],
        ground: vec![block(1, 500.0, 1)],
        destinations: vec![pile_destination(0, 0, None), dump(1, None)],
        trucks: vec![truck(0, 1, 10_000.0)],
        movements: vec![dug(0, 1, 1, 0, 10.0), reclaimed(1, 0, 1, 1, 1.0)],
        qualifications: vec![],
        conditional_values: vec![],
        grade_limits: vec![],
    };
    let solution = schedule(&input, vec![moved(0, 0, 500.0), moved(1, 0, 500.0)], vec![], 5_500.0);
    (input, solution)
}

#[test]
fn a_sound_schedule_has_no_issues() {
    let (input, solution) = full_pile();
    let report = replay(&input, &solution);
    assert!(report.is_valid() && report.is_physically_valid(), "{:?}", report.issues);
    assert_eq!(report.replayed_objective, Real(5_500.0));
    assert_eq!(report.objective_difference, Real(0.0));
    assert_eq!(report.closing[0].tonnes_t, Real(1_000.0));
    assert_eq!(report.closing[0].contained, reals(&[600.0]));
    assert_eq!(report.blends.get(Pair(StockpileId(0), Pair(0, FE))), Some(Real(0.6)));
}

#[test]
fn an_empty_schedule_is_valid_and_worth_nothing() {
    let (input, _) = full_pile();
    let report = replay(&input, &schedule(&input, vec![], vec![], 0.0));
    assert!(report.is_valid());
    assert_eq!(report.replayed_objective, Real(0.0));
}

#[test]
fn a_pile_takes_no_more_than_it_has_room_for() {
    let (input, mut solution) = full_pile();
    solution.movements[1].tonnes_t = Real(100.0);
    solution.reported_objective = Real(5_100.0);
    let found = issues(&input, &solution);
    assert_eq!(found.len(), 1);
    assert!(matches!(
        found[0],
        ReplayIssue::Breach { label: Label::PileCapacity { interval: 0, segment: 0, .. }, used: Real(u), limit: Real(l) }
            if u == 1_400.0 && l == 1_000.0
    ));
}

#[test]
fn an_empty_pile_gives_nothing() {
    let (mut input, solution) = full_pile();
    input.piles = vec![pile(0, 1_000.0, &[], 1)];
    let found = issues(&input, &solution);
    assert!(found.iter().any(|issue| matches!(
        issue,
        ReplayIssue::Breach { label: Label::ReleasedOpening { interval: 0, .. }, .. }
    )));
    assert!(found.iter().any(|issue| matches!(
        issue,
        ReplayIssue::EmptySupply { interval: 0, reclaimed: Real(t), .. } if *t == 500.0
    )));
}

#[test]
fn a_pile_gives_no_more_than_it_holds() {
    let (mut input, mut solution) = full_pile();
    input.piles = vec![pile(0, 1_000.0, &[(300.0, vec![0.60])], 1)];
    solution.movements.remove(0);
    solution.reported_objective = Real(500.0);
    let found = issues(&input, &solution);
    assert!(found.iter().any(|issue| matches!(issue, ReplayIssue::NegativePile { occupied: Real(t), .. } if *t == -200.0)));
    assert!(found.iter().any(|issue| matches!(issue, ReplayIssue::PileClosing { tonnes: Real(t), .. } if *t == -200.0)));
    assert!(found.iter().any(|issue| matches!(issue, ReplayIssue::NegativeContained { grade: 0, .. })));
}

#[test]
fn a_block_is_dug_once() {
    let (mut input, solution) = full_pile();
    input.ground[0].tonnes_t = Real(400.0);
    assert!(issues(&input, &solution).iter().any(|issue| matches!(
        issue,
        ReplayIssue::Breach { label: Label::GroundTwice { ground: GroundId(1) }, .. }
    )));
}

#[test]
fn loaders_trucks_and_clocks_are_held_to_their_limits() {
    let (mut input, mut solution) = full_pile();
    input.loaders[0].rates[0].dig_tph = Real(499.0);
    input.movements[1].truck_hours_per_tonne = Real(21.0);
    solution.durations.put(Pair(0, 0), Real(0.5));
    let found = issues(&input, &solution);
    assert!(found.iter().any(|issue| matches!(
        issue,
        ReplayIssue::Breach { label: Label::LoaderRate { loader: LoaderId(0), activity: Activity::Dig, .. }, limit: Real(l), .. }
            if *l == 249.5
    )));
    assert!(found.iter().any(|issue| matches!(
        issue,
        ReplayIssue::Breach { label: Label::TruckHours { truck: TruckClassId(0), .. }, used: Real(u), limit: Real(l) }
            if *u == 10_500.0 && *l == 5_000.0
    )));
    assert!(found.iter().any(|issue| matches!(
        issue,
        ReplayIssue::Residual { label: Label::EventClock { interval: 0 }, actual: Real(a), expected: Real(e) }
            if *a == 0.5 && *e == 1.0
    )));
}

#[test]
fn destinations_and_caps_are_held_to_their_limits() {
    let (mut input, solution) = full_pile();
    input.destinations[0].capacity_t = Some(Real(450.0));
    input.destinations[1] = crusher(1, 1, 300.0);
    input.tasks[1] = reclaim_task(1, 1, 0, 1.0, Some(200.0));
    let found = issues(&input, &solution);
    assert!(found.iter().any(|issue| matches!(
        issue,
        ReplayIssue::Breach { label: Label::Capacity { destination: DestinationId(0) }, .. }
    )));
    assert!(found.iter().any(|issue| matches!(
        issue,
        ReplayIssue::Breach { label: Label::CrusherDay { crusher: DestinationId(1), day: 0 }, .. }
    )));
    assert!(found.iter().any(|issue| matches!(
        issue,
        ReplayIssue::Breach { label: Label::ReclaimCap { task: TaskId(1) }, .. }
    )));
}

#[test]
fn a_mixed_block_is_dug_in_proportion() {
    let (mut input, solution) = full_pile();
    input.grades = grade_table(&["Fe"], &[(1, vec![60.0]), (2, vec![50.0])]);
    input.ground[0].material = vec![
        MaterialShare { material: MaterialId(1), fraction: Real(0.75) },
        MaterialShare { material: MaterialId(2), fraction: Real(0.25) },
    ];
    let found = issues(&input, &solution);
    assert!(found.iter().any(|issue| matches!(
        issue,
        ReplayIssue::Residual { label: Label::Proportion { material: MaterialId(2), .. }, actual: Real(a), expected: Real(e) }
            if *a == 0.0 && *e == 125.0
    )));
}

#[test]
fn rows_that_make_no_sense_are_named() {
    let (input, mut solution) = full_pile();
    solution.movements.push(moved(7, 0, 1.0));
    solution.movements.push(moved(1, 0, -5.0));
    let found = issues(&input, &solution);
    assert!(found.iter().any(|issue| matches!(issue, ReplayIssue::UnknownCandidate { candidate: 7 })));
    assert!(found.iter().any(|issue| matches!(issue, ReplayIssue::NegativeMovement { candidate: 1, .. })));
}

#[test]
fn work_outside_every_window_is_named() {
    let (mut input, solution) = full_pile();
    input.tasks[0] = dig_task(0, 0, &[1], 0.5);
    assert!(issues(&input, &solution).iter().any(|issue| matches!(
        issue,
        ReplayIssue::OutsideWindows { candidate: 0, interval: 0 }
    )));
}

#[test]
fn a_material_without_grades_cannot_be_blended() {
    let (mut input, solution) = full_pile();
    input.movements[0].material = MaterialId(9);
    assert!(issues(&input, &solution).iter().any(|issue| matches!(
        issue,
        ReplayIssue::MissingGrade { material: MaterialId(9), grade: 0, .. }
    )));
}

#[test]
fn a_grade_holds_no_more_than_the_pile() {
    let (mut input, solution) = full_pile();
    input.piles[0].opening_q = reals(&[1_500.0]);
    assert!(issues(&input, &solution).iter().any(|issue| matches!(issue, ReplayIssue::ExcessContained { grade: 0, .. })));
}

#[test]
fn the_objective_is_what_the_rows_are_worth() {
    let (input, mut solution) = full_pile();
    solution.reported_objective = Real(5_600.0);
    let report = replay(&input, &solution);
    assert_eq!(report.objective_difference, Real(-100.0));
    assert!(matches!(
        report.issues[0],
        ReplayIssue::Objective { replayed: Real(r), reported: Real(p), .. } if r == 5_500.0 && p == 5_600.0
    ));
    solution.adjustments.movement(Real(10.0));
    assert!(issues(&input, &solution).is_empty());
}

#[test]
fn the_first_bar_with_work_is_worked() {
    let mut rich = dig_task(11, 0, &[2], 1.0);
    rich.priority = 1;
    let mut input = BlendInput {
        intervals: intervals(1, 1.0),
        segments_per_interval: 1,
        grades: grade_table(&["Fe"], &[(1, vec![60.0]), (2, vec![60.0])]),
        piles: vec![],
        loaders: vec![loader(0, 1, 500.0, 0.0)],
        tasks: vec![rich, dig_task(10, 0, &[1], 1.0)],
        ground: vec![block(1, 500.0, 1), block(2, 500.0, 2)],
        destinations: vec![dump(1, None)],
        trucks: vec![truck(0, 1, 10_000.0)],
        movements: vec![dug(0, 1, 1, 1, 1.0), dug(0, 2, 2, 1, 100.0)],
        qualifications: vec![],
        conditional_values: vec![],
        grade_limits: vec![],
    };
    let solution = schedule(&input, vec![moved(1, 0, 500.0)], vec![], 50_000.0);
    let found = issues(&input, &solution);
    assert_eq!(found.len(), 1);
    assert!(matches!(
        found[0],
        ReplayIssue::PriorityBroken { worked: TaskId(11), expected: TaskId(10), interval: 0, segment: 0, .. }
    ));
    input.ground[0].tonnes_t = Real(0.0);
    assert!(issues(&input, &solution).is_empty());
    input.ground[1].tonnes_t = Real(0.0);
    assert!(issues(&input, &solution).iter().any(|issue| matches!(
        issue,
        ReplayIssue::NoBarWork { loader: LoaderId(0), .. }
    )));
}

fn range(grade: usize, lower: Option<f64>, upper: Option<f64>) -> GradeBound<Real> {
    GradeBound {
        grade,
        lower: lower.map(|value| GradeEndpoint { value: Real(value), inclusive: true }),
        upper: upper.map(|value| GradeEndpoint { value: Real(value), inclusive: false }),
    }
}

#[test]
fn routes_and_payments_go_by_the_blend() {
    let (mut input, mut solution) = full_pile();
    input.qualifications = vec![GradeQualification {
        loader: LoaderId(1),
        pile: StockpileId(0),
        destination: DestinationId(1),
        alternatives: vec![GradePredicate { rule: RoutingRuleId(0), bounds: vec![range(FE, Some(0.55), Some(0.65))] }],
    }];
    input.conditional_values = vec![
        ConditionalValue {
            candidate: 1,
            rule: CashflowRuleId(1),
            value_per_tonne: Real(3.0),
            bounds: vec![range(FE, Some(0.60), None)],
        },
        ConditionalValue {
            candidate: 1,
            rule: CashflowRuleId(2),
            value_per_tonne: Real(7.0),
            bounds: vec![range(FE, None, Some(0.60))],
        },
    ];
    solution.reported_objective = Real(7_000.0);
    let report = replay(&input, &solution);
    assert!(report.is_valid(), "{:?} {:?}", report.issues, report.grade_issues);
    assert_eq!(report.replayed_objective, Real(7_000.0));
    input.qualifications[0].alternatives[0].bounds = vec![range(FE, Some(0.61), None)];
    let report = replay(&input, &solution);
    assert!(report.is_physically_valid() && !report.is_valid());
    assert!(matches!(report.grade_issues[0], GradeIssue::OutsideRange { interval: 0, .. }));
    input.qualifications[0].loader = LoaderId(0);
    let report = replay(&input, &solution);
    assert!(report.is_valid(), "a route without a qualification is open");
}

#[test]
fn payments_and_routes_are_chosen_by_the_model() {
    let (mut input, _) = full_pile();
    input.grades = grade_table(&["Fe"], &[(1, vec![60.0]), (2, vec![80.0])]);
    input.qualifications = vec![GradeQualification {
        loader: LoaderId(1),
        pile: StockpileId(0),
        destination: DestinationId(1),
        alternatives: vec![GradePredicate { rule: RoutingRuleId(0), bounds: vec![range(FE, Some(0.55), Some(0.65))] }],
    }];
    input.conditional_values = vec![ConditionalValue {
        candidate: 1,
        rule: CashflowRuleId(1),
        value_per_tonne: Real(3.0),
        bounds: vec![range(FE, Some(0.59), None)],
    }];
    let (_, report) = solved(&input);
    assert!((report.replayed_objective.0 - 7_000.0).abs() < 1e-3, "{:?}", report.replayed_objective);
    // A pile outside the range cannot be drawn on, and without that a full one takes nothing.
    input.piles = vec![pile(0, 1_000.0, &[(1_000.0, vec![0.70])], 1)];
    let (_, report) = solved(&input);
    assert!(report.replayed_objective.0.abs() < 1e-3, "{:?}", report.replayed_objective);
}

#[test]
fn a_search_settles_and_says_so() {
    let (input, _) = full_pile();
    let search = run(&input);
    assert_eq!(search.termination(), Termination::Converged);
    assert!(search.any_feasible && search.any_physically_valid);
    assert_eq!(search.history.len(), search.iterations);
    assert_eq!(search.history[0].start, StartPolicy::OpeningThenSupply);
    assert_eq!(search.history[0].outcome, Some(CandidateOutcome::Publishable));
    assert_eq!(search.time_to_first_valid, Some(0));
    let best = search.best.as_ref().unwrap().objective;
    let told: Vec<f64> = search
        .history
        .iter()
        .filter(|entry| entry.outcome == Some(CandidateOutcome::Publishable))
        .map(|entry| entry.replayed_objective.0)
        .collect();
    assert!(told.contains(&best.0));
    assert!(told.iter().all(|value| *value <= best.0));
}

#[test]
fn a_search_without_candidates_says_why() {
    let (input, solution) = full_pile();
    let mut search: Search<Real> = Search::begin(IterationBudget::new(1_000), vec![StartPolicy::PhysicalFloor]);
    assert!(search.next(&input, 1_000).is_none());
    assert_eq!(search.termination(), Termination::Budget);
    let mut search: Search<Real> = Search::begin(IterationBudget::new(1_000), vec![StartPolicy::PhysicalFloor]);
    assert!(search.next(&input, 0).is_some());
    search.refuse(5);
    assert!(search.next(&input, 10).is_none());
    assert_eq!(search.termination(), Termination::AllSubproblemsInfeasible);
    let mut broken = solution.clone();
    broken.movements[1].tonnes_t = Real(100.0);
    let mut search: Search<Real> = Search::begin(IterationBudget::new(1_000), vec![StartPolicy::PhysicalFloor]);
    assert!(search.next(&input, 0).is_some());
    let report = replay(&input, &broken);
    search.judge(broken, report, Some(Real(5_500.0)), 5, 10);
    assert_eq!(search.history[0].outcome, Some(CandidateOutcome::PhysicallyInvalid));
    assert!(search.next(&input, 1_000).is_none());
    assert_eq!(search.termination(), Termination::NoValidCandidate);
    let mut wide = input.clone();
    wide.grades = grade_table(&["Fe"], &[(1, vec![60.0]), (2, vec![80.0])]);
    wide.movements.push(dug(0, 1, 2, 0, 10.0));
    let mut search: Search<Real> = Search::begin(IterationBudget::new(1_000), vec![StartPolicy::PhysicalCeiling]);
    assert!(search.next(&wide, 0).is_some());
    let report = replay(&wide, &solution);
    search.judge(solution, report, Some(Real(5_500.0)), 5, 10);
    assert!(search.best.is_some());
    assert_eq!(search.estimates.get(StockpileId(0), 0, FE), Real(0.7));
    assert!(search.next(&wide, 1_000).is_none());
    assert_eq!(search.termination(), Termination::Budget);
}

#[test]
fn a_search_says_why_its_best_start_ended() {
    let (mut input, solution) = full_pile();
    input.grades = grade_table(&["Fe"], &[(1, vec![60.0]), (2, vec![80.0])]);
    input.movements.push(dug(0, 1, 2, 0, 10.0));
    let starts = vec![StartPolicy::OpeningThenSupply, StartPolicy::PhysicalCeiling];
    let mut search: Search<Real> = Search::begin(IterationBudget::new(1_000), starts);
    assert!(search.next(&input, 0).is_some());
    let idle = schedule(&input, vec![], vec![], 0.0);
    let report = replay(&input, &idle);
    search.judge(idle, report, Some(Real(0.0)), 5, 10);
    assert_eq!(search.termination(), Termination::Converged);
    assert!(search.next(&input, 20).is_some());
    let report = replay(&input, &solution);
    search.judge(solution, report, Some(Real(5_500.0)), 5, 30);
    assert_eq!(search.best.as_ref().unwrap().objective, Real(5_500.0));
    assert!(search.next(&input, 1_000).is_none());
    assert_eq!(search.termination(), Termination::Budget);
}

#[test]
fn a_task_without_ground_is_never_ready() {
    let mut first = dig_task(0, 0, &[9], 1.0);
    first.priority = 0;
    let mut second = dig_task(1, 0, &[1], 1.0);
    second.priority = 1;
    let (mut input, _) = full_pile();
    input.loaders.truncate(1);
    input.tasks = vec![first, second];
    input.movements.truncate(1);
    let (solution, report) = solved(&input);
    assert!((report.replayed_objective.0 - 0.0).abs() < 1e-6, "the pile is full: {:?}", solution.movements);
    input.piles[0].capacity_t = Real(2_000.0);
    let (solution, report) = solved(&input);
    assert!((report.replayed_objective.0 - 5_000.0).abs() < 1e-3, "{:?}", solution.movements);
}

#[test]
fn a_model_counts_its_columns_and_rows() {
    let (input, _) = full_pile();
    let sheet = formulate(&input, None).unwrap();
    let sizes = sheet.sizes();
    assert_eq!(sizes.variables, sheet.columns().len());
    assert_eq!(sizes.binaries, sheet.binaries().iter().filter(|flag| **flag).count());
    assert_eq!(sizes.nonlinear_constraints, 1);
    let fixed = StartPolicy::PhysicalCeiling.initial(&input).fix(&sheet).sizes();
    assert_eq!(fixed.nonlinear_constraints, 0);
    assert_eq!(fixed.linear_constraints, sizes.linear_constraints + 1);
    assert_eq!(fixed.variables, sizes.variables);
}

#[test]
fn a_cancelled_model_is_not_written() {
    let (input, solution) = full_pile();
    let token = CancellationToken::new();
    assert!(formulate(&input, Some(&token)).is_ok());
    assert!(replay_cancellable(&input, &solution, &token).is_some());
    token.cancel();
    assert!(formulate(&input, Some(&token)).is_err());
    assert!(replay_cancellable(&input, &solution, &token).is_none());
}

#[test]
fn starts_suppose_what_their_policy_says() {
    let (mut input, _) = full_pile();
    input.grades = grade_table(&["Fe"], &[(1, vec![50.0]), (2, vec![80.0])]);
    let opening = StartPolicy::OpeningThenSupply.initial(&input);
    assert_eq!(opening.get(StockpileId(0), 0, FE), Real(0.6));
    let floor = StartPolicy::PhysicalFloor.initial(&input);
    assert_eq!(floor.get(StockpileId(0), 0, FE), Real(0.5));
    // Nothing brings the richer material to a pile yet.
    let ceiling = StartPolicy::PhysicalCeiling.initial(&input);
    assert_eq!(ceiling.get(StockpileId(0), 0, FE), Real(0.5));
    input.movements.push(dug(0, 1, 2, 0, 10.0));
    let ceiling = StartPolicy::PhysicalCeiling.initial(&input);
    assert_eq!(ceiling.get(StockpileId(0), 0, FE), Real(0.8));
    assert!((ceiling.drift(&floor).0 - 0.3).abs() < 1e-12);
    let mut met: Ledger<Pair<StockpileId, Pair<usize, usize>>, Real> = Ledger::new();
    met.put(Pair(StockpileId(0), Pair(0, FE)), Real(0.6));
    let moved = ceiling.toward(&met);
    assert!((moved.get(StockpileId(0), 0, FE).0 - 0.7).abs() < 1e-12);
}

#[test]
fn an_empty_pile_is_supposed_to_get_what_can_reach_it() {
    let (mut input, _) = full_pile();
    input.grades = grade_table(&["Fe"], &[(1, vec![40.0]), (2, vec![80.0])]);
    input.piles = vec![pile(0, 1_000.0, &[], 1), pile(1, 1_000.0, &[], 1), pile(2, 1_000.0, &[], 1)];
    input.ground = vec![block(1, 100.0, 1), block(2, 300.0, 2)];
    input.destinations = vec![pile_destination(0, 0, None), dump(1, None), pile_destination(2, 1, None)];
    input.movements = vec![dug(0, 1, 1, 0, 0.0), dug(0, 2, 2, 0, 0.0)];
    let near = |found: Real, wanted: f64| assert!((found.0 - wanted).abs() < 1e-12, "{} for {wanted}", found.0);
    near(StartPolicy::OpeningThenSupply.initial(&input).get(StockpileId(0), 0, FE), 0.7);
    // A second loader on the same block brings no more of it.
    input.movements.push(dug(1, 1, 1, 0, 0.0));
    input.movements.push(dug(0, 2, 2, 2, 0.0));
    let start = StartPolicy::OpeningThenSupply.initial(&input);
    near(start.get(StockpileId(0), 0, FE), 0.7);
    near(start.get(StockpileId(1), 0, FE), 0.8);
    near(start.get(StockpileId(2), 0, FE), 0.7);
    // A block of two materials counts with its shares.
    input.ground[1].material = vec![
        MaterialShare { material: MaterialId(2), fraction: Real(0.5) },
        MaterialShare { material: MaterialId(1), fraction: Real(0.5) },
    ];
    near(StartPolicy::OpeningThenSupply.initial(&input).get(StockpileId(0), 0, FE), (40.0 + 120.0) / 250.0);
    // What a pile holds comes first, in its first chunk where chunks are not told apart.
    input.piles[0] = pile(0, 1_000.0, &[(100.0, vec![0.30])], 1);
    near(StartPolicy::OpeningThenSupply.initial(&input).get(StockpileId(0), 0, FE), 0.3);
    input.piles[0].chunks = reals(&[500.0, 500.0]);
    let start = StartPolicy::OpeningThenSupply.initial(&input);
    near(start.get(StockpileId(0), chunk_key(0, 0, 1), FE), 0.3);
    near(start.get(StockpileId(0), chunk_key(1, 0, 1), FE), 160.0 / 250.0);
}

#[test]
fn a_conditional_route_is_bounded_by_what_its_loader_lifts() {
    let (mut input, _) = full_pile();
    input.segments_per_interval = 2;
    input.loaders[1] = loader(1, 1, 0.0, 100.0);
    input.movements.push(reclaimed(1, 0, 2, 1, 1.0));
    input.qualifications = vec![GradeQualification {
        loader: LoaderId(1),
        pile: StockpileId(0),
        destination: DestinationId(1),
        alternatives: vec![GradePredicate { rule: RoutingRuleId(0), bounds: vec![range(FE, Some(0.55), None)] }],
    }];
    let sheet = formulate(&input, None).unwrap();
    let weights = |wanted: Column| -> Vec<f64> {
        let mut found = vec![];
        for entry in &sheet.entries {
            if let Entry::Row { terms, .. } = entry {
                found.extend(terms.iter().filter(|(column, _)| *column == wanted).map(|(_, weight)| weight.0));
            }
        }
        found
    };
    let used = weights(Column::Eligible { qualification: 0, interval: 0 });
    assert!(used.contains(&-100.0), "{used:?}");
    let picked = weights(Column::Picked { qualification: 0, interval: 0, alternative: 0 });
    assert!(picked.contains(&-100.0), "{picked:?}");
}

#[test]
fn a_chunk_is_drawn_no_faster_than_its_loaders_lift() {
    let mut input = chunk_world(ReclaimOrder::Fifo, 2);
    input.movements.push(reclaimed(1, 0, 2, 1, 1.0));
    let sheet = formulate(&input, None).unwrap();
    let closed = Column::ChunkClosed { pile: StockpileId(0), chunk: 0, interval: 0 };
    let drawn = Column::ChunkReclT { pile: StockpileId(0), chunk: 0, interval: 0 };
    let gate = sheet.entries.iter().find_map(|entry| match entry {
        Entry::Row { terms, .. } if terms.len() == 2 && terms[0].0 == drawn && terms[1].0 == closed => Some(terms[1].1.0),
        _ => None,
    });
    assert_eq!(gate, Some(-100.0));
}

#[test]
fn a_bar_that_used_its_maximum_makes_way() {
    let mut first = reclaim_task(0, 0, 0, 2.0, Some(50.0));
    first.priority = 0;
    let mut second = dig_task(1, 0, &[1], 2.0);
    second.priority = 1;
    let input = BlendInput {
        intervals: intervals(2, 1.0),
        segments_per_interval: 1,
        grades: grade_table(&["Fe"], &[(1, vec![60.0])]),
        piles: vec![pile(0, 1_000.0, &[(1_000.0, vec![0.60])], 1)],
        loaders: vec![loader(0, 2, 100.0, 100.0)],
        tasks: vec![first, second],
        ground: vec![block(1, 500.0, 1)],
        destinations: vec![dump(1, None)],
        trucks: vec![truck(0, 2, 10_000.0)],
        movements: vec![reclaimed(0, 0, 1, 1, 1.0), dug(0, 1, 1, 1, 1.0)],
        qualifications: vec![],
        conditional_values: vec![],
        grade_limits: vec![],
    };
    let (solution, report) = solved(&input);
    assert!((report.replayed_objective.0 - 150.0).abs() < 1e-3, "{:?}", solution.movements);
    assert!((tonnes_of(&solution, &|row| row.candidate == 0 && row.interval == 0) - 50.0).abs() < 1e-4);
    assert!((tonnes_of(&solution, &|row| row.candidate == 1 && row.interval == 1) - 100.0).abs() < 1e-4);
}

#[test]
fn blocks_are_dug_in_the_order_of_their_sequence() {
    let input = BlendInput {
        intervals: intervals(2, 1.0),
        segments_per_interval: 2,
        grades: grade_table(&["Fe"], &[(1, vec![60.0]), (2, vec![60.0])]),
        piles: vec![pile(0, 10_000.0, &[], 1)],
        loaders: vec![loader(0, 2, 100.0, 0.0)],
        tasks: vec![dig_task(0, 0, &[1, 2], 2.0)],
        ground: vec![block(1, 100.0, 1), block(2, 150.0, 2)],
        destinations: vec![pile_destination(0, 0, None)],
        trucks: vec![truck(0, 2, 100_000.0)],
        movements: vec![dug(0, 1, 1, 0, 1.0), dug(0, 2, 2, 0, 10.0)],
        qualifications: vec![],
        conditional_values: vec![],
        grade_limits: vec![],
    };
    let ahead = replay(&input, &schedule(&input, vec![moved(1, 0, 100.0)], vec![], 1_000.0));
    assert!(!ahead.is_physically_valid());
    assert!(ahead.issues.iter().any(|issue| matches!(
        issue,
        ReplayIssue::SequenceBroken { ground: GroundId(2), earlier: GroundId(1), interval: 0, segment: 0, .. }
    )));
    let in_turn = schedule(&input, vec![moved(0, 0, 100.0), moved(1, 1, 100.0)], vec![], 1_100.0);
    let report = replay(&input, &in_turn);
    assert!(report.is_valid(), "{:?}", report.issues);
}

#[test]
fn chunks_open_with_what_the_pile_holds() {
    let (mut input, _) = full_pile();
    input.piles = vec![pile(0, 400.0, &[(200.0, vec![0.4])], 1)];
    input.piles[0].chunks = reals(&[200.0, 200.0]);
    let rows = vec![chunk(0, 0, 200.0, true, 0.0, &[]), chunk(1, 0, 0.0, false, 0.0, &[])];
    let report = replay(&input, &schedule(&input, vec![], rows, 0.0));
    assert!(report.is_valid(), "{:?}", report.issues);
    let rows = vec![chunk(0, 0, 0.0, false, 0.0, &[]), chunk(1, 0, 0.0, false, 0.0, &[])];
    assert!(!replay(&input, &schedule(&input, vec![], rows, 0.0)).is_valid());
}

#[test]
fn each_chunk_has_its_own_blend() {
    let (mut input, _) = full_pile();
    input.piles = vec![pile(0, 400.0, &[], 1)];
    input.piles[0].chunks = reals(&[200.0, 200.0]);
    input.piles[0].chunk_opening = vec![(Real(200.0), reals(&[80.0])), (Real(200.0), reals(&[160.0]))];
    let rows = vec![chunk(0, 0, 200.0, true, 0.0, &[]), chunk(1, 0, 200.0, true, 0.0, &[])];
    let report = replay(&input, &schedule(&input, vec![], rows, 0.0));
    assert!(report.is_valid(), "{:?}", report.issues);
    let blend = |number: usize| report.blends.get(Pair(StockpileId(0), Pair(chunk_key(number, 0, 1), FE)));
    assert_eq!(blend(0), Some(Real(0.4)));
    assert_eq!(blend(1), Some(Real(0.8)));
}

#[test]
fn small_readings_are_dropped_and_counted() {
    let mut columns: BlendColumns<Real> = BlendColumns::new();
    columns.record(Column::Duration { interval: 0, segment: 0 }, Real(1.0));
    columns.record(Column::Movement { candidate: 0, interval: 0, segment: 0 }, Real(12.5));
    columns.record(Column::Movement { candidate: 1, interval: 0, segment: 0 }, Real(1e-9));
    columns.record(Column::Movement { candidate: 2, interval: 0, segment: 0 }, Real(0.0));
    let key = StockpileId(3);
    columns.record(Column::ChunkOpenT { pile: key, chunk: 1, interval: 0 }, Real(40.0));
    columns.record(Column::ChunkReclT { pile: key, chunk: 1, interval: 0 }, Real(15.0));
    columns.record(Column::ChunkClosed { pile: key, chunk: 1, interval: 0 }, Real(0.999));
    columns.record(Column::ChunkRecv { pile: key, chunk: 1, interval: 0, candidate: 0 }, Real(5.0));
    columns.record(Column::ChunkRecv { pile: key, chunk: 1, interval: 0, candidate: 1 }, Real(1e-9));
    columns.record(Column::Stock { pile: key, interval: 0 }, Real(1.0));
    let solution = extract_solution(&columns, Real(25.0));
    assert_eq!(solution.movements.len(), 1);
    assert_eq!(solution.movements[0].tonnes_t, Real(12.5));
    assert_eq!(solution.durations.get(Pair(0, 0)), Some(Real(1.0)));
    assert_eq!(solution.adjustments.movement_count, 1);
    assert_eq!(solution.adjustments.movement_total_t, Real(1e-9));
    assert_eq!(solution.adjustments.chunk_receipt_count, 1);
    assert_eq!(solution.adjustments.chunk_receipt_max_t, Real(1e-9));
    let row = &solution.chunks[0];
    assert!(row.closed && row.open_t == Real(40.0) && row.reclaimed_t == Real(15.0));
    assert_eq!(row.received_t, Real(5.0));
    assert_eq!(row.receipts, vec![(0, Real(5.0))]);
    assert_eq!(solution.reported_objective, Real(25.0));
}

fn accepted(
    field: u64,
    basis: GradeBasis,
    fields: &Vec<ReserveField>,
    tonnage: Option<ReserveFieldId>,
) -> Result<GradeField, GradeRejection<Fixed>> {
    GradeField::accept(ReserveFieldId(field), basis, fields, tonnage)
}

#[test]
fn grade_compatibility_is_enforced() {
    let tonnes = ReserveFieldId(1);
    let volume = ReserveFieldId(2);
    let fields = vec![
        ReserveField { id: tonnes, name: "Tonnes".into(), aggregation: ReserveAggregation::Sum },
        ReserveField { id: volume, name: "Volume".into(), aggregation: ReserveAggregation::Sum },
        ReserveField {
            id: ReserveFieldId(3),
            name: "Fe".into(),
            aggregation: ReserveAggregation::WeightedAverage { weight_field: tonnes },
        },
        ReserveField {
            id: ReserveFieldId(4),
            name: "Cu ppm".into(),
            aggregation: ReserveAggregation::WeightedAverage { weight_field: volume },
        },
        ReserveField { id: ReserveFieldId(5), name: "Contained Fe".into(), aggregation: ReserveAggregation::Sum },
        ReserveField { id: ReserveFieldId(6), name: "Rock Type".into(), aggregation: ReserveAggregation::Category },
    ];

    // Tonnes-weighted: accepted.
    assert!(accepted(3, GradeBasis::Percent, &fields, Some(tonnes)).is_ok());

    // Weighted by something else: rejected, and the message names both.
    let rejected = accepted(4, GradeBasis::Fraction, &fields, Some(tonnes)).unwrap_err();
    assert!(matches!(rejected, GradeRejection::ForeignWeight { .. }), "{rejected:?}");
    assert!(rejected.message().contains("Volume") && rejected.message().contains("Tonnes"));

    // A summed quantity is not a grade.
    let rejected = accepted(5, GradeBasis::Fraction, &fields, Some(tonnes)).unwrap_err();
    assert!(matches!(rejected, GradeRejection::Summed { .. }), "{rejected:?}");

    // A category is not a number.
    let rejected = accepted(6, GradeBasis::Fraction, &fields, Some(tonnes)).unwrap_err();
    assert!(matches!(rejected, GradeRejection::Categorical { .. }), "{rejected:?}");

    // No tonnage basis configured: nothing can be verified.
    let rejected = accepted(3, GradeBasis::Fraction, &fields, None).unwrap_err();
    assert!(matches!(rejected, GradeRejection::NoTonnageBasis), "{rejected:?}");

    // A missing value is not zero.
    let mut captured: Ledger<MaterialId, Vec<Option<Fixed>>> = Ledger::new();
    captured.put(MaterialId(1), vec![None]);
    let rejected = GradeTable::build(grade_fields(&["Fe"]), &captured).unwrap_err();
    assert!(matches!(rejected, GradeRejection::MissingValue { .. }), "{rejected:?}");

    // A field that is not there is no grade either, nor is a share above the whole.
    let rejected = accepted(7, GradeBasis::Fraction, &fields, Some(tonnes)).unwrap_err();
    assert!(matches!(rejected, GradeRejection::UnknownField(ReserveFieldId(7))), "{rejected:?}");
    assert_eq!(rejected.message(), "reserve field 7 is not defined on this project");
    captured.put(MaterialId(1), vec![Some(Fixed(101_500_000_000))]);
    let rejected = GradeTable::build(grade_fields(&["Fe"]), &captured).unwrap_err();
    assert!(matches!(rejected, GradeRejection::OutOfRange { material: MaterialId(1), .. }), "{rejected:?}");
    assert_eq!(
        rejected.message(),
        "material 1's 'Fe' value 101.500000000 is outside the range its declared unit allows"
    );
    assert_eq!(
        rejected.message_with("101.5"),
        "material 1's 'Fe' value 101.5 is outside the range its declared unit allows"
    );
}

#[test]
fn grades_are_kept_as_fractions() {
    let table = grade_table(&["Fe", "SiO2"], &[(1, vec![60.0, 5.0]), (2, vec![50.0, 8.0])]);
    assert_eq!(table.count(), 2);
    assert_eq!(table.fraction(MaterialId(1), 1), Some(Real(0.05)));
    assert_eq!(table.fraction(MaterialId(3), 0), None);
    assert_eq!(table.fraction(MaterialId(1), 2), None);
    assert_eq!(table.ceilings(), reals(&[0.6, 0.08]));
    assert_eq!(GradeBasis::Percent.to_fraction(Real(25.0)), Real(0.25));
    assert_eq!(GradeBasis::Fraction.to_fraction(Real(0.25)), Real(0.25));
}

#[test]
fn half_spaces_divide_the_grades() {
    let above = GradeHalfSpace { grade: FE, above: true, endpoint: GradeEndpoint { value: Real(0.6), inclusive: true } };
    assert!(above.holds(Real(0.6)) && !above.negated().holds(Real(0.6)));
    assert!(!above.holds(Real(0.59)) && above.negated().holds(Real(0.59)));
    let bound = range(FE, Some(0.5), Some(0.6));
    assert_eq!(bound.half_spaces().len(), 2);
    assert!(bound.holds(&reals(&[0.5])) && !bound.holds(&reals(&[0.6])));
    let free = GradePredicate { rule: RoutingRuleId(0), bounds: vec![] };
    assert!(free.unconditional() && free.holds(&reals(&[0.1])));
}

// Parcels: stockpiles that keep what they receive apart.

/// A block is dug onto a pile, or straight to the crusher that the pile feeds.
fn site() -> OptimisationInput<Real> {
    let horizon = HorizonSpec {
        end_h: Real(2.0),
        regular_step_h: Real(1.0),
        parcel_target_t: Real(20.0),
        event_segments: Some(2),
        tolerances: NumericalTolerances::standard(),
    };
    let built = build_intervals(horizon, &vec![(Real(0.0), Real(2.0))], &vec![]).unwrap();
    let share = vec![MaterialShare { material: MaterialId(1), fraction: Real(1.0) }];
    let haul = |mut movement: MovementCandidate<Real>, hours: f64| {
        movement.truck_hours_per_tonne = Real(hours);
        movement
    };
    OptimisationInput {
        horizon,
        intervals: built,
        materials: vec![Material { id: MaterialId(1), label: "A".into() }],
        loaders: vec![loader(1, 2, 40.0, 0.0), loader(2, 2, 0.0, 40.0)],
        tasks: vec![dig_task(1, 1, &[1], 2.0), reclaim_task(2, 2, 1, 2.0, None)],
        ground: vec![block(1, 60.0, 1)],
        stockpiles: vec![Stockpile {
            id: StockpileId(1),
            capacity_t: Real(1_000.0),
            opening: vec![OpeningLot { id: LotId(1), tonnes_t: Real(30.0), material: share }],
            order: ReclaimOrder::Fifo,
        }],
        destinations: vec![pile_destination(1, 1, Some(1_000.0)), crusher(2, 1, 300.0)],
        trucks: vec![truck(0, 2, 10.0)],
        movements: vec![
            haul(dug(1, 1, 1, 1, 1.0), 0.01),
            haul(dug(1, 1, 1, 2, 1.5), 0.015),
            haul(reclaimed(2, 1, 1, 2, 2.0), 0.02),
        ],
    }
}

/// Solves a small site and publishes what comes of it.
fn worked(input: &OptimisationInput<Real>) -> OptimisationResult<Real> {
    assert!(check(input, &SolveLimits::standard()).is_ok());
    let budgets = segment_budgets(input);
    let model = Parcels { input, budgets: &budgets };
    let lists = model.list();
    let (mut sheet, seed) = model.write(&lists);
    assert_eq!(seed.entries.len(), budgets.iter().map(|count| count - 1).sum::<usize>());
    let columns = sheet.columns();
    let (primary, _) = model.costs(&lists, &columns);
    for entry in &mut sheet.entries {
        if let Entry::Continuous { column, value, .. } = entry {
            let at = columns.iter().position(|other| other == column).unwrap();
            *value = primary[at];
        }
    }
    let (columns, values, total) = best_of(&sheet).expect("a schedule");
    let values = reals(&values);
    assert!((dot(&primary, &values).0 - total).abs() < 1e-6);
    assert!(integrality_violation(&sheet.binaries(), &values, Real(1e-6)).is_none());
    let reading = model.gather(&lists, &columns, &values);
    let sizes = sheet.sizes();
    model.publish(
        &lists,
        reading,
        Verdict {
            status: map_status(BackendStatus::Optimal, true, false),
            bound: Some(Real(total)),
            gap: Real(0.0),
            preferred: false,
            statistics: SolveStatistics {
                variables: sizes.variables,
                binaries: sizes.binaries,
                constraints: sizes.linear_constraints,
            },
        },
    )
}

fn kinds(input: &OptimisationInput<Real>, result: &OptimisationResult<Real>) -> Vec<IssueKind> {
    validate_solution(input, result).iter().map(|issue| issue.kind).collect()
}

#[test]
fn a_small_site_is_scheduled_and_stands_up_to_an_audit() {
    let input = site();
    let result = worked(&input);
    // The opening lot in the first hour, the first hour's receipts in the second.
    assert_eq!(kinds(&input, &result), vec![]);
    assert!((result.summary.objective.unwrap().0 - 210.0).abs() < 1e-4, "{:?}", result.summary);
    assert_eq!(result.summary.status, SolveStatus::Optimal);
    assert_eq!(result.resolution.segment_counts, vec![2, 2]);
    let taken: f64 = result.reclaims.iter().map(|row| row.tonnes_t.0).sum();
    assert!((taken - 70.0).abs() < 1e-4, "{:?}", result.reclaims);
    let first: f64 = result.reclaims.iter().filter(|row| row.interval == 0).map(|row| row.tonnes_t.0).sum();
    assert!((first - 30.0).abs() < 1e-4);
    assert_eq!(result.parcels.len(), 2);
    for parcel in &result.parcels {
        assert_eq!(parcel.release_interval, 1);
        assert!((parcel.tonnes_t.0 - 20.0).abs() < 1e-4);
    }
    let last = &result.balances[1];
    assert!(last.ground_remaining_t.get(1).unwrap().0.abs() < 1e-4);
    assert!(last.stockpile_closing_t.get(1).unwrap().0.abs() < 1e-4);
    assert!((last.crusher_daily_used_t.get(pair_key(2, 0)).unwrap().0 - 90.0).abs() < 1e-4);
}

#[test]
fn a_pile_gives_parcels_in_its_order() {
    for (order, first) in [(ReclaimOrder::Fifo, 0), (ReclaimOrder::Lifo, 1)] {
        let mut input = site();
        input.stockpiles[0].order = order;
        input.stockpiles[0].opening = vec![];
        input.loaders[1] = loader(2, 2, 0.0, 20.0);
        input.horizon.event_segments = Some(1);
        input.movements.remove(1);
        let result = worked(&input);
        assert_eq!(kinds(&input, &result), vec![], "{order:?} {:?} {:?}", result.reclaims, result.parcels);
        assert!((result.summary.objective.unwrap().0 - 100.0).abs() < 1e-4, "{:?}", result.summary);
        assert_eq!(result.reclaims.len(), 1);
        assert_eq!(result.reclaims[0].interval, 1);
        assert_eq!(result.reclaims[0].unit, InventoryUnit::Receipt { interval: 0, segment: 0, position: first });
        // What was drawn in one order does not stand up in the other.
        input.stockpiles[0].order = match order {
            ReclaimOrder::Fifo => ReclaimOrder::Lifo,
            ReclaimOrder::Lifo => ReclaimOrder::Fifo,
        };
        assert!(kinds(&input, &result).contains(&IssueKind::ReclaimUnit { interval: 1, segment: 0 }));
    }
}

#[test]
fn each_pile_answers_for_its_own_units() {
    let mut input = site();
    let mut result = worked(&input);
    input.stockpiles.push(Stockpile {
        id: StockpileId(2),
        capacity_t: Real(1_000.0),
        opening: vec![],
        order: ReclaimOrder::Fifo,
    });
    let parcel = |pile: u32, tonnes: f64| ReceiptParcel {
        stockpile: StockpileId(pile),
        receipt_interval: 0,
        segment: 0,
        release_interval: 1,
        position: 9,
        source: SourceId::Ground(GroundId(1)),
        material: MaterialId(1),
        tonnes_t: Real(tonnes),
    };
    result.parcels.push(parcel(1, 10.0));
    result.parcels.push(parcel(2, 500.0));
    result.reclaims.push(ReclaimRecord {
        interval: 1,
        segment: 0,
        loader: LoaderId(2),
        task: TaskId(2),
        stockpile: StockpileId(1),
        unit: InventoryUnit::Receipt { interval: 0, segment: 0, position: 9 },
        tonnes_t: Real(10.0),
    });
    assert!(!kinds(&input, &result).contains(&IssueKind::UnitOverdrawn));
    result.reclaims.last_mut().unwrap().tonnes_t = Real(200.0);
    assert!(kinds(&input, &result).contains(&IssueKind::UnitOverdrawn));
}

#[test]
fn an_audit_names_what_is_wrong() {
    let input = site();
    let sound = worked(&input);

    let mut result = sound.clone();
    result.movements[0].tonnes_t = Real(f64::NAN);
    assert!(kinds(&input, &result).contains(&IssueKind::NonFinite));

    let mut result = sound.clone();
    result.segment_durations_h[1] = reals(&[0.5, 0.25]);
    assert!(kinds(&input, &result).contains(&IssueKind::DurationTotal { interval: 1 }));
    result.segment_durations_h[1] = reals(&[1.0]);
    assert!(kinds(&input, &result).contains(&IssueKind::DurationCount { found: 1, budget: 2 }));
    result.segment_durations_h.pop();
    result.resolution.segment_counts[1] = 0;
    assert!(kinds(&input, &result).contains(&IssueKind::MissingDurations { interval: 1 }));

    let mut tight = input.clone();
    tight.loaders[0].rates[0].dig_tph = Real(30.0);
    assert!(kinds(&tight, &sound).iter().any(|kind| matches!(kind, IssueKind::DigRate { interval: 0, .. })));
    let mut tight = input.clone();
    tight.loaders[1].rates[1].reclaim_tph = Real(30.0);
    assert!(kinds(&tight, &sound).iter().any(|kind| matches!(kind, IssueKind::ReclaimRate { interval: 1, .. })));
    let mut tight = input.clone();
    tight.trucks[0].hours[0] = Real(0.1);
    assert!(kinds(&tight, &sound)
        .iter()
        .any(|kind| matches!(kind, IssueKind::TruckShare { truck: TruckClassId(0), interval: 0, .. })));
    let mut tight = input.clone();
    tight.destinations[1].crusher_daily_t = vec![Some(Real(50.0))];
    assert!(kinds(&tight, &sound).contains(&IssueKind::CrusherDay { crusher: DestinationId(2), day: 0 }));
    let mut tight = input.clone();
    tight.ground[0].tonnes_t = Real(50.0);
    assert!(kinds(&tight, &sound).contains(&IssueKind::GroundOverdrawn { ground: GroundId(1) }));
    let mut tight = input.clone();
    tight.tasks[1] = reclaim_task(2, 2, 1, 2.0, Some(60.0));
    assert!(kinds(&tight, &sound).contains(&IssueKind::ReclaimMaximum));
    let mut tight = input.clone();
    tight.stockpiles[0].capacity_t = Real(35.0);
    assert!(kinds(&tight, &sound)
        .iter()
        .any(|kind| matches!(kind, IssueKind::PileOutside { pile: StockpileId(1), interval: 0, .. })));

    let mut result = sound.clone();
    result.movements[0].value = Real(1.0);
    let found = kinds(&input, &result);
    assert!(found.contains(&IssueKind::MovementValue) && found.contains(&IssueKind::Objective), "{found:?}");

    let mut result = sound.clone();
    result.summary.raw_solver_objective = Some(Real(400.0));
    assert!(kinds(&input, &result).contains(&IssueKind::SolverObjective));

    let mut result = sound.clone();
    result.parcels[0].release_interval = 0;
    assert!(kinds(&input, &result).contains(&IssueKind::ReleaseInterval));
    let mut result = sound.clone();
    result.parcels[1].position = 5;
    assert!(kinds(&input, &result).contains(&IssueKind::Positions));
    // Two streams may supply one position, one stream only once.
    let mut result = sound.clone();
    result.parcels[1].position = 0;
    assert!(kinds(&input, &result).contains(&IssueKind::Positions));
    result.parcels[1].material = MaterialId(77);
    assert!(!kinds(&input, &result).contains(&IssueKind::Positions));
    let mut result = sound.clone();
    result.parcels[1].tonnes_t = Real(25.0);
    let found = kinds(&input, &result);
    assert!(found.contains(&IssueKind::ParcelSize) && found.contains(&IssueKind::ParcelTotal), "{found:?}");

    let mut result = sound.clone();
    for row in &mut result.reclaims {
        if row.interval == 0 {
            row.unit = InventoryUnit::Receipt { interval: 0, segment: 0, position: 0 };
        }
    }
    let found = kinds(&input, &result);
    assert!(found.iter().any(|kind| matches!(kind, IssueKind::ReclaimUnit { interval: 0, .. })), "{found:?}");

    let mut result = sound.clone();
    result.balances[0].stockpile_closing_t.put(1, Real(999.0));
    assert!(kinds(&input, &result).contains(&IssueKind::PileClosing));
    let mut result = sound;
    result.balances[0].ground_remaining_t.put(1, Real(999.0));
    assert!(kinds(&input, &result).contains(&IssueKind::GroundClosing));
}

#[test]
fn issues_are_put_in_words() {
    assert_eq!(IssueKind::NonFinite.message(), "nonfinite solution value");
    assert_eq!(
        IssueKind::CrusherDay { crusher: DestinationId(2), day: 7 }.message(),
        "crusher DestinationId(2) day 7 over budget"
    );
    assert_eq!(
        IssueKind::OrderBypassed {
            loader: LoaderId(1),
            interval: 0,
            segment: 3,
            worked: TaskId(4),
            eligible: TaskId(5),
        }
        .message(),
        "authored order bypassed: loader LoaderId(1) interval 0 segment 3 worked Some(TaskId(4)) while task TaskId(5) was eligible"
    );
}

#[test]
fn a_result_without_a_schedule_holds_nothing() {
    let input = site();
    let budgets = segment_budgets(&input);
    let model = Parcels { input: &input, budgets: &budgets };
    let statistics = SolveStatistics { variables: 1, binaries: 2, constraints: 3 };
    let result = model.empty_result(SolveStatus::Infeasible, Some("no".into()), statistics);
    assert_eq!(result.summary.status, SolveStatus::Infeasible);
    assert!(result.summary.objective.is_none() && result.movements.is_empty() && result.balances.is_empty());
    assert_eq!(result.summary.message.as_deref(), Some("no"));
    assert_eq!(result.summary.statistics, statistics);
}

#[test]
fn the_routes_of_a_material_are_listed_in_turn() {
    let input = site();
    let budgets = segment_budgets(&input);
    let model = Parcels { input: &input, budgets: &budgets };
    let ground = SourceId::Ground(GroundId(1));
    let pile = SourceId::Stockpile(StockpileId(1));
    assert_eq!(model.routes_for(LoaderId(1), Activity::Dig, ground, MaterialId(1), 0), vec![0, 1]);
    assert_eq!(model.routes_for(LoaderId(2), Activity::Reclaim, pile, MaterialId(1), 1), vec![2]);
    assert!(model.routes_for(LoaderId(2), Activity::Dig, ground, MaterialId(1), 0).is_empty());
    assert!(model.routes_for(LoaderId(1), Activity::Dig, ground, MaterialId(2), 0).is_empty());
}

#[test]
fn every_fault_of_an_input_is_named() {
    let fault = |change: &dyn Fn(&mut OptimisationInput<Real>)| {
        let mut input = site();
        change(&mut input);
        input.validate().unwrap_err()
    };
    assert!(site().validate().is_ok());
    assert_eq!(fault(&|i| i.intervals.clear()), InputError::InvalidIntervals);
    assert_eq!(fault(&|i| i.intervals[1].start_h = Real(1.5)), InputError::InvalidIntervals);
    assert_eq!(fault(&|i| i.horizon.end_h = Real(3.0)), InputError::InvalidIntervals);
    assert_eq!(
        fault(&|i| i.materials.push(Material { id: MaterialId(1), label: "B".into() })),
        InputError::DuplicateId(InputField::Material)
    );
    assert_eq!(fault(&|i| i.loaders.push(loader(1, 2, 1.0, 1.0))), InputError::DuplicateId(InputField::Loader));
    assert_eq!(fault(&|i| i.tasks.push(dig_task(1, 1, &[1], 2.0))), InputError::DuplicateId(InputField::Task));
    assert_eq!(fault(&|i| i.ground.push(block(1, 1.0, 1))), InputError::DuplicateId(InputField::Ground));
    assert_eq!(fault(&|i| i.destinations.push(dump(2, None))), InputError::DuplicateId(InputField::Destination));
    assert_eq!(fault(&|i| i.trucks.push(truck(0, 2, 1.0))), InputError::DuplicateId(InputField::Truck));
    assert_eq!(fault(&|i| i.ground[0].tonnes_t = Real(0.0)), InputError::NonPositive(InputField::GroundTonnes));
    assert_eq!(fault(&|i| i.ground[0].material[0].fraction = Real(0.5)), InputError::InvalidComposition);
    assert_eq!(
        fault(&|i| i.ground[0].material[0].material = MaterialId(9)),
        InputError::MissingReference(InputField::Material)
    );
    assert_eq!(
        fault(&|i| i.stockpiles[0].capacity_t = Real(-1.0)),
        InputError::NonFinite(InputField::StockpileCapacity)
    );
    assert_eq!(
        fault(&|i| i.stockpiles[0].opening[0].tonnes_t = Real(0.0)),
        InputError::NonPositive(InputField::OpeningLot)
    );
    assert_eq!(
        fault(&|i| i.stockpiles[0].capacity_t = Real(29.0)),
        InputError::UnboundedInput(InputField::OpeningInventory)
    );
    assert_eq!(fault(&|i| i.loaders[0].rates.clear()), InputError::InvalidIntervals);
    assert_eq!(
        fault(&|i| i.loaders[0].rates[1].dig_tph = Real(-1.0)),
        InputError::NonFinite(InputField::LoaderRate)
    );
    assert_eq!(
        fault(&|i| i.tasks[0].loader = LoaderId(7)),
        InputError::MissingReference(InputField::TaskLoader)
    );
    assert_eq!(fault(&|i| i.tasks[0].window_end_h = Real(0.0)), InputError::InvalidWindow);
    assert_eq!(
        fault(&|i| i.tasks[0] = dig_task(1, 1, &[], 2.0)),
        InputError::MissingReference(InputField::DigSource)
    );
    assert_eq!(
        fault(&|i| i.tasks[1] = reclaim_task(2, 2, 5, 2.0, None)),
        InputError::MissingReference(InputField::ReclaimSource)
    );
    assert_eq!(
        fault(&|i| i.tasks[1] = reclaim_task(2, 2, 1, 2.0, Some(0.0))),
        InputError::NonPositive(InputField::ReclaimMaximum)
    );
    assert_eq!(
        fault(&|i| i.destinations[1].capacity_t = Some(Real(-1.0))),
        InputError::NonFinite(InputField::DestinationCapacity)
    );
    assert_eq!(
        fault(&|i| i.destinations[0].capacity_t = None),
        InputError::MissingReference(InputField::DestinationStockpile)
    );
    assert_eq!(
        fault(&|i| i.destinations[1].crusher_daily_t = vec![Some(Real(-1.0))]),
        InputError::NonFinite(InputField::CrusherLimit)
    );
    assert_eq!(fault(&|i| i.trucks[0].hours.clear()), InputError::InvalidIntervals);
    assert_eq!(
        fault(&|i| i.movements[0].truck = TruckClassId(9)),
        InputError::MissingReference(InputField::Movement)
    );
    assert_eq!(
        fault(&|i| i.movements[0].source = SourceId::Ground(GroundId(9))),
        InputError::MissingReference(InputField::MovementSource)
    );
    assert_eq!(
        fault(&|i| i.movements[0].truck_hours_per_tonne = Real(0.0)),
        InputError::NonPositive(InputField::TruckCoefficient)
    );
    assert_eq!(
        fault(&|i| i.movements[0].cashflow[0].value_per_tonne = Real(f64::INFINITY)),
        InputError::NonFinite(InputField::CashflowSum)
    );
    assert_eq!(InputField::TruckCoefficient.label(), "truck coefficient");
    assert_eq!(InputField::OpeningInventory.label(), "opening inventory exceeds capacity");
}

#[test]
fn a_horizon_is_cut_at_every_edge() {
    let spec = HorizonSpec {
        end_h: Real(30.0),
        regular_step_h: Real(10.0),
        parcel_target_t: Real(20.0),
        event_segments: None,
        tolerances: NumericalTolerances::standard(),
    };
    let built = build_intervals(spec, &vec![(Real(5.0), Real(50.0))], &vec![Real(24.0), Real(12.0)]).unwrap();
    let edges: Vec<f64> = built.iter().map(|interval| interval.end_h.0).collect();
    assert_eq!(edges, vec![5.0, 10.0, 12.0, 20.0, 24.0, 30.0]);
    assert_eq!(built[5].index, 5);
    assert_eq!(built[5].day(), 1);
    assert_eq!(built[4].day(), 0);
    assert_eq!(built[0].duration_h(), Real(5.0));
    let window = vec![(Real(5.0), Real(5.0))];
    assert!(matches!(build_intervals(spec, &window, &vec![]), Err(InputError::InvalidWindow)));
    assert!(matches!(build_intervals(spec, &vec![], &vec![Real(-1.0)]), Err(InputError::InvalidIntervals)));
    let spec = HorizonSpec { end_h: Real(0.0), ..spec };
    assert!(matches!(
        build_intervals(spec, &vec![], &vec![]),
        Err(InputError::NonPositive(InputField::Horizon))
    ));
}

#[test]
fn tasks_go_by_priority_then_start_then_number() {
    let mut first = dig_task(7, 1, &[1], 2.0);
    first.priority = 2;
    let mut second = dig_task(5, 1, &[1], 2.0);
    second.priority = 1;
    second.window_start_h = Real(1.0);
    let mut third = dig_task(6, 1, &[1], 2.0);
    third.priority = 1;
    let tasks = vec![first, second, dig_task(1, 2, &[1], 2.0), third];
    assert_eq!(authored_order(&tasks, LoaderId(1)), vec![3, 1, 0]);
    // A start that is no number stands in the way only where it decides.
    assert!(do_windows_compare(&tasks));
    let mut tasks = tasks;
    tasks[0].window_start_h = Real(f64::NAN);
    tasks[2].window_start_h = Real(f64::NAN);
    assert!(do_windows_compare(&tasks));
    assert_eq!(authored_order(&tasks, LoaderId(1)), vec![3, 1, 0]);
    tasks[3].window_start_h = Real(f64::NAN);
    assert!(!do_windows_compare(&tasks));
}

#[test]
fn solves_are_limited_as_asked() {
    let limits: SolveLimits<Real> = SolveLimits::standard();
    assert_eq!(limits.relative_gap, Some(Real(1e-6)));
    let input = site();
    let none = SolveLimits { threads: Some(0), ..SolveLimits::standard() };
    assert!(matches!(check(&input, &none), Err(Refusal::Limits)));
    let wide = SolveLimits { relative_gap: Some(Real(-0.1)), ..SolveLimits::standard() };
    assert!(matches!(check(&input, &wide), Err(Refusal::Limits)));
    let mut broken = site();
    broken.intervals.clear();
    assert!(matches!(check(&broken, &limits), Err(Refusal::Input(InputError::InvalidIntervals))));
    assert_eq!(opening(&broken, &limits, true), Opening::Cancelled);
    assert_eq!(opening(&broken, &none, false), Opening::Refused(Refusal::Input(InputError::InvalidIntervals)));
    assert_eq!(opening(&input, &none, false), Opening::Refused(Refusal::Limits));
    assert_eq!(opening(&input, &limits, false), Opening::Model);
    assert_eq!(map_status(BackendStatus::TimeLimit, true, false), SolveStatus::FeasibleLimit);
    assert_eq!(map_status(BackendStatus::TimeLimit, false, false), SolveStatus::LimitNoIncumbent);
    assert_eq!(map_status(BackendStatus::Interrupt, true, true), SolveStatus::Cancelled);
    assert_eq!(map_status(BackendStatus::UnboundedOrInfeasible, false, false), SolveStatus::BackendFailure);
    assert_eq!(
        integrality_violation(&vec![true, false, true], &reals(&[1.0, 0.5, 0.9]), Real(1e-6)).map(|v| v.0 > 0.099),
        Some(true)
    );
    assert_eq!(dot(&reals(&[2.0, 3.0]), &reals(&[5.0, 7.0])), Real(31.0));
}

#[test]
fn an_export_is_taken_once() {
    let mut slot = ExportSlot { target: None };
    request(&mut slot, "model.mps".into());
    assert_eq!(take(&mut slot).as_deref(), Some("model.mps"));
    assert_eq!(take(&mut slot), None);
}

#[test]
fn more_segments_are_tried_only_where_they_might_help() {
    let mut result = worked(&site());
    result.event_budget_restricted = false;
    assert_eq!(next_attempt(&result, 1, 9, None, 0, false), None);
    result.event_budget_restricted = true;
    result.resolution.segment_counts = vec![1, 2];
    assert_eq!(next_attempt(&result, 1, 9, None, 0, false), Some((4, None)));
    let mut tried = vec![];
    result.resolution.segment_counts = vec![4];
    while let Some((next, _)) = next_attempt(&result, 1, 9, None, 0, false) {
        tried.push(next);
        result.resolution.segment_counts = vec![next];
        result.resolution.segment_ceiling = next;
    }
    assert_eq!(tried, vec![8, 16, 32, 64]);
    result.resolution.segment_counts = vec![1, 2];
    assert_eq!(next_attempt(&result, 1, 9, Some(2_000_000_000), 500_000_000, false), Some((4, Some(1_500_000_000))));
    assert_eq!(next_attempt(&result, 1, 9, Some(2_000_000_000), 1_900_000_000, false), None);
    assert_eq!(next_attempt(&result, 1, 9, None, 0, true), None);
    assert_eq!(next_attempt(&result, 3, 4, None, 0, false), Some((4, None)));
    assert_eq!(next_attempt(&result, 4, 4, None, 0, false), None);
    assert_eq!(next_attempt(&result, 1, 0, None, 0, false), None);
    result.summary.status = SolveStatus::Infeasible;
    assert_eq!(next_attempt(&result, 1, 9, None, 0, false), None);
}
