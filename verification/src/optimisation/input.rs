//! What an optimisation is given, and when it is fit to be solved.
use vstd::prelude::*;

use crate::listing::{contains_key, find_key, first_from, has_key, keyed, sum_to, unique, unique_keys, Keyed};
use crate::optimisation::ids::{
    Activity, CashflowRuleId, DestinationId, DestinationKind, GroundId, LoaderId, LotId, MaterialId, ReclaimOrder,
    RoutingRuleId, SourceId, StockpileId, TaskId, TruckClassId,
};
use crate::scalar::Scalar;

verus! {

/// How closely numbers have to agree.
#[derive(Clone, Copy, Debug)]
pub struct NumericalTolerances<N> {
    pub tonnes_t: N,
    pub objective: N,
    pub integrality: N,
    pub parcel_occupancy_t: N,
}

impl<N: Scalar> NumericalTolerances<N> {
    /// The tolerances used where nothing else is asked for.
    pub fn standard() -> (r: Self)
        ensures
            r.tonnes_t == N::of_decimal(1, 6),
            r.objective == N::of_decimal(1, 6),
            r.integrality == N::of_decimal(1, 6),
            r.parcel_occupancy_t == N::of_decimal(1, 5),
    {
        NumericalTolerances {
            tonnes_t: N::decimal(1, 6),
            objective: N::decimal(1, 6),
            integrality: N::decimal(1, 6),
            parcel_occupancy_t: N::decimal(1, 5),
        }
    }
}

/// How far the optimisation looks and how finely.
#[derive(Clone, Copy, Debug)]
pub struct HorizonSpec<N> {
    pub end_h: N,
    pub regular_step_h: N,
    pub parcel_target_t: N,
    pub event_segments: Option<u32>,
    pub tolerances: NumericalTolerances<N>,
}

/// A stretch of the horizon between two neighbouring edges.
#[derive(Clone, Copy, Debug)]
pub struct Interval<N> {
    pub index: usize,
    pub start_h: N,
    pub end_h: N,
}

impl<N: Scalar> Interval<N> {
    pub open spec fn length(self) -> N {
        self.end_h.minus(self.start_h)
    }

    pub open spec fn calendar_day(self) -> u32 {
        self.start_h.over(N::of_whole(24)).floored()
    }

    /// How long the interval is, in hours.
    pub fn duration_h(self) -> (r: N)
        ensures
            r == self.length(),
    {
        self.end_h.sub(self.start_h)
    }

    /// The day the interval starts in.
    pub fn day(self) -> (r: u32)
        ensures
            r == self.calendar_day(),
    {
        self.start_h.div(N::whole(24)).floor()
    }
}

/// What a refused input is about.
#[derive(Clone, Copy, Debug, PartialEq, Eq, Structural)]
pub enum InputField {
    Horizon,
    IntervalStep,
    ParcelTarget,
    CashflowSum,
    Material,
    Loader,
    Task,
    Ground,
    Stockpile,
    Destination,
    Truck,
    GroundTonnes,
    StockpileCapacity,
    OpeningLot,
    OpeningInventory,
    LoaderRate,
    TaskLoader,
    DigSource,
    ReclaimSource,
    ReclaimMaximum,
    DestinationCapacity,
    DestinationStockpile,
    CrusherLimit,
    Movement,
    MovementSource,
    TruckCoefficient,
}

impl InputField {
    /// The field's name in words.
    pub open spec fn words(self) -> Seq<char> {
        match self {
            InputField::Horizon => "horizon"@,
            InputField::IntervalStep => "interval step"@,
            InputField::ParcelTarget => "parcel target"@,
            InputField::CashflowSum => "cashflow sum"@,
            InputField::Material => "material"@,
            InputField::Loader => "loader"@,
            InputField::Task => "task"@,
            InputField::Ground => "ground"@,
            InputField::Stockpile => "stockpile"@,
            InputField::Destination => "destination"@,
            InputField::Truck => "truck"@,
            InputField::GroundTonnes => "ground tonnes"@,
            InputField::StockpileCapacity => "stockpile capacity"@,
            InputField::OpeningLot => "opening lot"@,
            InputField::OpeningInventory => "opening inventory exceeds capacity"@,
            InputField::LoaderRate => "loader rate"@,
            InputField::TaskLoader => "task loader"@,
            InputField::DigSource => "dig source"@,
            InputField::ReclaimSource => "reclaim source"@,
            InputField::ReclaimMaximum => "reclaim maximum"@,
            InputField::DestinationCapacity => "destination capacity"@,
            InputField::DestinationStockpile => "destination stockpile"@,
            InputField::CrusherLimit => "crusher limit"@,
            InputField::Movement => "movement"@,
            InputField::MovementSource => "movement source"@,
            InputField::TruckCoefficient => "truck coefficient"@,
        }
    }

    pub fn label(self) -> (r: &'static str)
        ensures
            r@ == self.words(),
    {
        match self {
            InputField::Horizon => "horizon",
            InputField::IntervalStep => "interval step",
            InputField::ParcelTarget => "parcel target",
            InputField::CashflowSum => "cashflow sum",
            InputField::Material => "material",
            InputField::Loader => "loader",
            InputField::Task => "task",
            InputField::Ground => "ground",
            InputField::Stockpile => "stockpile",
            InputField::Destination => "destination",
            InputField::Truck => "truck",
            InputField::GroundTonnes => "ground tonnes",
            InputField::StockpileCapacity => "stockpile capacity",
            InputField::OpeningLot => "opening lot",
            InputField::OpeningInventory => "opening inventory exceeds capacity",
            InputField::LoaderRate => "loader rate",
            InputField::TaskLoader => "task loader",
            InputField::DigSource => "dig source",
            InputField::ReclaimSource => "reclaim source",
            InputField::ReclaimMaximum => "reclaim maximum",
            InputField::DestinationCapacity => "destination capacity",
            InputField::DestinationStockpile => "destination stockpile",
            InputField::CrusherLimit => "crusher limit",
            InputField::Movement => "movement",
            InputField::MovementSource => "movement source",
            InputField::TruckCoefficient => "truck coefficient",
        }
    }
}

/// Why an input is refused.
#[derive(Clone, Copy, Debug, PartialEq, Eq, Structural)]
pub enum InputError {
    NonFinite(InputField),
    NonPositive(InputField),
    DuplicateId(InputField),
    MissingReference(InputField),
    InvalidWindow,
    InvalidComposition,
    InvalidIntervals,
    NoRoute { task: TaskId, material: MaterialId },
    UnboundedInput(InputField),
}

#[derive(Clone, Debug)]
pub struct Material {
    pub id: MaterialId,
    pub label: String,
}

/// The part of a source that is one material.
#[derive(Clone, Copy, Debug)]
pub struct MaterialShare<N> {
    pub material: MaterialId,
    pub fraction: N,
}

#[derive(Clone, Debug)]
pub struct GroundSource<N> {
    pub id: GroundId,
    pub tonnes_t: N,
    pub material: Vec<MaterialShare<N>>,
}

/// What a stockpile holds at the start, oldest first.
#[derive(Clone, Debug)]
pub struct OpeningLot<N> {
    pub id: LotId,
    pub tonnes_t: N,
    pub material: Vec<MaterialShare<N>>,
}

#[derive(Clone, Debug)]
pub struct Stockpile<N> {
    pub id: StockpileId,
    pub capacity_t: N,
    pub opening: Vec<OpeningLot<N>>,
    pub order: ReclaimOrder,
}

#[derive(Clone, Debug)]
pub struct Destination<N> {
    pub id: DestinationId,
    pub kind: DestinationKind,
    pub capacity_t: Option<N>,
    /// What a crusher takes in each day; `None` for no limit.
    pub crusher_daily_t: Vec<Option<N>>,
}

/// What a loader can move in an interval, in tonnes per hour.
#[derive(Clone, Copy, Debug)]
pub struct IntervalRate<N> {
    pub interval: usize,
    pub dig_tph: N,
    pub reclaim_tph: N,
}

#[derive(Clone, Debug)]
pub struct Loader<N> {
    pub id: LoaderId,
    pub rates: Vec<IntervalRate<N>>,
}

#[derive(Clone, Debug)]
pub enum TaskKind<N> {
    Dig { sequence: Vec<GroundId> },
    Reclaim { approved_sources: Vec<StockpileId>, maximum_t: Option<N> },
}

#[derive(Clone, Debug)]
pub struct Task<N> {
    pub id: TaskId,
    pub loader: LoaderId,
    pub priority: u32,
    pub window_start_h: N,
    pub window_end_h: N,
    pub kind: TaskKind<N>,
}

/// A truck class with the hours it has in each interval.
#[derive(Clone, Debug)]
pub struct TruckClass<N> {
    pub id: TruckClassId,
    pub hours: Vec<N>,
}

#[derive(Clone, Copy, Debug)]
pub struct CashflowContribution<N> {
    pub rule: CashflowRuleId,
    pub value_per_tonne: N,
}

/// A movement that may be made.
#[derive(Clone, Debug)]
pub struct MovementCandidate<N> {
    pub loader: LoaderId,
    pub activity: Activity,
    pub source: SourceId,
    pub material: MaterialId,
    pub destination: DestinationId,
    pub truck: TruckClassId,
    pub truck_hours_per_tonne: N,
    pub routing_rule: RoutingRuleId,
    pub routing_preference: u32,
    pub cashflow: Vec<CashflowContribution<N>>,
}

#[derive(Clone, Debug)]
pub struct OptimisationInput<N> {
    pub horizon: HorizonSpec<N>,
    pub intervals: Vec<Interval<N>>,
    pub materials: Vec<Material>,
    pub loaders: Vec<Loader<N>>,
    pub tasks: Vec<Task<N>>,
    pub ground: Vec<GroundSource<N>>,
    pub stockpiles: Vec<Stockpile<N>>,
    pub destinations: Vec<Destination<N>>,
    pub trucks: Vec<TruckClass<N>>,
    pub movements: Vec<MovementCandidate<N>>,
}

impl Keyed for Material {
    open spec fn key_of(&self) -> u32 {
        self.id.0
    }

    fn key(&self) -> (r: u32) {
        self.id.0
    }
}

impl<N> Keyed for MaterialShare<N> {
    open spec fn key_of(&self) -> u32 {
        self.material.0
    }

    fn key(&self) -> (r: u32) {
        self.material.0
    }
}

impl<N> Keyed for GroundSource<N> {
    open spec fn key_of(&self) -> u32 {
        self.id.0
    }

    fn key(&self) -> (r: u32) {
        self.id.0
    }
}

impl<N> Keyed for OpeningLot<N> {
    open spec fn key_of(&self) -> u32 {
        self.id.0
    }

    fn key(&self) -> (r: u32) {
        self.id.0
    }
}

impl<N> Keyed for Stockpile<N> {
    open spec fn key_of(&self) -> u32 {
        self.id.0
    }

    fn key(&self) -> (r: u32) {
        self.id.0
    }
}

impl<N> Keyed for Destination<N> {
    open spec fn key_of(&self) -> u32 {
        self.id.0
    }

    fn key(&self) -> (r: u32) {
        self.id.0
    }
}

impl<N> Keyed for Loader<N> {
    open spec fn key_of(&self) -> u32 {
        self.id.0
    }

    fn key(&self) -> (r: u32) {
        self.id.0
    }
}

impl<N> Keyed for Task<N> {
    open spec fn key_of(&self) -> u32 {
        self.id.0
    }

    fn key(&self) -> (r: u32) {
        self.id.0
    }
}

impl<N> Keyed for TruckClass<N> {
    open spec fn key_of(&self) -> u32 {
        self.id.0
    }

    fn key(&self) -> (r: u32) {
        self.id.0
    }
}

/// Finite and above zero.
pub open spec fn positive<N: Scalar>(v: N) -> bool {
    v.finite() && !v.at_most(N::of_whole(0))
}

/// Finite and not below zero.
pub open spec fn not_negative<N: Scalar>(v: N) -> bool {
    v.finite() && !v.below(N::of_whole(0))
}

pub fn is_positive<N: Scalar>(v: N) -> (r: bool)
    ensures
        r == positive(v),
{
    v.is_finite() && !v.is_at_most(N::whole(0))
}

pub fn is_not_negative<N: Scalar>(v: N) -> (r: bool)
    ensures
        r == not_negative(v),
{
    v.is_finite() && !v.is_below(N::whole(0))
}

/// The first error of two checks made one after the other.
pub open spec fn earlier(first: Option<InputError>, second: Option<InputError>) -> Option<InputError> {
    if first is Some {
        first
    } else {
        second
    }
}

/// What is wrong with one share of a composition.
pub open spec fn share_check<N: Scalar>(shares: Seq<MaterialShare<N>>, materials: Seq<Material>) -> spec_fn(int) -> Option<
    InputError,
> {
    |i: int|
        if !has_key(materials, shares[i].material.0) {
            Some(InputError::MissingReference(InputField::Material))
        } else if !positive(shares[i].fraction) {
            Some(InputError::InvalidComposition)
        } else {
            None
        }
}

pub open spec fn share_fraction<N: Scalar>(shares: Seq<MaterialShare<N>>) -> spec_fn(int) -> Option<N> {
    |i: int| Some(shares[i].fraction)
}

/// What is wrong with a composition: every material once, each part above
/// zero, and the parts adding up to one.
pub open spec fn shares_error<N: Scalar>(
    shares: Seq<MaterialShare<N>>,
    materials: Seq<Material>,
    tolerance: N,
) -> Option<InputError> {
    let total = sum_to(shares.len(), share_fraction(shares));
    if shares.len() == 0 || !unique_keys(shares) {
        Some(InputError::InvalidComposition)
    } else {
        earlier(
            first_from(0, shares.len() as int, share_check(shares, materials)),
            if !total.finite() || tolerance.below(total.minus(N::of_whole(1)).magnitude()) {
                Some(InputError::InvalidComposition)
            } else {
                None
            },
        )
    }
}

/// Checks a composition.
pub fn validate_shares<N: Scalar>(
    shares: &Vec<MaterialShare<N>>,
    materials: &Vec<Material>,
    tolerance: N,
) -> (r: Result<(), InputError>)
    ensures
        r == (match shares_error(shares@, materials@, tolerance) {
            Some(error) => Err(error),
            None => Ok(()),
        }),
{
    if shares.len() == 0 || !unique(shares) {
        return Err(InputError::InvalidComposition);
    }
    let mut total = N::whole(0);
    for i in 0..shares.len()
        invariant
            total == sum_to(i as nat, share_fraction(shares@)),
            first_from(0, shares@.len() as int, share_check(shares@, materials@)) == first_from(
                i as int,
                shares@.len() as int,
                share_check(shares@, materials@),
            ),
            shares@.len() > 0,
            unique_keys(shares@),
    {
        if !contains_key(materials, shares[i].material.0) {
            return Err(InputError::MissingReference(InputField::Material));
        }
        if !is_positive(shares[i].fraction) {
            return Err(InputError::InvalidComposition);
        }
        total = total.add(shares[i].fraction);
    }
    if !total.is_finite() || tolerance.is_below(total.sub(N::whole(1)).abs()) {
        return Err(InputError::InvalidComposition);
    }
    Ok(())
}

/// The value per tonne summed up to the `n`th contribution, while it stays finite.
pub open spec fn value_to<N: Scalar>(cashflow: Seq<CashflowContribution<N>>, n: nat) -> Option<N>
    decreases n,
{
    if n == 0 {
        Some(N::of_whole(0))
    } else {
        match value_to(cashflow, (n - 1) as nat) {
            Some(sum) => {
                let next = sum.plus(cashflow[n - 1].value_per_tonne);
                if next.finite() {
                    Some(next)
                } else {
                    None
                }
            },
            None => None,
        }
    }
}

proof fn value_stays_lost<N: Scalar>(cashflow: Seq<CashflowContribution<N>>, n: nat, m: nat)
    requires
        n <= m,
        value_to(cashflow, n) is None,
    ensures
        value_to(cashflow, m) is None,
    decreases m,
{
    if n < m {
        value_stays_lost(cashflow, n, (m - 1) as nat);
    }
}

impl<N: Scalar> MovementCandidate<N> {
    /// What a tonne of the movement is worth: every contribution added up, or
    /// an error where a partial sum leaves the finite range.
    pub fn value_per_tonne(&self) -> (r: Result<N, InputError>)
        ensures
            r == (match value_to(self.cashflow@, self.cashflow@.len()) {
                Some(value) => Ok(value),
                None => Err(InputError::NonFinite(InputField::CashflowSum)),
            }),
    {
        let mut sum = N::whole(0);
        for i in 0..self.cashflow.len()
            invariant
                value_to(self.cashflow@, i as nat) == Some(sum),
        {
            let next = sum.add(self.cashflow[i].value_per_tonne);
            if !next.is_finite() {
                proof {
                    value_stays_lost(self.cashflow@, (i + 1) as nat, self.cashflow@.len());
                }
                return Err(InputError::NonFinite(InputField::CashflowSum));
            }
            sum = next;
        }
        Ok(sum)
    }
}

impl<N: Scalar> OptimisationInput<N> {
    /// Where interval `i` has to start.
    pub open spec fn expected_start(self, i: int) -> N {
        if i == 0 {
            N::of_whole(0)
        } else {
            self.intervals@[i - 1].end_h
        }
    }

    pub open spec fn interval_check(self) -> spec_fn(int) -> Option<InputError> {
        |i: int|
            {
                let interval = self.intervals@[i];
                if interval.index != i || N::of_decimal(1, 9).below(
                    interval.start_h.minus(self.expected_start(i)).magnitude(),
                ) || interval.end_h.at_most(interval.start_h) || !interval.end_h.finite() {
                    Some(InputError::InvalidIntervals)
                } else {
                    None
                }
            }
    }

    /// What is wrong with the intervals: they follow one another from zero to
    /// the end of the horizon, numbered in order.
    pub open spec fn intervals_error(self) -> Option<InputError> {
        let n = self.intervals@.len();
        if n == 0 {
            Some(InputError::InvalidIntervals)
        } else {
            earlier(
                first_from(0, n as int, self.interval_check()),
                if N::of_decimal(1, 9).below(self.expected_start(n as int).minus(self.horizon.end_h).magnitude()) {
                    Some(InputError::InvalidIntervals)
                } else {
                    None
                },
            )
        }
    }

    /// The first kind of part, in a fixed order, with an id used twice.
    pub open spec fn duplicate_error(self) -> Option<InputError> {
        if !unique_keys(self.materials@) {
            Some(InputError::DuplicateId(InputField::Material))
        } else if !unique_keys(self.loaders@) {
            Some(InputError::DuplicateId(InputField::Loader))
        } else if !unique_keys(self.tasks@) {
            Some(InputError::DuplicateId(InputField::Task))
        } else if !unique_keys(self.ground@) {
            Some(InputError::DuplicateId(InputField::Ground))
        } else if !unique_keys(self.stockpiles@) {
            Some(InputError::DuplicateId(InputField::Stockpile))
        } else if !unique_keys(self.destinations@) {
            Some(InputError::DuplicateId(InputField::Destination))
        } else if !unique_keys(self.trucks@) {
            Some(InputError::DuplicateId(InputField::Truck))
        } else {
            None
        }
    }

    pub open spec fn ground_check(self) -> spec_fn(int) -> Option<InputError> {
        |i: int|
            if !positive(self.ground@[i].tonnes_t) {
                Some(InputError::NonPositive(InputField::GroundTonnes))
            } else {
                shares_error(self.ground@[i].material@, self.materials@, self.horizon.tolerances.tonnes_t)
            }
    }

    pub open spec fn lot_check(self, lots: Seq<OpeningLot<N>>) -> spec_fn(int) -> Option<InputError> {
        |i: int|
            if !positive(lots[i].tonnes_t) {
                Some(InputError::NonPositive(InputField::OpeningLot))
            } else {
                shares_error(lots[i].material@, self.materials@, self.horizon.tolerances.tonnes_t)
            }
    }

    pub open spec fn pile_error(self, pile: Stockpile<N>) -> Option<InputError> {
        let lots = pile.opening@;
        if !not_negative(pile.capacity_t) {
            Some(InputError::NonFinite(InputField::StockpileCapacity))
        } else if !unique_keys(lots) {
            Some(InputError::DuplicateId(InputField::OpeningLot))
        } else {
            earlier(
                first_from(0, lots.len() as int, self.lot_check(lots)),
                if pile.capacity_t.plus(self.horizon.tolerances.tonnes_t).below(opening_total(lots)) {
                    Some(InputError::UnboundedInput(InputField::OpeningInventory))
                } else {
                    None
                },
            )
        }
    }

    pub open spec fn pile_check(self) -> spec_fn(int) -> Option<InputError> {
        |i: int| self.pile_error(self.stockpiles@[i])
    }

    pub open spec fn loader_error(self, loader: Loader<N>) -> Option<InputError> {
        if loader.rates@.len() != self.intervals@.len() {
            Some(InputError::InvalidIntervals)
        } else {
            first_from(0, loader.rates@.len() as int, rate_check(loader.rates@))
        }
    }

    pub open spec fn loader_check(self) -> spec_fn(int) -> Option<InputError> {
        |i: int| self.loader_error(self.loaders@[i])
    }

    pub open spec fn task_error(self, task: Task<N>) -> Option<InputError> {
        if !has_key(self.loaders@, task.loader.0) {
            Some(InputError::MissingReference(InputField::TaskLoader))
        } else if !not_negative(task.window_start_h) || !task.window_end_h.finite() || task.window_end_h.at_most(
            task.window_start_h,
        ) {
            Some(InputError::InvalidWindow)
        } else {
            match task.kind {
                TaskKind::Dig { sequence } => if sequence@.len() == 0 || !all_ground(sequence@, self.ground@) {
                    Some(InputError::MissingReference(InputField::DigSource))
                } else {
                    None
                },
                TaskKind::Reclaim { approved_sources, maximum_t } => if approved_sources@.len() == 0 || !all_piles(
                    approved_sources@,
                    self.stockpiles@,
                ) {
                    Some(InputError::MissingReference(InputField::ReclaimSource))
                } else if maximum_t is Some && !positive(maximum_t->0) {
                    Some(InputError::NonPositive(InputField::ReclaimMaximum))
                } else {
                    None
                },
            }
        }
    }

    pub open spec fn task_check(self) -> spec_fn(int) -> Option<InputError> {
        |i: int| self.task_error(self.tasks@[i])
    }

    pub open spec fn destination_error(self, destination: Destination<N>) -> Option<InputError> {
        if destination.capacity_t is Some && !not_negative(destination.capacity_t->0) {
            Some(InputError::NonFinite(InputField::DestinationCapacity))
        } else if destination.kind is Stockpile && (!has_key(self.stockpiles@, destination.kind->Stockpile_0.0)
            || destination.capacity_t is None) {
            Some(InputError::MissingReference(InputField::DestinationStockpile))
        } else if exists|day: int|
            0 <= day < destination.crusher_daily_t@.len() && (#[trigger] destination.crusher_daily_t@[day]) is Some
                && !not_negative(destination.crusher_daily_t@[day]->0) {
            Some(InputError::NonFinite(InputField::CrusherLimit))
        } else {
            None
        }
    }

    pub open spec fn destination_check(self) -> spec_fn(int) -> Option<InputError> {
        |i: int| self.destination_error(self.destinations@[i])
    }

    pub open spec fn truck_check(self) -> spec_fn(int) -> Option<InputError> {
        |i: int|
            {
                let hours = self.trucks@[i].hours@;
                if hours.len() != self.intervals@.len() || !(forall|k: int|
                    0 <= k < hours.len() ==> not_negative(#[trigger] hours[k])) {
                    Some(InputError::InvalidIntervals)
                } else {
                    None
                }
            }
    }

    pub open spec fn movement_error(self, movement: MovementCandidate<N>) -> Option<InputError> {
        if !has_key(self.loaders@, movement.loader.0) || !has_key(self.materials@, movement.material.0) || !has_key(
            self.destinations@,
            movement.destination.0,
        ) || !has_key(self.trucks@, movement.truck.0) {
            Some(InputError::MissingReference(InputField::Movement))
        } else if !self.source_known(movement.source) {
            Some(InputError::MissingReference(InputField::MovementSource))
        } else if !positive(movement.truck_hours_per_tonne) {
            Some(InputError::NonPositive(InputField::TruckCoefficient))
        } else if value_to(movement.cashflow@, movement.cashflow@.len()) is None {
            Some(InputError::NonFinite(InputField::CashflowSum))
        } else {
            None
        }
    }

    pub open spec fn source_known(self, source: SourceId) -> bool {
        match source {
            SourceId::Ground(id) => has_key(self.ground@, id.0),
            SourceId::Stockpile(id) => has_key(self.stockpiles@, id.0),
        }
    }

    pub open spec fn movement_check(self) -> spec_fn(int) -> Option<InputError> {
        |i: int| self.movement_error(self.movements@[i])
    }

    /// The first thing wrong with the input, or `None` for one fit to be solved.
    pub open spec fn error(self) -> Option<InputError> {
        earlier(
            self.intervals_error(),
            earlier(
                self.duplicate_error(),
                earlier(
                    first_from(0, self.ground@.len() as int, self.ground_check()),
                    earlier(
                        first_from(0, self.stockpiles@.len() as int, self.pile_check()),
                        earlier(
                            first_from(0, self.loaders@.len() as int, self.loader_check()),
                            earlier(
                                first_from(0, self.tasks@.len() as int, self.task_check()),
                                earlier(
                                    first_from(0, self.destinations@.len() as int, self.destination_check()),
                                    earlier(
                                        first_from(0, self.trucks@.len() as int, self.truck_check()),
                                        first_from(0, self.movements@.len() as int, self.movement_check()),
                                    ),
                                ),
                            ),
                        ),
                    ),
                ),
            ),
        )
    }

    fn find_interval_error(&self) -> (r: Option<InputError>)
        ensures
            r == self.intervals_error(),
    {
        if self.intervals.len() == 0 {
            return Some(InputError::InvalidIntervals);
        }
        let mut expected = N::whole(0);
        for i in 0..self.intervals.len()
            invariant
                self.intervals@.len() > 0,
                expected == self.expected_start(i as int),
                first_from(0, self.intervals@.len() as int, self.interval_check()) == first_from(
                    i as int,
                    self.intervals@.len() as int,
                    self.interval_check(),
                ),
        {
            let interval = self.intervals[i];
            if interval.index != i || N::decimal(1, 9).is_below(interval.start_h.sub(expected).abs())
                || interval.end_h.is_at_most(interval.start_h) || !interval.end_h.is_finite() {
                return Some(InputError::InvalidIntervals);
            }
            expected = interval.end_h;
        }
        if N::decimal(1, 9).is_below(expected.sub(self.horizon.end_h).abs()) {
            return Some(InputError::InvalidIntervals);
        }
        None
    }

    fn find_duplicate(&self) -> (r: Option<InputError>)
        ensures
            r == self.duplicate_error(),
    {
        if !unique(&self.materials) {
            Some(InputError::DuplicateId(InputField::Material))
        } else if !unique(&self.loaders) {
            Some(InputError::DuplicateId(InputField::Loader))
        } else if !unique(&self.tasks) {
            Some(InputError::DuplicateId(InputField::Task))
        } else if !unique(&self.ground) {
            Some(InputError::DuplicateId(InputField::Ground))
        } else if !unique(&self.stockpiles) {
            Some(InputError::DuplicateId(InputField::Stockpile))
        } else if !unique(&self.destinations) {
            Some(InputError::DuplicateId(InputField::Destination))
        } else if !unique(&self.trucks) {
            Some(InputError::DuplicateId(InputField::Truck))
        } else {
            None
        }
    }

    fn find_ground_error(&self) -> (r: Option<InputError>)
        ensures
            r == first_from(0, self.ground@.len() as int, self.ground_check()),
    {
        for i in 0..self.ground.len()
            invariant
                first_from(0, self.ground@.len() as int, self.ground_check()) == first_from(
                    i as int,
                    self.ground@.len() as int,
                    self.ground_check(),
                ),
        {
            if !is_positive(self.ground[i].tonnes_t) {
                return Some(InputError::NonPositive(InputField::GroundTonnes));
            }
            match validate_shares(&self.ground[i].material, &self.materials, self.horizon.tolerances.tonnes_t) {
                Ok(_) => {},
                Err(error) => {
                    return Some(error);
                },
            }
        }
        None
    }

    fn find_lot_error(&self, pile: &Stockpile<N>) -> (r: Option<InputError>)
        ensures
            r == self.pile_error(*pile),
    {
        if !is_not_negative(pile.capacity_t) {
            return Some(InputError::NonFinite(InputField::StockpileCapacity));
        }
        if !unique(&pile.opening) {
            return Some(InputError::DuplicateId(InputField::OpeningLot));
        }
        let ghost lots = pile.opening@;
        let mut total = N::whole(0);
        for i in 0..pile.opening.len()
            invariant
                not_negative(pile.capacity_t),
                unique_keys(lots),
                lots == pile.opening@,
                total == sum_to(i as nat, lot_tonnes(lots)),
                first_from(0, lots.len() as int, self.lot_check(lots)) == first_from(
                    i as int,
                    lots.len() as int,
                    self.lot_check(lots),
                ),
        {
            if !is_positive(pile.opening[i].tonnes_t) {
                return Some(InputError::NonPositive(InputField::OpeningLot));
            }
            match validate_shares(&pile.opening[i].material, &self.materials, self.horizon.tolerances.tonnes_t) {
                Ok(_) => {},
                Err(error) => {
                    return Some(error);
                },
            }
            total = total.add(pile.opening[i].tonnes_t);
        }
        if pile.capacity_t.add(self.horizon.tolerances.tonnes_t).is_below(total) {
            return Some(InputError::UnboundedInput(InputField::OpeningInventory));
        }
        None
    }

    fn find_pile_error(&self) -> (r: Option<InputError>)
        ensures
            r == first_from(0, self.stockpiles@.len() as int, self.pile_check()),
    {
        for i in 0..self.stockpiles.len()
            invariant
                first_from(0, self.stockpiles@.len() as int, self.pile_check()) == first_from(
                    i as int,
                    self.stockpiles@.len() as int,
                    self.pile_check(),
                ),
        {
            let found = self.find_lot_error(&self.stockpiles[i]);
            if found.is_some() {
                return found;
            }
        }
        None
    }

    fn find_rate_error(&self, loader: &Loader<N>) -> (r: Option<InputError>)
        ensures
            r == self.loader_error(*loader),
    {
        if loader.rates.len() != self.intervals.len() {
            return Some(InputError::InvalidIntervals);
        }
        for i in 0..loader.rates.len()
            invariant
                loader.rates@.len() == self.intervals@.len(),
                first_from(0, loader.rates@.len() as int, rate_check(loader.rates@)) == first_from(
                    i as int,
                    loader.rates@.len() as int,
                    rate_check(loader.rates@),
                ),
        {
            let rate = loader.rates[i];
            if rate.interval != i || !is_not_negative(rate.dig_tph) || !is_not_negative(rate.reclaim_tph) {
                return Some(InputError::NonFinite(InputField::LoaderRate));
            }
        }
        None
    }

    fn find_loader_error(&self) -> (r: Option<InputError>)
        ensures
            r == first_from(0, self.loaders@.len() as int, self.loader_check()),
    {
        for i in 0..self.loaders.len()
            invariant
                first_from(0, self.loaders@.len() as int, self.loader_check()) == first_from(
                    i as int,
                    self.loaders@.len() as int,
                    self.loader_check(),
                ),
        {
            let found = self.find_rate_error(&self.loaders[i]);
            if found.is_some() {
                return found;
            }
        }
        None
    }

    fn find_window_error(&self, task: &Task<N>) -> (r: Option<InputError>)
        ensures
            r == self.task_error(*task),
    {
        if !contains_key(&self.loaders, task.loader.0) {
            return Some(InputError::MissingReference(InputField::TaskLoader));
        }
        if !is_not_negative(task.window_start_h) || !task.window_end_h.is_finite() || task.window_end_h.is_at_most(
            task.window_start_h,
        ) {
            return Some(InputError::InvalidWindow);
        }
        match &task.kind {
            TaskKind::Dig { sequence } => if sequence.len() == 0 || !ground_known(sequence, &self.ground) {
                Some(InputError::MissingReference(InputField::DigSource))
            } else {
                None
            },
            TaskKind::Reclaim { approved_sources, maximum_t } => {
                if approved_sources.len() == 0 || !piles_known(approved_sources, &self.stockpiles) {
                    return Some(InputError::MissingReference(InputField::ReclaimSource));
                }
                match maximum_t {
                    Some(value) => if !is_positive(*value) {
                        Some(InputError::NonPositive(InputField::ReclaimMaximum))
                    } else {
                        None
                    },
                    None => None,
                }
            },
        }
    }

    fn find_task_error(&self) -> (r: Option<InputError>)
        ensures
            r == first_from(0, self.tasks@.len() as int, self.task_check()),
    {
        for i in 0..self.tasks.len()
            invariant
                first_from(0, self.tasks@.len() as int, self.task_check()) == first_from(
                    i as int,
                    self.tasks@.len() as int,
                    self.task_check(),
                ),
        {
            let found = self.find_window_error(&self.tasks[i]);
            if found.is_some() {
                return found;
            }
        }
        None
    }

    fn find_receiving_error(&self, destination: &Destination<N>) -> (r: Option<InputError>)
        ensures
            r == self.destination_error(*destination),
    {
        if let Some(value) = destination.capacity_t {
            if !is_not_negative(value) {
                return Some(InputError::NonFinite(InputField::DestinationCapacity));
            }
        }
        if let DestinationKind::Stockpile(id) = destination.kind {
            if !contains_key(&self.stockpiles, id.0) || destination.capacity_t.is_none() {
                return Some(InputError::MissingReference(InputField::DestinationStockpile));
            }
        }
        let ghost settled = earlier(self.destination_error(*destination), None);
        for day in 0..destination.crusher_daily_t.len()
            invariant
                !(destination.capacity_t is Some && !not_negative(destination.capacity_t->0)),
                !(destination.kind is Stockpile && (!has_key(self.stockpiles@, destination.kind->Stockpile_0.0)
                    || destination.capacity_t is None)),
                forall|d: int|
                    0 <= d < day ==> !((#[trigger] destination.crusher_daily_t@[d]) is Some && !not_negative(
                        destination.crusher_daily_t@[d]->0,
                    )),
        {
            if let Some(value) = destination.crusher_daily_t[day] {
                if !is_not_negative(value) {
                    assert(destination.crusher_daily_t@[day as int] is Some);
                    return Some(InputError::NonFinite(InputField::CrusherLimit));
                }
            }
        }
        None
    }

    fn find_destination_error(&self) -> (r: Option<InputError>)
        ensures
            r == first_from(0, self.destinations@.len() as int, self.destination_check()),
    {
        for i in 0..self.destinations.len()
            invariant
                first_from(0, self.destinations@.len() as int, self.destination_check()) == first_from(
                    i as int,
                    self.destinations@.len() as int,
                    self.destination_check(),
                ),
        {
            let found = self.find_receiving_error(&self.destinations[i]);
            if found.is_some() {
                return found;
            }
        }
        None
    }

    fn find_truck_error(&self) -> (r: Option<InputError>)
        ensures
            r == first_from(0, self.trucks@.len() as int, self.truck_check()),
    {
        for i in 0..self.trucks.len()
            invariant
                first_from(0, self.trucks@.len() as int, self.truck_check()) == first_from(
                    i as int,
                    self.trucks@.len() as int,
                    self.truck_check(),
                ),
        {
            let truck = &self.trucks[i];
            if truck.hours.len() != self.intervals.len() || !none_negative(&truck.hours) {
                return Some(InputError::InvalidIntervals);
            }
        }
        None
    }

    fn find_route_error(&self, movement: &MovementCandidate<N>) -> (r: Option<InputError>)
        ensures
            r == self.movement_error(*movement),
    {
        if !contains_key(&self.loaders, movement.loader.0) || !contains_key(&self.materials, movement.material.0)
            || !contains_key(&self.destinations, movement.destination.0) || !contains_key(
            &self.trucks,
            movement.truck.0,
        ) {
            return Some(InputError::MissingReference(InputField::Movement));
        }
        let known: bool = match movement.source {
            SourceId::Ground(id) => contains_key(&self.ground, id.0),
            SourceId::Stockpile(id) => contains_key(&self.stockpiles, id.0),
        };
        if !known {
            return Some(InputError::MissingReference(InputField::MovementSource));
        }
        if !is_positive(movement.truck_hours_per_tonne) {
            return Some(InputError::NonPositive(InputField::TruckCoefficient));
        }
        match movement.value_per_tonne() {
            Ok(_) => None,
            Err(error) => Some(error),
        }
    }

    fn find_movement_error(&self) -> (r: Option<InputError>)
        ensures
            r == first_from(0, self.movements@.len() as int, self.movement_check()),
    {
        for i in 0..self.movements.len()
            invariant
                first_from(0, self.movements@.len() as int, self.movement_check()) == first_from(
                    i as int,
                    self.movements@.len() as int,
                    self.movement_check(),
                ),
        {
            let found = self.find_route_error(&self.movements[i]);
            if found.is_some() {
                return found;
            }
        }
        None
    }

    /// Whether the input can be solved: the first thing wrong with it, where
    /// anything is.
    pub fn validate(&self) -> (r: Result<(), InputError>)
        ensures
            r == (match self.error() {
                Some(error) => Err(error),
                None => Ok(()),
            }),
    {
        if let Some(error) = self.find_interval_error() {
            return Err(error);
        }
        if let Some(error) = self.find_duplicate() {
            return Err(error);
        }
        if let Some(error) = self.find_ground_error() {
            return Err(error);
        }
        if let Some(error) = self.find_pile_error() {
            return Err(error);
        }
        if let Some(error) = self.find_loader_error() {
            return Err(error);
        }
        if let Some(error) = self.find_task_error() {
            return Err(error);
        }
        if let Some(error) = self.find_destination_error() {
            return Err(error);
        }
        if let Some(error) = self.find_truck_error() {
            return Err(error);
        }
        if let Some(error) = self.find_movement_error() {
            return Err(error);
        }
        Ok(())
    }
}

pub open spec fn lot_tonnes<N: Scalar>(lots: Seq<OpeningLot<N>>) -> spec_fn(int) -> Option<N> {
    |i: int| Some(lots[i].tonnes_t)
}

/// What a stockpile holds at the start.
pub open spec fn opening_total<N: Scalar>(lots: Seq<OpeningLot<N>>) -> N {
    sum_to(lots.len(), lot_tonnes(lots))
}

/// Adds up what a stockpile holds at the start.
pub fn total_opening<N: Scalar>(lots: &Vec<OpeningLot<N>>) -> (r: N)
    ensures
        r == opening_total(lots@),
{
    let mut total = N::whole(0);
    for i in 0..lots.len()
        invariant
            total == sum_to(i as nat, lot_tonnes(lots@)),
    {
        total = total.add(lots[i].tonnes_t);
    }
    total
}

pub open spec fn rate_check<N: Scalar>(rates: Seq<IntervalRate<N>>) -> spec_fn(int) -> Option<InputError> {
    |i: int|
        if rates[i].interval != i || !not_negative(rates[i].dig_tph) || !not_negative(rates[i].reclaim_tph) {
            Some(InputError::NonFinite(InputField::LoaderRate))
        } else {
            None
        }
}

/// How far a window may fall short of an interval and still cover it, in hours.
pub open spec fn window_slack<N: Scalar>() -> N {
    N::of_decimal(1, 9)
}

/// Whether a task's window covers an interval.
pub open spec fn in_window<N: Scalar>(task: Task<N>, interval: Interval<N>) -> bool {
    task.window_start_h.at_most(interval.start_h.plus(window_slack())) && interval.end_h.minus(window_slack()).at_most(
        task.window_end_h,
    )
}

/// Whether a task's window covers an interval.
pub fn task_active<N: Scalar>(task: &Task<N>, interval: Interval<N>) -> (r: bool)
    ensures
        r == in_window(*task, interval),
{
    let slack = N::decimal(1, 9);
    task.window_start_h.is_at_most(interval.start_h.add(slack)) && interval.end_h.sub(slack).is_at_most(
        task.window_end_h,
    )
}

/// Whether a destination takes anything in an interval: a crusher whose day is
/// not closed, or a place with room of its own.
pub open spec fn receives<N: Scalar>(destination: Destination<N>, day: u32) -> bool {
    match destination.kind {
        DestinationKind::Crusher => match daily_limit(destination, day) {
            Some(limit) => N::of_whole(0).below(limit),
            None => true,
        },
        _ => match destination.capacity_t {
            Some(capacity) => N::of_whole(0).below(capacity),
            None => true,
        },
    }
}

/// What a crusher takes on a day, where that is limited.
pub open spec fn daily_limit<N: Scalar>(destination: Destination<N>, day: u32) -> Option<N> {
    if day < destination.crusher_daily_t@.len() {
        destination.crusher_daily_t@[day as int]
    } else {
        None
    }
}

/// What a crusher takes on a day, where that is limited.
pub fn limit_on<N: Scalar>(destination: &Destination<N>, day: u32) -> (r: Option<N>)
    ensures
        r == daily_limit(*destination, day),
{
    if (day as usize) < destination.crusher_daily_t.len() {
        destination.crusher_daily_t[day as usize]
    } else {
        None
    }
}

/// Whether the destination of a candidate takes anything in an interval.
pub open spec fn receiving<N: Scalar>(input: OptimisationInput<N>, candidate: MovementCandidate<N>, interval: int) -> bool {
    match keyed(input.destinations@, candidate.destination.0) {
        Some(d) => receives(input.destinations@[d], input.intervals@[interval].calendar_day()),
        None => false,
    }
}

/// Whether the destination of a candidate takes anything in an interval.
pub fn destination_receiving<N: Scalar>(
    input: &OptimisationInput<N>,
    candidate: &MovementCandidate<N>,
    interval: usize,
) -> (r: bool)
    requires
        interval < input.intervals@.len(),
    ensures
        r == receiving(*input, *candidate, interval as int),
{
    match find_key(&input.destinations, candidate.destination.0) {
        Some(d) => {
            let destination = &input.destinations[d];
            match destination.kind {
                DestinationKind::Crusher => match limit_on(destination, input.intervals[interval].day()) {
                    Some(limit) => N::whole(0).is_below(limit),
                    None => true,
                },
                _ => match destination.capacity_t {
                    Some(capacity) => N::whole(0).is_below(capacity),
                    None => true,
                },
            }
        },
        None => false,
    }
}

/// Whether a block is in a sequence.
pub fn holds_ground(sequence: &Vec<GroundId>, ground: GroundId) -> (r: bool)
    ensures
        r == sequence@.contains(ground),
{
    for k in 0..sequence.len()
        invariant
            forall|q: int| 0 <= q < k ==> (#[trigger] sequence@[q]) != ground,
    {
        if sequence[k] == ground {
            return true;
        }
    }
    false
}

/// Whether a pile is among the approved ones.
pub fn holds_pile(sources: &Vec<StockpileId>, pile: StockpileId) -> (r: bool)
    ensures
        r == sources@.contains(pile),
{
    for k in 0..sources.len()
        invariant
            forall|q: int| 0 <= q < k ==> (#[trigger] sources@[q]) != pile,
    {
        if sources[k] == pile {
            return true;
        }
    }
    false
}

/// Every block of a dig sequence is known.
pub open spec fn all_ground<N>(sequence: Seq<GroundId>, ground: Seq<GroundSource<N>>) -> bool {
    forall|i: int| 0 <= i < sequence.len() ==> has_key(ground, (#[trigger] sequence[i]).0)
}

/// Every approved stockpile is known.
pub open spec fn all_piles<N>(sources: Seq<StockpileId>, piles: Seq<Stockpile<N>>) -> bool {
    forall|i: int| 0 <= i < sources.len() ==> has_key(piles, (#[trigger] sources[i]).0)
}

fn ground_known<N>(sequence: &Vec<GroundId>, ground: &Vec<GroundSource<N>>) -> (r: bool)
    ensures
        r == all_ground(sequence@, ground@),
{
    for i in 0..sequence.len()
        invariant
            forall|j: int| 0 <= j < i ==> has_key(ground@, (#[trigger] sequence@[j]).0),
    {
        if !contains_key(ground, sequence[i].0) {
            return false;
        }
    }
    true
}

fn piles_known<N>(sources: &Vec<StockpileId>, piles: &Vec<Stockpile<N>>) -> (r: bool)
    ensures
        r == all_piles(sources@, piles@),
{
    for i in 0..sources.len()
        invariant
            forall|j: int| 0 <= j < i ==> has_key(piles@, (#[trigger] sources@[j]).0),
    {
        if !contains_key(piles, sources[i].0) {
            return false;
        }
    }
    true
}

fn none_negative<N: Scalar>(values: &Vec<N>) -> (r: bool)
    ensures
        r == forall|k: int| 0 <= k < values@.len() ==> not_negative(#[trigger] values@[k]),
{
    for i in 0..values.len()
        invariant
            forall|k: int| 0 <= k < i ==> not_negative(#[trigger] values@[k]),
    {
        if !is_not_negative(values[i]) {
            return false;
        }
    }
    true
}

} // verus!
