//! What replaying a blended solution finds, and the books kept while replaying.
use vstd::prelude::*;

use crate::ledger::{Ledger, Pair};
use crate::optimisation::ids::{
    Activity, DestinationId, GroundId, LoaderId, MaterialId, StockpileId, TaskId, TruckClassId,
};
use crate::scalar::Scalar;

verus! {

/// A pile, an interval or chunk of it, and a grade.
pub type BlendKey = Pair<StockpileId, Pair<usize, usize>>;

/// A movement that a solution makes.
#[derive(Clone, Copy, Debug)]
pub struct MovementRow<N> {
    pub candidate: usize,
    pub interval: usize,
    pub segment: usize,
    pub tonnes_t: N,
}

/// What a solution has a chunk of a pile do in an interval.
#[derive(Clone, Debug)]
pub struct ChunkRow<N> {
    pub pile: StockpileId,
    pub chunk: usize,
    pub interval: usize,
    pub open_t: N,
    pub reclaimed_t: N,
    pub closed: bool,
    pub received_t: N,
    /// What each movement brings to the chunk.
    pub receipts: Vec<(usize, N)>,
}

/// What was dropped as too little when a solution was read off.
#[derive(Clone, Copy, Debug)]
pub struct ExtractionAdjustments<N> {
    pub movement_count: usize,
    pub movement_total_t: N,
    pub movement_max_t: N,
    pub chunk_receipt_count: usize,
    pub chunk_receipt_total_t: N,
    pub chunk_receipt_max_t: N,
}

/// One more, held to the range.
pub open spec fn one_more(count: usize) -> usize {
    if count < usize::MAX {
        (count + 1) as usize
    } else {
        count
    }
}

/// Counts one more, stopping at the end of the range.
pub fn bump(count: usize) -> (r: usize)
    ensures
        r == one_more(count),
{
    if count < usize::MAX {
        count + 1
    } else {
        count
    }
}

impl<N: Scalar> ExtractionAdjustments<N> {
    pub open spec fn nothing() -> Self {
        ExtractionAdjustments {
            movement_count: 0,
            movement_total_t: N::of_whole(0),
            movement_max_t: N::of_whole(0),
            chunk_receipt_count: 0,
            chunk_receipt_total_t: N::of_whole(0),
            chunk_receipt_max_t: N::of_whole(0),
        }
    }

    pub open spec fn with_movement(self, tonnes: N) -> Self {
        ExtractionAdjustments {
            movement_count: one_more(self.movement_count),
            movement_total_t: self.movement_total_t.plus(tonnes.magnitude()),
            movement_max_t: self.movement_max_t.upper(tonnes.magnitude()),
            ..self
        }
    }

    pub open spec fn with_chunk_receipt(self, tonnes: N) -> Self {
        ExtractionAdjustments {
            chunk_receipt_count: one_more(self.chunk_receipt_count),
            chunk_receipt_total_t: self.chunk_receipt_total_t.plus(tonnes.magnitude()),
            chunk_receipt_max_t: self.chunk_receipt_max_t.upper(tonnes.magnitude()),
            ..self
        }
    }

    /// Nothing dropped yet.
    pub fn none() -> (r: Self)
        ensures
            r == Self::nothing(),
    {
        ExtractionAdjustments {
            movement_count: 0,
            movement_total_t: N::whole(0),
            movement_max_t: N::whole(0),
            chunk_receipt_count: 0,
            chunk_receipt_total_t: N::whole(0),
            chunk_receipt_max_t: N::whole(0),
        }
    }

    /// Records a dropped movement.
    pub fn movement(&mut self, tonnes: N)
        ensures
            *final(self) == old(self).with_movement(tonnes),
    {
        self.movement_count = bump(self.movement_count);
        self.movement_total_t = self.movement_total_t.add(tonnes.abs());
        self.movement_max_t = self.movement_max_t.larger(tonnes.abs());
    }

    /// Records a dropped receipt of a chunk.
    pub fn chunk_receipt(&mut self, tonnes: N)
        ensures
            *final(self) == old(self).with_chunk_receipt(tonnes),
    {
        self.chunk_receipt_count = bump(self.chunk_receipt_count);
        self.chunk_receipt_total_t = self.chunk_receipt_total_t.add(tonnes.abs());
        self.chunk_receipt_max_t = self.chunk_receipt_max_t.larger(tonnes.abs());
    }
}

/// A solution of a blended optimisation. Durations are held by interval and
/// segment.
#[derive(Clone, Debug)]
pub struct BlendSolution<N> {
    pub movements: Vec<MovementRow<N>>,
    pub durations: Ledger<Pair<usize, usize>, N>,
    pub chunks: Vec<ChunkRow<N>>,
    pub reported_objective: N,
    pub adjustments: ExtractionAdjustments<N>,
}

/// What a compared number is.
#[derive(Clone, Copy, Debug, PartialEq, Eq, Structural)]
pub enum Label {
    GroundTwice { ground: GroundId },
    Proportion { ground: GroundId, material: MaterialId, interval: usize, segment: usize },
    LoaderRate { loader: LoaderId, activity: Activity, interval: usize, segment: usize },
    TruckHours { truck: TruckClassId, interval: usize, segment: usize },
    EventClock { interval: usize },
    CrusherDay { crusher: DestinationId, day: usize },
    Capacity { destination: DestinationId },
    ReclaimCap { task: TaskId },
    ReleasedOpening { pile: StockpileId, interval: usize },
    PileCapacity { pile: StockpileId, interval: usize, segment: usize },
    ChunkDraws { pile: StockpileId, interval: usize },
    ChunkOpening { pile: StockpileId, chunk: usize, interval: usize },
    ChunkCapacity { pile: StockpileId, chunk: usize, interval: usize },
}

/// Something physically wrong with a solution.
#[derive(Clone, Copy, Debug)]
pub enum ReplayIssue<N> {
    Residual { label: Label, actual: N, expected: N },
    Breach { label: Label, used: N, limit: N },
    NegativeMovement { candidate: usize, tonnes: N },
    UnknownCandidate { candidate: usize },
    OutsideWindows { candidate: usize, interval: usize },
    NoBarWork { loader: LoaderId, tonnes: N, interval: usize, segment: usize },
    PriorityBroken { loader: LoaderId, worked: TaskId, interval: usize, segment: usize, expected: TaskId },
    SequenceBroken { task: TaskId, ground: GroundId, earlier: GroundId, interval: usize, segment: usize },
    MissingGrade { material: MaterialId, pile: StockpileId, grade: usize },
    MissingChunkGrade { material: MaterialId, pile: StockpileId, chunk: usize, grade: usize },
    NegativePile { pile: StockpileId, occupied: N, interval: usize, segment: usize },
    EmptySupply { pile: StockpileId, reclaimed: N, interval: usize },
    PileClosing { pile: StockpileId, interval: usize, tonnes: N },
    NegativeContained { pile: StockpileId, interval: usize, contained: N, grade: usize },
    ExcessContained { pile: StockpileId, contained: N, grade: usize, tonnes: N, interval: usize },
    ChunkClosing { pile: StockpileId, chunk: usize, interval: usize, tonnes: N },
    ClosedReceipt { pile: StockpileId, chunk: usize, tonnes: N, interval: usize },
    OpenReclaim { pile: StockpileId, chunk: usize, interval: usize },
    EarlierOpen { pile: StockpileId, chunk: usize, interval: usize, earlier: usize },
    FifoViolated { pile: StockpileId, chunk: usize, interval: usize, earlier: usize },
    LifoViolated { pile: StockpileId, chunk: usize, interval: usize, later: usize },
    Reopened { pile: StockpileId, chunk: usize, interval: usize },
    Objective { replayed: N, reported: N, permitted: N },
}

/// Something wrong with the grade of what a pile delivers.
#[derive(Clone, Copy, Debug)]
pub enum GradeIssue<N> {
    OutsideRange { pile: StockpileId, tonnes: N, destination: DestinationId, interval: usize },
    BelowMinimum {
        pile: StockpileId,
        tonnes: N,
        destination: DestinationId,
        interval: usize,
        actual: N,
        minimum: N,
    },
}

/// What a pile holds at the end.
#[derive(Clone, Debug)]
pub struct ClosingState<N> {
    pub pile: StockpileId,
    pub tonnes_t: N,
    pub contained: Vec<N>,
}

/// What a replay finds.
#[derive(Clone, Debug)]
pub struct ReplayReport<N> {
    pub issues: Vec<ReplayIssue<N>>,
    pub grade_issues: Vec<GradeIssue<N>>,
    pub blends: Ledger<BlendKey, N>,
    pub max_absolute_residual_t: N,
    pub max_relative_residual: N,
    pub replayed_objective: N,
    pub objective_difference: N,
    pub negligible_grade_deliveries: usize,
    pub negligible_grade_tonnes_t: N,
    pub chunk_dust_events: usize,
    pub chunk_dust_tonnes_t: N,
    pub chunk_dust_threshold_t: N,
    pub closing: Vec<ClosingState<N>>,
}

impl<N> ReplayReport<N> {
    /// Whether nothing at all is wrong.
    pub fn is_valid(&self) -> (r: bool)
        ensures
            r == (self.issues@.len() == 0 && self.grade_issues@.len() == 0),
    {
        self.issues.len() == 0 && self.grade_issues.len() == 0
    }

    /// Whether nothing is physically wrong.
    pub fn is_physically_valid(&self) -> (r: bool)
        ensures
            r == (self.issues@.len() == 0),
    {
        self.issues.len() == 0
    }
}

/// The tonnes that replaying lets pass.
pub open spec fn replay_tolerance<N: Scalar>() -> N {
    N::of_decimal(1, 5)
}

/// The tonnes that replaying lets pass.
pub fn tolerance<N: Scalar>() -> (r: N)
    ensures
        r == replay_tolerance::<N>(),
{
    N::decimal(1, 5)
}

/// The books at a moment of a replay.
pub struct ReplayState<N> {
    pub issues: Seq<ReplayIssue<N>>,
    pub grade_issues: Seq<GradeIssue<N>>,
    /// The blend of every pile and chunk.
    pub blends: Seq<(BlendKey, N)>,
    pub max_absolute: N,
    pub max_relative: N,
    pub objective: N,
    pub negligible_count: usize,
    pub negligible_tonnes: N,
    pub dust_events: usize,
    pub dust_tonnes: N,
    pub dust_threshold: N,
    /// What the chunks of the pile at hand hold.
    pub held_t: Seq<(usize, N)>,
    pub held_q: Seq<(Pair<usize, usize>, N)>,
    /// What was drawn from the chunks of each pile in each interval.
    pub drawn_t: Seq<(Pair<StockpileId, usize>, N)>,
    pub drawn_q: Seq<(BlendKey, N)>,
    /// What each pile holds at the start of each interval.
    pub openings: Seq<(Pair<StockpileId, usize>, N)>,
}

/// The books kept while replaying.
#[derive(Clone, Debug)]
pub struct Books<N> {
    pub issues: Vec<ReplayIssue<N>>,
    pub grade_issues: Vec<GradeIssue<N>>,
    pub blends: Ledger<BlendKey, N>,
    pub max_absolute: N,
    pub max_relative: N,
    pub objective: N,
    pub negligible_count: usize,
    pub negligible_tonnes: N,
    pub dust_events: usize,
    pub dust_tonnes: N,
    pub dust_threshold: N,
    pub held_t: Ledger<usize, N>,
    pub held_q: Ledger<Pair<usize, usize>, N>,
    pub drawn_t: Ledger<Pair<StockpileId, usize>, N>,
    pub drawn_q: Ledger<BlendKey, N>,
    pub openings: Ledger<Pair<StockpileId, usize>, N>,
}

impl<N> View for Books<N> {
    type V = ReplayState<N>;

    open spec fn view(&self) -> ReplayState<N> {
        ReplayState {
            issues: self.issues@,
            grade_issues: self.grade_issues@,
            blends: self.blends@,
            max_absolute: self.max_absolute,
            max_relative: self.max_relative,
            objective: self.objective,
            negligible_count: self.negligible_count,
            negligible_tonnes: self.negligible_tonnes,
            dust_events: self.dust_events,
            dust_tonnes: self.dust_tonnes,
            dust_threshold: self.dust_threshold,
            held_t: self.held_t@,
            held_q: self.held_q@,
            drawn_t: self.drawn_t@,
            drawn_q: self.drawn_q@,
            openings: self.openings@,
        }
    }
}

impl<N: Scalar> ReplayState<N> {
    /// Nothing found and nothing held.
    pub open spec fn blank() -> Self {
        ReplayState {
            issues: Seq::empty(),
            grade_issues: Seq::empty(),
            blends: Seq::empty(),
            max_absolute: N::of_whole(0),
            max_relative: N::of_whole(0),
            objective: N::of_whole(0),
            negligible_count: 0,
            negligible_tonnes: N::of_whole(0),
            dust_events: 0,
            dust_tonnes: N::of_whole(0),
            dust_threshold: N::of_whole(0),
            held_t: Seq::empty(),
            held_q: Seq::empty(),
            drawn_t: Seq::empty(),
            drawn_q: Seq::empty(),
            openings: Seq::empty(),
        }
    }

    pub open spec fn with_issue(self, issue: ReplayIssue<N>) -> Self {
        ReplayState { issues: self.issues.push(issue), ..self }
    }

    pub open spec fn with_issue_if(self, wrong: bool, issue: ReplayIssue<N>) -> Self {
        if wrong {
            self.with_issue(issue)
        } else {
            self
        }
    }

    pub open spec fn with_grade_issue(self, issue: GradeIssue<N>) -> Self {
        ReplayState { grade_issues: self.grade_issues.push(issue), ..self }
    }

    pub open spec fn with_dust(self, tonnes: N) -> Self {
        ReplayState {
            dust_events: one_more(self.dust_events),
            dust_tonnes: self.dust_tonnes.plus(tonnes),
            ..self
        }
    }

    /// Compares two numbers that should agree.
    pub open spec fn compared(self, label: Label, actual: N, expected: N) -> Self {
        let absolute = actual.minus(expected).magnitude();
        let scale = expected.magnitude().upper(N::of_whole(1));
        (ReplayState {
            max_absolute: self.max_absolute.upper(absolute),
            max_relative: self.max_relative.upper(absolute.over(scale)),
            ..self
        }).with_issue_if(
            replay_tolerance::<N>().below(absolute),
            ReplayIssue::Residual { label, actual, expected },
        )
    }

    /// Compares what is used with its limit.
    pub open spec fn limited(self, label: Label, used: N, limit: N) -> Self {
        self.with_issue_if(
            limit.plus(replay_tolerance()).below(used),
            ReplayIssue::Breach { label, used, limit },
        )
    }
}

impl<N: Scalar> Books<N> {
    /// Empty books.
    pub fn new() -> (r: Self)
        ensures
            r@ == ReplayState::<N>::blank(),
    {
        Books {
            issues: Vec::new(),
            grade_issues: Vec::new(),
            blends: Ledger::new(),
            max_absolute: N::whole(0),
            max_relative: N::whole(0),
            objective: N::whole(0),
            negligible_count: 0,
            negligible_tonnes: N::whole(0),
            dust_events: 0,
            dust_tonnes: N::whole(0),
            dust_threshold: N::whole(0),
            held_t: Ledger::new(),
            held_q: Ledger::new(),
            drawn_t: Ledger::new(),
            drawn_q: Ledger::new(),
            openings: Ledger::new(),
        }
    }

    /// Records something physically wrong.
    pub fn report(&mut self, issue: ReplayIssue<N>)
        ensures
            final(self)@ == old(self)@.with_issue(issue),
    {
        self.issues.push(issue);
    }

    /// Records something wrong with a grade.
    pub fn report_grade(&mut self, issue: GradeIssue<N>)
        ensures
            final(self)@ == old(self)@.with_grade_issue(issue),
    {
        self.grade_issues.push(issue);
    }

    /// Counts dust.
    pub fn dust(&mut self, tonnes: N)
        ensures
            final(self)@ == old(self)@.with_dust(tonnes),
    {
        self.dust_events = bump(self.dust_events);
        self.dust_tonnes = self.dust_tonnes.add(tonnes);
    }

    /// Compares two numbers that should agree.
    pub fn residual(&mut self, label: Label, actual: N, expected: N)
        ensures
            final(self)@ == old(self)@.compared(label, actual, expected),
    {
        let absolute = actual.sub(expected).abs();
        let scale = expected.abs().larger(N::whole(1));
        self.max_absolute = self.max_absolute.larger(absolute);
        self.max_relative = self.max_relative.larger(absolute.div(scale));
        if tolerance::<N>().is_below(absolute) {
            self.report(ReplayIssue::Residual { label, actual, expected });
        }
    }

    /// Compares what is used with its limit.
    pub fn breach(&mut self, label: Label, used: N, limit: N)
        ensures
            final(self)@ == old(self)@.limited(label, used, limit),
    {
        if limit.add(tolerance()).is_below(used) {
            self.report(ReplayIssue::Breach { label, used, limit });
        }
    }
}

} // verus!
