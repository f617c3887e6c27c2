//! How many segments each interval is split into.
use vstd::prelude::*;

use crate::listing::{find_key, find_last_key, folded, keyed, last_keyed, sum_to};
use crate::optimisation::authored::{authored, authored_order, windows_compare};
use crate::optimisation::ids::{GroundId, StockpileId};
use crate::optimisation::input::{
    holds_ground, holds_pile, in_window, task_active, Loader, OptimisationInput, Stockpile, Task, TaskKind,
};
use crate::optimisation::parcel::base::{add_counts, added, as_count, inventory_dust, to_count, unit_dust};
use crate::optimisation::result::ResolutionMetadata;
use crate::scalar::Scalar;

verus! {

/// The most segments that an interval is split into.
pub const SEGMENT_CEILING: usize = 24;

/// The most segments that may be asked for.
pub const SEGMENT_OVERRIDE_CEILING: usize = 64;

/// What a loader has been found to get through in an interval.
#[derive(Clone, Copy, Debug)]
pub struct Effort<N> {
    /// Blocks, lots and parcels begun.
    pub touched: usize,
    pub time_used: N,
    /// Whether a reclaim task is among its tasks.
    pub reclaims: bool,
    /// Whether the list at hand is given up.
    pub stopped: bool,
}

pub open spec fn dig_tph<N: Scalar>(loader: Loader<N>, i: int) -> N {
    if i < loader.rates@.len() {
        loader.rates@[i].dig_tph
    } else {
        N::of_whole(0)
    }
}

pub open spec fn reclaim_tph<N: Scalar>(loader: Loader<N>, i: int) -> N {
    if i < loader.rates@.len() {
        loader.rates@[i].reclaim_tph
    } else {
        N::of_whole(0)
    }
}

fn find_dig_tph<N: Scalar>(loader: &Loader<N>, i: usize) -> (r: N)
    ensures
        r == dig_tph(*loader, i as int),
{
    if i < loader.rates.len() {
        loader.rates[i].dig_tph
    } else {
        N::whole(0)
    }
}

fn find_reclaim_tph<N: Scalar>(loader: &Loader<N>, i: usize) -> (r: N)
    ensures
        r == reclaim_tph(*loader, i as int),
{
    if i < loader.rates.len() {
        loader.rates[i].reclaim_tph
    } else {
        N::whole(0)
    }
}

/// A task works on a block.
pub open spec fn digs_block<N>(task: Task<N>, ground: GroundId) -> bool {
    match task.kind {
        TaskKind::Dig { sequence } => sequence@.contains(ground),
        TaskKind::Reclaim { .. } => false,
    }
}

/// A task works on a pile.
pub open spec fn reclaims_pile<N>(task: Task<N>, pile: StockpileId) -> bool {
    match task.kind {
        TaskKind::Dig { .. } => false,
        TaskKind::Reclaim { approved_sources, .. } => approved_sources@.contains(pile),
    }
}

pub fn does_dig_block<N>(task: &Task<N>, ground: GroundId) -> (r: bool)
    ensures
        r == digs_block(*task, ground),
{
    match &task.kind {
        TaskKind::Dig { sequence } => holds_ground(sequence, ground),
        TaskKind::Reclaim { .. } => false,
    }
}

pub fn does_reclaim_pile<N>(task: &Task<N>, pile: StockpileId) -> (r: bool)
    ensures
        r == reclaims_pile(*task, pile),
{
    match &task.kind {
        TaskKind::Dig { .. } => false,
        TaskKind::Reclaim { approved_sources, maximum_t: _ } => holds_pile(approved_sources, pile),
    }
}

/// A loader works on a block in an interval.
pub open spec fn on_block<N: Scalar>(input: OptimisationInput<N>, loader: Loader<N>, ground: GroundId, i: int) -> bool {
    exists|t: int|
        0 <= t < input.tasks@.len() && (#[trigger] input.tasks@[t]).loader == loader.id && in_window(
            input.tasks@[t],
            input.intervals@[i],
        ) && digs_block(input.tasks@[t], ground)
}

/// A loader works on a pile in an interval.
pub open spec fn on_pile<N: Scalar>(input: OptimisationInput<N>, loader: Loader<N>, pile: StockpileId, i: int) -> bool {
    exists|t: int|
        0 <= t < input.tasks@.len() && (#[trigger] input.tasks@[t]).loader == loader.id && in_window(
            input.tasks@[t],
            input.intervals@[i],
        ) && reclaims_pile(input.tasks@[t], pile)
}

fn is_on_block<N: Scalar>(input: &OptimisationInput<N>, loader: &Loader<N>, ground: GroundId, i: usize) -> (r: bool)
    requires
        i < input.intervals@.len(),
    ensures
        r == on_block(*input, *loader, ground, i as int),
{
    for t in 0..input.tasks.len()
        invariant
            i < input.intervals@.len(),
            forall|q: int|
                0 <= q < t ==> !((#[trigger] input.tasks@[q]).loader == loader.id && in_window(
                    input.tasks@[q],
                    input.intervals@[i as int],
                ) && digs_block(input.tasks@[q], ground)),
    {
        let task = &input.tasks[t];
        if task.loader == loader.id && task_active(task, input.intervals[i]) && does_dig_block(task, ground) {
            assert(input.tasks@[t as int].loader == loader.id);
            return true;
        }
    }
    false
}

fn is_on_pile<N: Scalar>(input: &OptimisationInput<N>, loader: &Loader<N>, pile: StockpileId, i: usize) -> (r: bool)
    requires
        i < input.intervals@.len(),
    ensures
        r == on_pile(*input, *loader, pile, i as int),
{
    for t in 0..input.tasks.len()
        invariant
            i < input.intervals@.len(),
            forall|q: int|
                0 <= q < t ==> !((#[trigger] input.tasks@[q]).loader == loader.id && in_window(
                    input.tasks@[q],
                    input.intervals@[i as int],
                ) && reclaims_pile(input.tasks@[q], pile)),
    {
        let task = &input.tasks[t];
        if task.loader == loader.id && task_active(task, input.intervals[i]) && does_reclaim_pile(task, pile) {
            assert(input.tasks@[t as int].loader == loader.id);
            return true;
        }
    }
    false
}

pub open spec fn dig_part<N: Scalar>(input: OptimisationInput<N>, ground: GroundId, i: int) -> spec_fn(int) -> Option<N> {
    |l: int|
        {
            let loader = input.loaders@[l];
            if N::of_whole(0).below(dig_tph(loader, i)) && on_block(input, loader, ground, i) {
                Some(dig_tph(loader, i))
            } else {
                None
            }
        }
}

/// How fast loaders together can dig a block.
pub open spec fn combined_dig<N: Scalar>(input: OptimisationInput<N>, ground: GroundId, i: int) -> N {
    sum_to(input.loaders@.len(), dig_part(input, ground, i))
}

pub open spec fn reclaim_part<N: Scalar>(input: OptimisationInput<N>, pile: StockpileId, i: int) -> spec_fn(
    int,
) -> Option<N> {
    |l: int|
        {
            let loader = input.loaders@[l];
            if N::of_whole(0).below(reclaim_tph(loader, i)) && on_pile(input, loader, pile, i) {
                Some(reclaim_tph(loader, i))
            } else {
                None
            }
        }
}

/// How fast loaders together can reclaim a pile.
pub open spec fn combined_reclaim<N: Scalar>(input: OptimisationInput<N>, pile: StockpileId, i: int) -> N {
    sum_to(input.loaders@.len(), reclaim_part(input, pile, i))
}

fn find_combined_dig<N: Scalar>(input: &OptimisationInput<N>, ground: GroundId, i: usize) -> (r: N)
    requires
        i < input.intervals@.len(),
    ensures
        r == combined_dig(*input, ground, i as int),
{
    let mut total = N::whole(0);
    for l in 0..input.loaders.len()
        invariant
            i < input.intervals@.len(),
            total == sum_to(l as nat, dig_part(*input, ground, i as int)),
    {
        let loader = &input.loaders[l];
        let rate = find_dig_tph(loader, i);
        if N::whole(0).is_below(rate) && is_on_block(input, loader, ground, i) {
            total = total.add(rate);
        }
    }
    total
}

fn find_combined_reclaim<N: Scalar>(input: &OptimisationInput<N>, pile: StockpileId, i: usize) -> (r: N)
    requires
        i < input.intervals@.len(),
    ensures
        r == combined_reclaim(*input, pile, i as int),
{
    let mut total = N::whole(0);
    for l in 0..input.loaders.len()
        invariant
            i < input.intervals@.len(),
            total == sum_to(l as nat, reclaim_part(*input, pile, i as int)),
    {
        let loader = &input.loaders[l];
        let rate = find_reclaim_tph(loader, i);
        if N::whole(0).is_below(rate) && is_on_pile(input, loader, pile, i) {
            total = total.add(rate);
        }
    }
    total
}

/// When an interval is as good as over.
pub open spec fn time_limit<N: Scalar>(input: OptimisationInput<N>, i: int) -> N {
    input.intervals@[i].length().minus(N::of_decimal(1, 9))
}

/// One more thing is begun, unless the interval is over.
pub open spec fn begun<N: Scalar>(effort: Effort<N>, limit: N, time: N) -> Effort<N> {
    if effort.stopped {
        effort
    } else if limit.at_most(effort.time_used) {
        Effort { stopped: true, ..effort }
    } else {
        Effort { touched: added(effort.touched, 1), time_used: effort.time_used.plus(time), ..effort }
    }
}

pub open spec fn resumed<N>(effort: Effort<N>) -> Effort<N> {
    Effort { stopped: false, ..effort }
}

pub open spec fn block_step<N: Scalar>(input: OptimisationInput<N>, i: int, sequence: Seq<GroundId>) -> spec_fn(
    Effort<N>,
    int,
) -> Effort<N> {
    |effort: Effort<N>, k: int|
        match last_keyed(input.ground@, sequence[k].0) {
            Some(g) => {
                let combined = combined_dig(input, sequence[k], i);
                if !effort.stopped && combined.at_most(N::of_whole(0)) {
                    Effort { stopped: true, ..effort }
                } else {
                    begun(effort, time_limit(input, i), input.ground@[g].tonnes_t.over(combined))
                }
            },
            None => effort,
        }
}

pub open spec fn lot_step<N: Scalar>(pile: Stockpile<N>, limit: N, combined: N) -> spec_fn(Effort<N>, int) -> Effort<N> {
    |effort: Effort<N>, o: int| begun(effort, limit, pile.opening@[o].tonnes_t.over(combined))
}

pub open spec fn slot_step<N: Scalar>(target: N, limit: N, combined: N) -> spec_fn(Effort<N>, int) -> Effort<N> {
    |effort: Effort<N>, k: int| begun(effort, limit, target.over(combined))
}

/// How many parcels of a pile are counted.
pub open spec fn slots<N: Scalar>(input: OptimisationInput<N>, pile: Stockpile<N>) -> usize {
    let count = as_count(pile.capacity_t.over(input.horizon.parcel_target_t).raised());
    if count < SEGMENT_CEILING {
        count
    } else {
        SEGMENT_CEILING
    }
}

pub open spec fn pile_step<N: Scalar>(input: OptimisationInput<N>, i: int, sources: Seq<StockpileId>) -> spec_fn(
    Effort<N>,
    int,
) -> Effort<N> {
    |effort: Effort<N>, k: int|
        match keyed(input.stockpiles@, sources[k].0) {
            Some(p) => {
                let pile = input.stockpiles@[p];
                let combined = combined_reclaim(input, sources[k], i);
                let limit = time_limit(input, i);
                if combined.at_most(N::of_whole(0)) {
                    effort
                } else {
                    let lots = resumed(folded(pile.opening@.len(), effort, lot_step(pile, limit, combined)));
                    resumed(
                        folded(
                            slots(input, pile) as nat,
                            lots,
                            slot_step(input.horizon.parcel_target_t, limit, combined),
                        ),
                    )
                }
            },
            None => effort,
        }
}

/// What a loader gets through on a task.
pub open spec fn worked<N: Scalar>(
    input: OptimisationInput<N>,
    i: int,
    loader: Loader<N>,
    effort: Effort<N>,
    task: Task<N>,
) -> Effort<N> {
    if !in_window(task, input.intervals@[i]) {
        effort
    } else {
        match task.kind {
            TaskKind::Dig { sequence } => if dig_tph(loader, i).at_most(N::of_whole(0)) {
                effort
            } else {
                resumed(folded(sequence@.len(), effort, block_step(input, i, sequence@)))
            },
            TaskKind::Reclaim { approved_sources, .. } => if reclaim_tph(loader, i).at_most(N::of_whole(0)) {
                effort
            } else {
                folded(
                    approved_sources@.len(),
                    Effort { reclaims: true, ..effort },
                    pile_step(input, i, approved_sources@),
                )
            },
        }
    }
}

pub open spec fn task_step<N: Scalar>(input: OptimisationInput<N>, i: int, l: int) -> spec_fn(Effort<N>, int) -> Effort<
    N,
> {
    |effort: Effort<N>, q: int|
        {
            let loader = input.loaders@[l];
            worked(input, i, loader, effort, input.tasks@[authored(input.tasks@, loader.id)[q] as int])
        }
}

pub open spec fn no_effort<N: Scalar>() -> Effort<N> {
    Effort { touched: 0, time_used: N::of_whole(0), reclaims: false, stopped: false }
}

/// What a loader gets through in an interval.
pub open spec fn effort_of<N: Scalar>(input: OptimisationInput<N>, i: int, l: int) -> Effort<N> {
    folded(authored(input.tasks@, input.loaders@[l].id).len(), no_effort(), task_step(input, i, l))
}

/// How many pieces a loader's interval falls into.
pub open spec fn pieces<N: Scalar>(effort: Effort<N>) -> usize {
    if effort.reclaims {
        added(effort.touched, 1)
    } else {
        effort.touched
    }
}

/// Whether anything is worked on so far, and at how many points that changes.
pub open spec fn boundary_step<N: Scalar>(input: OptimisationInput<N>, i: int) -> spec_fn((bool, usize), int) -> (
    bool,
    usize,
) {
    |found: (bool, usize), l: int|
        {
            let count = pieces(effort_of(input, i, l));
            if count > 0 {
                (true, added(found.1, (count - 1) as usize))
            } else {
                found
            }
        }
}

/// The segments of an interval: one for each stretch between changes.
pub open spec fn budget_of<N: Scalar>(input: OptimisationInput<N>, i: int) -> usize {
    let found = folded(input.loaders@.len(), (false, 0usize), boundary_step(input, i));
    let count = if found.0 {
        added(1, found.1)
    } else {
        found.1
    };
    if count < 1 {
        1
    } else if count > SEGMENT_CEILING {
        SEGMENT_CEILING
    } else {
        count
    }
}

/// A count that was asked for, held to what may be.
pub open spec fn asked(count: u32) -> usize {
    if count < 1 {
        1
    } else if count > SEGMENT_OVERRIDE_CEILING {
        SEGMENT_OVERRIDE_CEILING
    } else {
        count as usize
    }
}

/// The segments of every interval.
pub open spec fn budgets<N: Scalar>(input: OptimisationInput<N>) -> Seq<usize> {
    match input.horizon.event_segments {
        Some(count) => Seq::new(input.intervals@.len(), |i: int| asked(count)),
        None => Seq::new(input.intervals@.len(), |i: int| budget_of(input, i)),
    }
}

fn begin<N: Scalar>(effort: &mut Effort<N>, limit: N, time: N)
    ensures
        *final(effort) == begun(*old(effort), limit, time),
{
    if !effort.stopped {
        if limit.is_at_most(effort.time_used) {
            effort.stopped = true;
        } else {
            effort.touched = add_counts(effort.touched, 1);
            effort.time_used = effort.time_used.add(time);
        }
    }
}

fn work_blocks<N: Scalar>(input: &OptimisationInput<N>, i: usize, sequence: &Vec<GroundId>, effort: &mut Effort<N>)
    requires
        i < input.intervals@.len(),
    ensures
        *final(effort) == resumed(folded(sequence@.len(), *old(effort), block_step(*input, i as int, sequence@))),
{
    let limit = input.intervals[i].duration_h().sub(N::decimal(1, 9));
    let ghost start = *effort;
    let ghost step = block_step(*input, i as int, sequence@);
    for k in 0..sequence.len()
        invariant
            i < input.intervals@.len(),
            limit == time_limit(*input, i as int),
            step == block_step(*input, i as int, sequence@),
            *effort == folded(k as nat, start, step),
    {
        if let Some(g) = find_last_key(&input.ground, sequence[k].0) {
            let combined = find_combined_dig(input, sequence[k], i);
            if !effort.stopped && combined.is_at_most(N::whole(0)) {
                effort.stopped = true;
            } else {
                begin(effort, limit, input.ground[g].tonnes_t.div(combined));
            }
        }
    }
    effort.stopped = false;
}

fn find_slots<N: Scalar>(input: &OptimisationInput<N>, pile: &Stockpile<N>) -> (r: usize)
    ensures
        r == slots(*input, *pile),
{
    let count: usize = to_count(pile.capacity_t.div(input.horizon.parcel_target_t).ceil());
    if count < SEGMENT_CEILING {
        count
    } else {
        SEGMENT_CEILING
    }
}

fn work_pile<N: Scalar>(input: &OptimisationInput<N>, i: usize, pile: &Stockpile<N>, combined: N, effort: &mut Effort<N>)
    requires
        i < input.intervals@.len(),
    ensures
        *final(effort) == resumed(
            folded(
                slots(*input, *pile) as nat,
                resumed(
                    folded(
                        pile.opening@.len(),
                        *old(effort),
                        lot_step(*pile, time_limit(*input, i as int), combined),
                    ),
                ),
                slot_step(input.horizon.parcel_target_t, time_limit(*input, i as int), combined),
            ),
        ),
{
    let limit = input.intervals[i].duration_h().sub(N::decimal(1, 9));
    let ghost start = *effort;
    let ghost step = lot_step(*pile, limit, combined);
    for o in 0..pile.opening.len()
        invariant
            step == lot_step(*pile, limit, combined),
            *effort == folded(o as nat, start, step),
    {
        begin(effort, limit, pile.opening[o].tonnes_t.div(combined));
    }
    effort.stopped = false;
    let ghost middle = *effort;
    let ghost next = slot_step(input.horizon.parcel_target_t, limit, combined);
    let count: usize = find_slots(input, pile);
    for k in 0..count
        invariant
            next == slot_step(input.horizon.parcel_target_t, limit, combined),
            *effort == folded(k as nat, middle, next),
    {
        begin(effort, limit, input.horizon.parcel_target_t.div(combined));
    }
    effort.stopped = false;
}

fn work_piles<N: Scalar>(input: &OptimisationInput<N>, i: usize, sources: &Vec<StockpileId>, effort: &mut Effort<N>)
    requires
        i < input.intervals@.len(),
    ensures
        *final(effort) == folded(sources@.len(), *old(effort), pile_step(*input, i as int, sources@)),
{
    let ghost start = *effort;
    let ghost step = pile_step(*input, i as int, sources@);
    for k in 0..sources.len()
        invariant
            i < input.intervals@.len(),
            step == pile_step(*input, i as int, sources@),
            *effort == folded(k as nat, start, step),
    {
        if let Some(p) = find_key(&input.stockpiles, sources[k].0) {
            let combined = find_combined_reclaim(input, sources[k], i);
            if !combined.is_at_most(N::whole(0)) {
                work_pile(input, i, &input.stockpiles[p], combined, effort);
            }
        }
    }
}

fn find_effort<N: Scalar>(input: &OptimisationInput<N>, i: usize, l: usize) -> (r: Effort<N>)
    requires
        i < input.intervals@.len(),
        l < input.loaders@.len(),
        windows_compare(input.tasks@),
    ensures
        r == effort_of(*input, i as int, l as int),
{
    let loader = &input.loaders[l];
    let order = authored_order(&input.tasks, loader.id);
    let mut effort = Effort { touched: 0, time_used: N::whole(0), reclaims: false, stopped: false };
    let ghost step = task_step(*input, i as int, l as int);
    for q in 0..order.len()
        invariant
            i < input.intervals@.len(),
            l < input.loaders@.len(),
            loader == input.loaders@[l as int],
            order@ == authored(input.tasks@, loader.id),
            forall|q: int| 0 <= q < order@.len() ==> (#[trigger] order@[q]) < input.tasks@.len(),
            step == task_step(*input, i as int, l as int),
            effort == folded(q as nat, no_effort(), step),
    {
        let task = &input.tasks[order[q]];
        if task_active(task, input.intervals[i]) {
            match &task.kind {
                TaskKind::Dig { sequence } => {
                    if !find_dig_tph(loader, i).is_at_most(N::whole(0)) {
                        work_blocks(input, i, sequence, &mut effort);
                    }
                },
                TaskKind::Reclaim { approved_sources, maximum_t: _ } => {
                    if !find_reclaim_tph(loader, i).is_at_most(N::whole(0)) {
                        effort.reclaims = true;
                        work_piles(input, i, approved_sources, &mut effort);
                    }
                },
            }
        }
    }
    effort
}

fn find_budget<N: Scalar>(input: &OptimisationInput<N>, i: usize) -> (r: usize)
    requires
        i < input.intervals@.len(),
        windows_compare(input.tasks@),
    ensures
        r == budget_of(*input, i as int),
{
    let mut any: bool = false;
    let mut extra: usize = 0;
    let ghost step = boundary_step(*input, i as int);
    for l in 0..input.loaders.len()
        invariant
            i < input.intervals@.len(),
            windows_compare(input.tasks@),
            step == boundary_step(*input, i as int),
            (any, extra) == folded(l as nat, (false, 0usize), step),
    {
        let effort = find_effort(input, i, l);
        let count: usize = if effort.reclaims {
            add_counts(effort.touched, 1)
        } else {
            effort.touched
        };
        if count > 0 {
            any = true;
            extra = add_counts(extra, count - 1);
        }
    }
    let count: usize = if any {
        add_counts(1, extra)
    } else {
        extra
    };
    if count < 1 {
        1
    } else if count > SEGMENT_CEILING {
        SEGMENT_CEILING
    } else {
        count
    }
}

fn clamp_asked(count: u32) -> (r: usize)
    ensures
        r == asked(count),
{
    if count < 1 {
        1
    } else if count as u64 > SEGMENT_OVERRIDE_CEILING as u64 {
        SEGMENT_OVERRIDE_CEILING
    } else {
        count as usize
    }
}

/// How many segments each interval is split into. Every interval has one at
/// least.
pub fn segment_budgets<N: Scalar>(input: &OptimisationInput<N>) -> (r: Vec<usize>)
    requires
        input.intervals@.len() > 0 && input.horizon.event_segments is None ==> windows_compare(input.tasks@),
    ensures
        r@ == budgets(*input),
        forall|i: int| 0 <= i < r@.len() ==> 1 <= #[trigger] r@[i] <= SEGMENT_OVERRIDE_CEILING,
{
    let mut out: Vec<usize> = Vec::new();
    for i in 0..input.intervals.len()
        invariant
            input.intervals@.len() > 0 && input.horizon.event_segments is None ==> windows_compare(input.tasks@),
            out@ =~= budgets(*input).take(i as int),
            forall|i: int| 0 <= i < out@.len() ==> 1 <= #[trigger] out@[i] <= SEGMENT_OVERRIDE_CEILING,
    {
        out.push(
            match input.horizon.event_segments {
                Some(count) => clamp_asked(count),
                None => find_budget(input, i),
            },
        );
    }
    assert(out@ =~= budgets(*input));
    out
}

/// How finely the horizon is resolved.
pub open spec fn resolved<N: Scalar>(input: OptimisationInput<N>, budgets: Seq<usize>, metadata: ResolutionMetadata<N>) -> bool {
    &&& metadata.horizon_h == input.horizon.end_h
    &&& metadata.regular_step_h == input.horizon.regular_step_h
    &&& metadata.parcel_target_t == input.horizon.parcel_target_t
    &&& metadata.segment_counts@ == budgets
    &&& metadata.segment_ceiling == (match input.horizon.event_segments {
        Some(count) => asked(count),
        None => SEGMENT_CEILING,
    })
    &&& metadata.interval_edges_h@ == Seq::new(
        input.intervals@.len(),
        |i: int| input.intervals@[i].start_h,
    ).push(input.horizon.end_h)
    &&& metadata.inventory_dust_t == unit_dust(input)
    &&& metadata.tolerances == input.horizon.tolerances
}

/// Says how finely the horizon is resolved.
pub fn metadata<N: Scalar>(input: &OptimisationInput<N>, budgets: &Vec<usize>) -> (r: ResolutionMetadata<N>)
    ensures
        resolved(*input, budgets@, r),
{
    let mut edges: Vec<N> = Vec::new();
    for i in 0..input.intervals.len()
        invariant
            edges@ =~= Seq::new(i as nat, |i: int| input.intervals@[i].start_h),
    {
        edges.push(input.intervals[i].start_h);
    }
    edges.push(input.horizon.end_h);
    ResolutionMetadata {
        horizon_h: input.horizon.end_h,
        regular_step_h: input.horizon.regular_step_h,
        parcel_target_t: input.horizon.parcel_target_t,
        segment_counts: crate::listing::copied(budgets),
        segment_ceiling: match input.horizon.event_segments {
            Some(count) => clamp_asked(count),
            None => SEGMENT_CEILING,
        },
        interval_edges_h: edges,
        inventory_dust_t: inventory_dust(input),
        tolerances: input.horizon.tolerances,
    }
}

} // verus!
