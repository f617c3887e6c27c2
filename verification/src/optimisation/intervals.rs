//! Cutting the horizon into intervals.
use vstd::prelude::*;
use vstd::relations::{sorted_by, total_ordering};

use crate::listing::{first_from, flat};
use crate::optimisation::input::{is_positive, positive, HorizonSpec, InputError, InputField, Interval};
use crate::scalar::{Fixed, Scalar};

verus! {

/// The `k`th point of a regular grid whose first point is one step in.
pub open spec fn grid_point<N: Scalar>(step: N, k: nat) -> N
    decreases k,
{
    if k == 0 {
        step
    } else {
        grid_point(step, (k - 1) as nat).plus(step)
    }
}

/// The grid comes to the end of the horizon after finitely many points.
pub open spec fn grid_ends<N: Scalar>(step: N, end: N) -> bool {
    exists|k: nat| !(#[trigger] grid_point(step, k)).below(end)
}

/// How many points of the grid lie before the end.
pub open spec fn grid_count<N: Scalar>(step: N, end: N) -> nat {
    choose|k: nat|
        !(#[trigger] grid_point(step, k)).below(end) && forall|m: nat| m < k ==> (#[trigger] grid_point(step, m)).below(end)
}

/// The points of the grid before the end.
pub open spec fn grid<N: Scalar>(step: N, end: N) -> Seq<N> {
    Seq::new(grid_count(step, end), |k: int| grid_point(step, k as nat))
}

/// The points of the grid first reaching the end at `k` are those before `k`.
proof fn grid_reached<N: Scalar>(step: N, end: N, k: nat)
    requires
        !grid_point(step, k).below(end),
        forall|m: nat| m < k ==> (#[trigger] grid_point(step, m)).below(end),
    ensures
        grid_count(step, end) == k,
{
    let c = grid_count(step, end);
    assert(!grid_point(step, c).below(end) && forall|m: nat| m < c ==> (#[trigger] grid_point(step, m)).below(end));
    if c < k {
        assert(grid_point(step, c).below(end));
    } else if k < c {
        assert(grid_point(step, k).below(end));
    }
}

/// A grid of exact numbers with a step above zero always ends.
pub proof fn fixed_grid_ends(step: Fixed, end: Fixed)
    requires
        positive(step),
        end.finite(),
    ensures
        grid_ends(step, end),
{
    fixed_grid_grows(step, i64::MAX as nat);
    assert(!grid_point(step, i64::MAX as nat).below(end));
}

proof fn fixed_grid_grows(step: Fixed, k: nat)
    requires
        step.0 > 0,
    ensures
        grid_point(step, k).0 >= i64::MAX || grid_point(step, k).0 > k,
    decreases k,
{
    if k > 0 {
        fixed_grid_grows(step, (k - 1) as nat);
    }
}

/// The edges that a task window brings: its ends, where they lie before the end.
pub open spec fn window_edges<N: Scalar>(windows: Seq<(N, N)>, end: N) -> spec_fn(int) -> Seq<N> {
    |i: int|
        {
            let first = if windows[i].0.below(end) {
                seq![windows[i].0]
            } else {
                Seq::empty()
            };
            let second = if windows[i].1.below(end) {
                seq![windows[i].1]
            } else {
                Seq::empty()
            };
            first + second
        }
}

/// The edges that calendar changes bring: those strictly inside the horizon.
pub open spec fn change_edges<N: Scalar>(changes: Seq<N>, end: N) -> spec_fn(int) -> Seq<N> {
    |i: int|
        if N::of_whole(0).below(changes[i]) && changes[i].below(end) {
            seq![changes[i]]
        } else {
            Seq::empty()
        }
}

/// Every edge before sorting: both ends of the horizon, the regular steps, the
/// days, the windows and the calendar changes.
pub open spec fn edges<N: Scalar>(spec: HorizonSpec<N>, windows: Seq<(N, N)>, changes: Seq<N>) -> Seq<N> {
    seq![N::of_whole(0), spec.end_h] + grid(spec.regular_step_h, spec.end_h) + grid(N::of_whole(24), spec.end_h) + flat(
        windows.len(),
        window_edges(windows, spec.end_h),
    ) + flat(changes.len(), change_edges(changes, spec.end_h))
}

/// The order that edges are sorted in.
pub open spec fn edge_order<N: Scalar>() -> spec_fn(N, N) -> bool {
    |a: N, b: N| a.precedes(b)
}

/// The first `n` edges with each that lies within a billionth of an hour of the
/// one kept before it left out.
pub open spec fn fused<N: Scalar>(points: Seq<N>, n: nat) -> Seq<N>
    decreases n,
{
    if n == 0 {
        Seq::empty()
    } else {
        let kept = fused(points, (n - 1) as nat);
        if kept.len() > 0 && points[n - 1].minus(kept.last()).magnitude().at_most(N::of_decimal(1, 9)) {
            kept
        } else {
            kept.push(points[n - 1])
        }
    }
}

/// The edges of the intervals.
pub open spec fn interval_edges<N: Scalar>(spec: HorizonSpec<N>, windows: Seq<(N, N)>, changes: Seq<N>) -> Seq<N> {
    let sorted = edges(spec, windows, changes).sort_by(edge_order());
    fused(sorted, sorted.len())
}

/// The intervals between neighbouring edges, numbered in order.
pub open spec fn between<N: Scalar>(points: Seq<N>) -> Seq<Interval<N>> {
    Seq::new(
        if points.len() == 0 {
            0
        } else {
            (points.len() - 1) as nat
        },
        |i: int| Interval { index: i as usize, start_h: points[i], end_h: points[i + 1] },
    )
}

pub open spec fn window_check<N: Scalar>(windows: Seq<(N, N)>) -> spec_fn(int) -> Option<InputError> {
    |i: int|
        if !windows[i].0.finite() || !windows[i].1.finite() || windows[i].0.below(N::of_whole(0)) || windows[i].1.at_most(
            windows[i].0,
        ) {
            Some(InputError::InvalidWindow)
        } else {
            None
        }
}

pub open spec fn change_check<N: Scalar>(changes: Seq<N>) -> spec_fn(int) -> Option<InputError> {
    |i: int|
        if !changes[i].finite() || changes[i].below(N::of_whole(0)) {
            Some(InputError::InvalidIntervals)
        } else {
            None
        }
}

/// What is wrong with a horizon and its edges.
pub open spec fn horizon_error<N: Scalar>(
    spec: HorizonSpec<N>,
    windows: Seq<(N, N)>,
    changes: Seq<N>,
) -> Option<InputError> {
    if !positive(spec.end_h) {
        Some(InputError::NonPositive(InputField::Horizon))
    } else if !positive(spec.regular_step_h) {
        Some(InputError::NonPositive(InputField::IntervalStep))
    } else if !positive(spec.parcel_target_t) {
        Some(InputError::NonPositive(InputField::ParcelTarget))
    } else if first_from(0, windows.len() as int, window_check(windows)) is Some {
        first_from(0, windows.len() as int, window_check(windows))
    } else {
        first_from(0, changes.len() as int, change_check(changes))
    }
}

fn add_regular<N: Scalar>(step: N, end: N, points: &mut Vec<N>)
    requires
        grid_ends(step, end),
    ensures
        final(points)@ == old(points)@ + grid(step, end),
{
    let ghost bound = choose|k: nat| !(#[trigger] grid_point(step, k)).below(end);
    let ghost before = points@;
    let ghost mut k: nat = 0;
    let mut at = step;
    while at.is_below(end)
        invariant
            !grid_point(step, bound).below(end),
            at == grid_point(step, k),
            forall|m: nat| m < k ==> (#[trigger] grid_point(step, m)).below(end),
            points@ == before + Seq::new(k, |i: int| grid_point(step, i as nat)),
        decreases bound - k,
    {
        proof {
            if bound < k {
                assert(grid_point(step, bound).below(end));
            }
        }
        points.push(at);
        at = at.add(step);
        proof {
            k = k + 1;
        }
        assert(points@ =~= before + Seq::new(k, |i: int| grid_point(step, i as nat)));
    }
    proof {
        grid_reached(step, end, k);
    }
}

proof fn edges_totally_ordered<N: Scalar>()
    ensures
        total_ordering(edge_order::<N>()),
{
    let order = edge_order::<N>();
    assert forall|a: N| #[trigger] order(a, a) by {
        N::sorting_laws(a, a, a);
    }
    assert forall|a: N, b: N| #[trigger] order(a, b) && #[trigger] order(b, a) implies a == b by {
        N::sorting_laws(a, b, a);
    }
    assert forall|a: N, b: N, c: N| #[trigger] order(a, b) && #[trigger] order(b, c) implies order(a, c) by {
        N::sorting_laws(a, b, c);
    }
    assert forall|a: N, b: N| #[trigger] order(a, b) || #[trigger] order(b, a) by {
        N::sorting_laws(a, b, a);
    }
}

fn sorted<N: Scalar>(points: &Vec<N>) -> (r: Vec<N>)
    ensures
        r@ == points@.sort_by(edge_order()),
{
    let ghost order = edge_order::<N>();
    let mut out: Vec<N> = Vec::new();
    assert(out@ =~= points@.take(0));
    for i in 0..points.len()
        invariant
            order == edge_order::<N>(),
            sorted_by(out@, order),
            out@.to_multiset() == points@.take(i as int).to_multiset(),
            out@.len() == i,
    {
        let value = points[i];
        let mut at: usize = 0;
        while at < out.len() && out[at].comes_before(value)
            invariant
                at <= out@.len(),
                forall|j: int| 0 <= j < at ==> (#[trigger] out@[j]).precedes(value),
            decreases out@.len() - at,
        {
            at = at + 1;
        }
        let ghost before = out@;
        out.insert(at, value);
        proof {
            broadcast use vstd::seq_lib::group_to_multiset_ensures;

            assert(points@.take(i + 1) =~= points@.take(i as int).push(value));
            vstd::seq_lib::to_multiset_insert(before, at as int, value);
            assert forall|a: int, b: int| 0 <= a < b < out@.len() implies #[trigger] order(out@[a], out@[b]) by {
                N::sorting_laws(value, value, value);
                if at < before.len() {
                    N::sorting_laws(before[at as int], value, value);
                }
                if a == at {
                    if b > at + 1 {
                        assert(order(before[at as int], before[b - 1]));
                        N::sorting_laws(value, before[at as int], before[b - 1]);
                    }
                } else if b == at {
                } else {
                    let a0 = if a < at {
                        a
                    } else {
                        a - 1
                    };
                    let b0 = if b < at {
                        b
                    } else {
                        b - 1
                    };
                    assert(order(before[a0], before[b0]));
                }
            }
        }
    }
    proof {
        assert(points@.take(points@.len() as int) =~= points@);
        edges_totally_ordered::<N>();
        points@.lemma_sort_by_ensures(order);
        vstd::seq_lib::lemma_sorted_unique(out@, points@.sort_by(order), order);
    }
    out
}

fn add_windows<N: Scalar>(windows: &Vec<(N, N)>, end: N, points: &mut Vec<N>) -> (r: Option<InputError>)
    ensures
        r == first_from(0, windows@.len() as int, window_check(windows@)),
        r is None ==> final(points)@ == old(points)@ + flat(windows@.len(), window_edges(windows@, end)),
{
    let ghost base = points@;
    let ghost brought = window_edges(windows@, end);
    assert(base + flat(0, brought) =~= base);
    for i in 0..windows.len()
        invariant
            brought == window_edges(windows@, end),
            points@ == base + flat(i as nat, brought),
            first_from(0, windows@.len() as int, window_check(windows@)) == first_from(
                i as int,
                windows@.len() as int,
                window_check(windows@),
            ),
    {
        let (start, finish) = windows[i];
        if !start.is_finite() || !finish.is_finite() || start.is_below(N::whole(0)) || finish.is_at_most(start) {
            return Some(InputError::InvalidWindow);
        }
        if start.is_below(end) {
            points.push(start);
        }
        if finish.is_below(end) {
            points.push(finish);
        }
        assert(points@ =~= base + (flat(i as nat, brought) + brought(i as int)));
    }
    None
}

fn add_changes<N: Scalar>(changes: &Vec<N>, end: N, points: &mut Vec<N>) -> (r: Option<InputError>)
    ensures
        r == first_from(0, changes@.len() as int, change_check(changes@)),
        r is None ==> final(points)@ == old(points)@ + flat(changes@.len(), change_edges(changes@, end)),
{
    let ghost base = points@;
    let ghost brought = change_edges(changes@, end);
    assert(base + flat(0, brought) =~= base);
    for i in 0..changes.len()
        invariant
            brought == change_edges(changes@, end),
            points@ == base + flat(i as nat, brought),
            first_from(0, changes@.len() as int, change_check(changes@)) == first_from(
                i as int,
                changes@.len() as int,
                change_check(changes@),
            ),
    {
        let at = changes[i];
        if !at.is_finite() || at.is_below(N::whole(0)) {
            return Some(InputError::InvalidIntervals);
        }
        if N::whole(0).is_below(at) && at.is_below(end) {
            points.push(at);
        }
        assert(points@ =~= base + (flat(i as nat, brought) + brought(i as int)));
    }
    None
}

fn cut<N: Scalar>(points: &Vec<N>) -> (r: Vec<Interval<N>>)
    ensures
        r@ == between(fused(points@.sort_by(edge_order()), points@.sort_by(edge_order()).len())),
{
    let ordered = sorted(points);
    let mut kept: Vec<N> = Vec::new();
    for i in 0..ordered.len()
        invariant
            kept@ == fused(ordered@, i as nat),
    {
        if kept.len() > 0 && ordered[i].sub(kept[kept.len() - 1]).abs().is_at_most(N::decimal(1, 9)) {
        } else {
            kept.push(ordered[i]);
        }
    }
    let mut out: Vec<Interval<N>> = Vec::new();
    if kept.len() > 0 {
        for i in 0..kept.len() - 1
            invariant
                kept@.len() > 0,
                out@ =~= between(kept@).take(i as int),
        {
            out.push(Interval { index: i, start_h: kept[i], end_h: kept[i + 1] });
        }
    }
    assert(out@ =~= between(kept@));
    out
}

/// Cuts the horizon into intervals at every edge: the regular steps, the days,
/// the ends of the windows and the calendar changes, with edges that fall
/// together taken as one.
///
/// The grids of steps and of days have to come to the end of the horizon.
pub fn build_intervals<N: Scalar>(
    spec: HorizonSpec<N>,
    windows: &Vec<(N, N)>,
    calendar_changes_h: &Vec<N>,
) -> (r: Result<Vec<Interval<N>>, InputError>)
    requires
        positive(spec.end_h) && positive(spec.regular_step_h) ==> grid_ends(spec.regular_step_h, spec.end_h) && grid_ends(
            N::of_whole(24),
            spec.end_h,
        ),
    ensures
        match horizon_error(spec, windows@, calendar_changes_h@) {
            Some(error) => r == Err::<Vec<Interval<N>>, InputError>(error),
            None => r is Ok && r->Ok_0@ == between(interval_edges(spec, windows@, calendar_changes_h@)),
        },
{
    if !is_positive(spec.end_h) {
        return Err(InputError::NonPositive(InputField::Horizon));
    }
    if !is_positive(spec.regular_step_h) {
        return Err(InputError::NonPositive(InputField::IntervalStep));
    }
    if !is_positive(spec.parcel_target_t) {
        return Err(InputError::NonPositive(InputField::ParcelTarget));
    }
    let end = spec.end_h;
    let mut points: Vec<N> = Vec::new();
    points.push(N::whole(0));
    points.push(end);
    assert(points@ =~= seq![N::of_whole(0), end]);
    add_regular(spec.regular_step_h, end, &mut points);
    add_regular(N::whole(24), end, &mut points);
    if let Some(error) = add_windows(windows, end, &mut points) {
        return Err(error);
    }
    if let Some(error) = add_changes(calendar_changes_h, end, &mut points) {
        return Err(error);
    }
    Ok(cut(&points))
}

/// Intervals between edges follow one another: each starts where the one
/// before it ends, and is numbered by its place.
pub proof fn intervals_follow<N: Scalar>(spec: HorizonSpec<N>, windows: Seq<(N, N)>, changes: Seq<N>)
    ensures
        ({
            let intervals = between(interval_edges(spec, windows, changes));
            &&& forall|i: int| 0 <= i < intervals.len() - 1 ==> (#[trigger] intervals[i]).end_h == intervals[i + 1].start_h
            &&& intervals.len() <= usize::MAX ==> forall|i: int|
                0 <= i < intervals.len() ==> (#[trigger] intervals[i]).index == i
        }),
{
}

proof fn fused_apart<N: Scalar>(points: Seq<N>, n: nat)
    requires
        n <= points.len(),
    ensures
        forall|i: int|
            0 <= i < fused(points, n).len() - 1 ==> !((#[trigger] fused(points, n)[i + 1]).minus(
                fused(points, n)[i],
            ).magnitude().at_most(N::of_decimal(1, 9))),
        forall|i: int| 0 <= i < fused(points, n).len() ==> points.take(n as int).contains(#[trigger] fused(points, n)[i]),
    decreases n,
{
    if n > 0 {
        let m = (n - 1) as nat;
        fused_apart(points, m);
        let kept = fused(points, m);
        let now = fused(points, n);
        assert forall|i: int| 0 <= i < now.len() - 1 implies !((#[trigger] now[i + 1]).minus(now[i]).magnitude().at_most(
            N::of_decimal(1, 9),
        )) by {
            if i + 1 < kept.len() {
                assert(kept[i + 1] == now[i + 1]);
            }
        }
        assert forall|i: int| 0 <= i < now.len() implies points.take(n as int).contains(#[trigger] now[i]) by {
            if i < kept.len() {
                assert(points.take(m as int).contains(kept[i]));
                let j = choose|j: int| 0 <= j < m && points.take(m as int)[j] == kept[i];
                assert(points.take(n as int)[j] == now[i]);
            } else {
                assert(points.take(n as int)[n - 1] == now[i]);
            }
        }
    }
}

/// No interval is shorter than the distance within which edges fall together,
/// and every edge is one that was asked for.
pub proof fn intervals_apart<N: Scalar>(spec: HorizonSpec<N>, windows: Seq<(N, N)>, changes: Seq<N>)
    ensures
        ({
            let kept = interval_edges(spec, windows, changes);
            &&& forall|i: int|
                0 <= i < kept.len() - 1 ==> !((#[trigger] kept[i + 1]).minus(kept[i]).magnitude().at_most(
                    N::of_decimal(1, 9),
                ))
            &&& forall|i: int| 0 <= i < kept.len() ==> edges(spec, windows, changes).contains(#[trigger] kept[i])
        }),
{
    let all = edges(spec, windows, changes);
    let ordered = all.sort_by(edge_order());
    fused_apart(ordered, ordered.len());
    assert(ordered.take(ordered.len() as int) =~= ordered);
    edges_totally_ordered::<N>();
    all.lemma_sort_by_ensures(edge_order());
    let kept = interval_edges(spec, windows, changes);
    assert forall|i: int| 0 <= i < kept.len() implies all.contains(#[trigger] kept[i]) by {
        if !all.contains(kept[i]) {
            assert(!ordered.contains(kept[i]));
        }
    }
}

proof fn fused_rises(points: Seq<Fixed>, n: nat)
    requires
        0 < n <= points.len(),
        forall|i: int, j: int| 0 <= i <= j < points.len() ==> (#[trigger] points[i]).0 <= (#[trigger] points[j]).0,
        forall|i: int| 0 <= i < points.len() ==> 0 <= (#[trigger] points[i]).0,
    ensures
        fused(points, n).len() > 0,
        fused(points, n)[0] == points[0],
        forall|i: int| 0 <= i < fused(points, n).len() - 1 ==> (#[trigger] fused(points, n)[i]).0 < fused(points, n)[i + 1].0,
        fused(points, n).last().0 <= points[n - 1].0 <= fused(points, n).last().0 + 1,
        points.take(n as int).contains(fused(points, n).last()),
    decreases n,
{
    assert(Fixed::of_decimal(1, 9).0 == 1) by {
        reveal_with_fuel(crate::scalar::shrunk, 10);
    }
    if n > 1 {
        let m = (n - 1) as nat;
        fused_rises(points, m);
        let kept = fused(points, m);
        let now = fused(points, n);
        assert(points[m - 1].0 <= points[n - 1].0);
        let gap = points[n - 1].minus(kept.last()).magnitude();
        assert(gap.0 == points[n - 1].0 - kept.last().0);
        if gap.0 <= 1 {
            assert(now == kept);
            let j = choose|j: int| 0 <= j < m && points.take(m as int)[j] == kept.last();
            assert(points.take(n as int)[j] == kept.last());
        } else {
            assert(now == kept.push(points[n - 1]));
            assert(points.take(n as int)[n - 1] == now.last());
            assert forall|i: int| 0 <= i < now.len() - 1 implies (#[trigger] now[i]).0 < now[i + 1].0 by {
                if i < kept.len() - 1 {
                    assert(kept[i].0 < kept[i + 1].0);
                }
            }
        }
    } else {
        assert(fused(points, 0) =~= Seq::empty());
        assert(fused(points, 1) =~= seq![points[0]]);
        assert(points.take(1)[0] == points[0]);
    }
}

proof fn grid_below(step: Fixed, end: Fixed, k: nat)
    requires
        step.0 > 0,
    ensures
        grid_point(step, k).0 > 0,
    decreases k,
{
    if k > 0 {
        grid_below(step, end, (k - 1) as nat);
    }
}

proof fn flat_holds(n: nat, f: spec_fn(int) -> Seq<Fixed>, end: Fixed)
    requires
        forall|i: int, j: int| 0 <= i < n && 0 <= j < (#[trigger] f(i)).len() ==> 0 <= (#[trigger] f(i)[j]).0 <= end.0,
    ensures
        forall|k: int| 0 <= k < flat(n, f).len() ==> 0 <= (#[trigger] flat(n, f)[k]).0 <= end.0,
    decreases n,
{
    if n > 0 {
        flat_holds((n - 1) as nat, f, end);
        let before = flat((n - 1) as nat, f);
        assert forall|k: int| 0 <= k < flat(n, f).len() implies 0 <= (#[trigger] flat(n, f)[k]).0 <= end.0 by {
            if k < before.len() {
                assert(flat(n, f)[k] == before[k]);
            } else {
                assert(flat(n, f)[k] == f(n - 1)[k - before.len()]);
            }
        }
    }
}

proof fn no_error_at<E>(i: int, n: int, f: spec_fn(int) -> Option<E>, k: int)
    requires
        first_from(i, n, f) is None,
        i <= k < n,
    ensures
        f(k) is None,
    decreases n - i,
{
    if i < k {
        no_error_at(i + 1, n, f, k);
    }
}

spec fn lie_within(points: Seq<Fixed>, end: Fixed) -> bool {
    forall|k: int| 0 <= k < points.len() ==> 0 <= (#[trigger] points[k]).0 <= end.0
}

proof fn joined_within(a: Seq<Fixed>, b: Seq<Fixed>, end: Fixed)
    requires
        lie_within(a, end),
        lie_within(b, end),
    ensures
        lie_within(a + b, end),
{
    assert forall|k: int| 0 <= k < (a + b).len() implies 0 <= (#[trigger] (a + b)[k]).0 <= end.0 by {
        if k < a.len() {
            assert((a + b)[k] == a[k]);
        } else {
            assert((a + b)[k] == b[k - a.len()]);
        }
    }
}

proof fn grid_first(step: Fixed, end: Fixed, k: nat) -> (c: nat)
    requires
        !grid_point(step, k).below(end),
    ensures
        !grid_point(step, c).below(end),
        forall|m: nat| m < c ==> (#[trigger] grid_point(step, m)).below(end),
    decreases k,
{
    if forall|m: nat| m < k ==> (#[trigger] grid_point(step, m)).below(end) {
        k
    } else {
        let m = choose|m: nat| m < k && !(#[trigger] grid_point(step, m)).below(end);
        grid_first(step, end, m)
    }
}

proof fn grid_stays_below(step: Fixed, end: Fixed, k: nat)
    requires
        grid_ends(step, end),
        k < grid_count(step, end),
    ensures
        grid_point(step, k).below(end),
{
    let far = choose|k: nat| !(#[trigger] grid_point(step, k)).below(end);
    let c = grid_first(step, end, far);
    grid_reached(step, end, c);
}

proof fn grid_within(step: Fixed, end: Fixed)
    requires
        positive(step),
        end.finite(),
    ensures
        lie_within(grid(step, end), end),
{
    fixed_grid_ends(step, end);
    let points = grid(step, end);
    assert forall|k: int| 0 <= k < points.len() implies 0 <= (#[trigger] points[k]).0 <= end.0 by {
        grid_below(step, end, k as nat);
        grid_stays_below(step, end, k as nat);
    }
}

proof fn edges_lie_within(spec: HorizonSpec<Fixed>, windows: Seq<(Fixed, Fixed)>, changes: Seq<Fixed>)
    requires
        horizon_error(spec, windows, changes) is None,
    ensures
        lie_within(edges(spec, windows, changes), spec.end_h),
{
    let end = spec.end_h;
    let (a, b) = (grid(spec.regular_step_h, end), grid(Fixed::of_whole(24), end));
    let w = flat(windows.len(), window_edges(windows, end));
    let c = flat(changes.len(), change_edges(changes, end));
    let ends = seq![Fixed::of_whole(0), end];
    grid_within(spec.regular_step_h, end);
    grid_within(Fixed::of_whole(24), end);
    assert forall|i: int, j: int| 0 <= i < windows.len() && 0 <= j < (#[trigger] window_edges(windows, end)(i)).len() implies 0
        <= (#[trigger] window_edges(windows, end)(i)[j]).0 <= end.0 by {
        no_error_at(0, windows.len() as int, window_check(windows), i);
        assert(window_check(windows)(i) is None);
    }
    flat_holds(windows.len(), window_edges(windows, end), end);
    flat_holds(changes.len(), change_edges(changes, end), end);
    joined_within(ends, a, end);
    joined_within(ends + a, b, end);
    joined_within(ends + a + b, w, end);
    joined_within(ends + a + b + w, c, end);
}

/// The intervals cover the horizon: the first starts at zero, the last ends
/// where the horizon does, and each has some length. An edge that falls together
/// with the end of the horizon without being it is left out of this.
pub proof fn horizon_is_covered(spec: HorizonSpec<Fixed>, windows: Seq<(Fixed, Fixed)>, changes: Seq<Fixed>)
    requires
        horizon_error(spec, windows, changes) is None,
        spec.end_h.0 > 1,
        forall|k: int|
            0 <= k < edges(spec, windows, changes).len() ==> (#[trigger] edges(spec, windows, changes)[k]) == spec.end_h
                || edges(spec, windows, changes)[k].0 + 1 < spec.end_h.0,
    ensures
        ({
            let intervals = between(interval_edges(spec, windows, changes));
            &&& intervals.len() > 0
            &&& intervals[0].start_h == Fixed::of_whole(0)
            &&& intervals.last().end_h == spec.end_h
            &&& forall|i: int| 0 <= i < intervals.len() ==> (#[trigger] intervals[i]).start_h.below(intervals[i].end_h)
        }),
{
    let all = edges(spec, windows, changes);
    let ordered = all.sort_by(edge_order());
    edges_totally_ordered::<Fixed>();
    all.lemma_sort_by_ensures(edge_order());
    edges_lie_within(spec, windows, changes);
    broadcast use vstd::seq_lib::group_to_multiset_ensures;

    assert forall|i: int| 0 <= i < ordered.len() implies 0 <= (#[trigger] ordered[i]).0 <= spec.end_h.0 && (ordered[i]
        == spec.end_h || ordered[i].0 + 1 < spec.end_h.0) by {
        assert(ordered.contains(ordered[i]));
        if !all.contains(ordered[i]) {
            assert(!ordered.contains(ordered[i]));
        }
        let k = choose|k: int| 0 <= k < all.len() && all[k] == ordered[i];
        assert(all[k] == ordered[i]);
    }
    assert forall|i: int, j: int| 0 <= i <= j < ordered.len() implies (#[trigger] ordered[i]).0 <= (#[trigger] ordered[j]).0 by {
        if i < j {
            assert(edge_order::<Fixed>()(ordered[i], ordered[j]));
        }
    }
    assert(all[0] == Fixed::of_whole(0) && all[1] == spec.end_h);
    assert(all.contains(all[0]) && all.contains(all[1]));
    assert(all.to_multiset().count(all[0]) > 0 && all.to_multiset().count(all[1]) > 0);
    assert(ordered.contains(all[0]) && ordered.contains(all[1]));
    let z = choose|z: int| 0 <= z < ordered.len() && ordered[z] == all[0];
    let e = choose|e: int| 0 <= e < ordered.len() && ordered[e] == all[1];
    assert(ordered[0].0 <= ordered[z].0);
    assert(ordered[e].0 <= ordered[ordered.len() - 1].0);
    assert(ordered[0] == Fixed(0));
    assert(ordered[ordered.len() - 1] == spec.end_h);
    fused_rises(ordered, ordered.len());
    let kept = interval_edges(spec, windows, changes);
    assert(ordered.take(ordered.len() as int) =~= ordered);
    let l = choose|l: int| 0 <= l < ordered.len() && ordered[l] == kept.last();
    assert(ordered[l] == kept.last());
    assert(kept.last() == spec.end_h);
    assert(kept.len() > 1);
}

} // verus!
