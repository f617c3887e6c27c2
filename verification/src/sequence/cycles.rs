//! What holds of a ring wherever it is written from: rings are compared as
//! cycles, without a first point.
use vstd::prelude::*;

use crate::listing::flat;
use crate::sequence::footprint::{
    area_to, canonical, canonical_ring, corner, corners, deduplicated, digest, essential, fresh, opened,
    ring_step, started_at, thinned, twice_area, unclosed, wedge, written, LatticePoint,
};
use crate::sequence::laws::{turned, turned_area, turned_at, turned_written, turns};

verus! {

/// Two rings are the same cycle, written from different points.
pub open spec fn alike(a: Seq<LatticePoint>, b: Seq<LatticePoint>) -> bool {
    exists|k: int| 0 <= k <= a.len() && b == #[trigger] started_at(a, k)
}

pub(crate) proof fn alike_self(a: Seq<LatticePoint>)
    ensures
        alike(a, a),
{
    assert(started_at(a, 0) =~= a);
}

pub(crate) proof fn alike_back(a: Seq<LatticePoint>, b: Seq<LatticePoint>)
    requires
        alike(a, b),
    ensures
        alike(b, a),
        a.len() == b.len(),
{
    let k = choose|k: int| 0 <= k <= a.len() && b == #[trigger] started_at(a, k);
    assert(started_at(b, a.len() - k) =~= a);
}

pub(crate) proof fn alike_through(a: Seq<LatticePoint>, b: Seq<LatticePoint>, c: Seq<LatticePoint>)
    requires
        alike(a, b),
        alike(b, c),
    ensures
        alike(a, c),
{
    let k = choose|k: int| 0 <= k <= a.len() && b == #[trigger] started_at(a, k);
    let j = choose|j: int| 0 <= j <= b.len() && c == #[trigger] started_at(b, j);
    let n = a.len() as int;
    if k + j <= n {
        assert(started_at(a, k + j) =~= c);
    } else {
        assert(started_at(a, k + j - n) =~= c);
    }
}

proof fn alike_turned(a: Seq<LatticePoint>)
    requires
        a.len() > 0,
    ensures
        alike(a, turned(a)),
{
    assert(turned(a) == started_at(a, 1));
}

proof fn one_further(a: Seq<LatticePoint>, k: int)
    requires
        0 <= k < a.len(),
    ensures
        started_at(a, k + 1) == turned(started_at(a, k)),
{
    assert(started_at(a, k + 1) =~= started_at(started_at(a, k), 1));
}

// Lists of parts.

pub(crate) open spec fn later(f: spec_fn(int) -> Seq<LatticePoint>) -> spec_fn(int) -> Seq<LatticePoint> {
    |i: int| f(i + 1)
}

pub(crate) proof fn flat_first(n: nat, f: spec_fn(int) -> Seq<LatticePoint>)
    requires
        n > 0,
    ensures
        flat(n, f) == f(0) + flat((n - 1) as nat, later(f)),
    decreases n,
{
    if n == 1 {
        assert(flat(0, f) =~= Seq::empty());
        assert(flat(1, f) == flat(0, f) + f(0));
        assert(flat(0, later(f)) =~= Seq::empty());
        assert(flat(1, f) =~= f(0) + flat(0, later(f)));
    } else {
        flat_first((n - 1) as nat, f);
        assert(flat((n - 1) as nat, later(f)) == flat((n - 2) as nat, later(f)) + later(f)(n - 2));
        assert(flat(n, f) =~= f(0) + flat((n - 1) as nat, later(f)));
    }
}

pub(crate) proof fn flat_same(n: nat, f: spec_fn(int) -> Seq<LatticePoint>, g: spec_fn(int) -> Seq<LatticePoint>)
    requires
        forall|i: int| 0 <= i < n ==> #[trigger] f(i) == g(i),
    ensures
        flat(n, f) == flat(n, g),
    decreases n,
{
    if n > 0 {
        flat_same((n - 1) as nat, f, g);
        assert(f(n - 1) == g(n - 1));
    }
}

/// Parts that are listed from the second on, with the first at the end.
proof fn flat_turned(n: nat, f: spec_fn(int) -> Seq<LatticePoint>, g: spec_fn(int) -> Seq<LatticePoint>)
    requires
        n > 0,
        f(0).len() <= 1,
        g(n - 1) == f(0),
        forall|i: int| 0 <= i < n - 1 ==> #[trigger] g(i) == f(i + 1),
    ensures
        alike(flat(n, f), flat(n, g)),
{
    let m = (n - 1) as nat;
    flat_first(n, f);
    assert forall|i: int| 0 <= i < m implies #[trigger] g(i) == later(f)(i) by {}
    flat_same(m, g, later(f));
    let rest = flat(m, later(f));
    assert(flat(n, g) == rest + f(0));
    if f(0).len() == 0 {
        assert(flat(n, g) =~= flat(n, f));
        alike_self(flat(n, f));
    } else {
        assert(started_at(flat(n, f), 1) =~= flat(n, g));
    }
}

// Repeats.

/// A ring without repeats, also across the side that closes it.
pub open spec fn distinct(points: Seq<LatticePoint>) -> Seq<LatticePoint> {
    opened(deduplicated(points))
}

/// A point that differs from the one before it, around the ring.
spec fn changed(points: Seq<LatticePoint>) -> spec_fn(int) -> Seq<LatticePoint> {
    |i: int|
        if points[i] == points[(i + points.len() - 1) % points.len() as int] {
            Seq::empty()
        } else {
            seq![points[i]]
        }
}

spec fn changes(points: Seq<LatticePoint>) -> Seq<LatticePoint> {
    flat(points.len(), changed(points))
}

proof fn last_stays(points: Seq<LatticePoint>, n: nat)
    requires
        0 < n <= points.len(),
    ensures
        flat(n, fresh(points)).len() > 0,
        flat(n, fresh(points)).last() == points[n - 1],
        flat(n, fresh(points))[0] == points[0],
    decreases n,
{
    let f = fresh(points);
    assert(flat(n, f) == flat((n - 1) as nat, f) + f(n - 1));
    if n > 1 {
        last_stays(points, (n - 1) as nat);
        if f(n - 1).len() == 0 {
            assert(flat(n, f) =~= flat((n - 1) as nat, f));
        }
    } else {
        assert(flat(0, f) =~= Seq::empty());
        assert(flat(1, f) =~= seq![points[0]]);
    }
}

/// Leaving out repeats around a ring is leaving out each point that repeats the
/// one before it, unless all are the same.
proof fn distinct_changes(points: Seq<LatticePoint>)
    requires
        points.len() > 0,
    ensures
        changes(points).len() == 0 ==> distinct(points) == seq![points[0]],
        changes(points).len() > 0 ==> alike(changes(points), distinct(points)),
{
    let n = points.len();
    let (f, c) = (fresh(points), changed(points));
    flat_first(n, f);
    flat_first(n, c);
    let m = (n - 1) as nat;
    assert forall|i: int| 0 <= i < m implies #[trigger] later(c)(i) == later(f)(i) by {
        turns(i + 1, n as int);
    }
    flat_same(m, later(c), later(f));
    turns(0, n as int);
    let rest = flat(m, later(f));
    last_stays(points, n);
    let all = deduplicated(points);
    assert(all == seq![points[0]] + rest);
    if points[0] != points.last() {
        assert(changes(points) =~= all);
        assert(opened(all) == all);
        alike_self(all);
    } else {
        assert(changes(points) =~= rest);
        if rest.len() == 0 {
            assert(all =~= seq![points[0]]);
        } else {
            assert(all.last() == rest.last());
            assert(opened(all) == all.drop_last());
            assert(started_at(rest, rest.len() - 1) =~= all.drop_last());
        }
    }
}

proof fn changes_turned(points: Seq<LatticePoint>)
    requires
        points.len() > 0,
    ensures
        alike(changes(points), changes(turned(points))),
{
    let n = points.len();
    let now = turned(points);
    let (f, g) = (changed(points), changed(now));
    turned_at(points, n - 1);
    assert forall|i: int| 0 <= i < n implies #[trigger] g(i) == f(if i + 1 == n {
        0
    } else {
        i + 1
    }) by {
        let k = if i + 1 == n {
            0
        } else {
            i + 1
        };
        turns(i, n as int);
        turns(k, n as int);
        turned_at(points, i);
        turned_at(points, (i + n - 1) % n as int);
        turns((i + n - 1) % n as int, n as int);
    }
    assert(g(n - 1) == f(0));
    assert forall|i: int| 0 <= i < n - 1 implies #[trigger] g(i) == f(i + 1) by {}
    flat_turned(n, f, g);
}

proof fn distinct_turned(points: Seq<LatticePoint>)
    requires
        points.len() > 0,
    ensures
        alike(distinct(points), distinct(turned(points))),
{
    let now = turned(points);
    turned_at(points, 0);
    distinct_changes(points);
    distinct_changes(now);
    changes_turned(points);
    alike_back(changes(points), changes(now));
    if changes(points).len() == 0 {
        all_same(points);
        assert(now[0] == points[0]) by {
            if points.len() > 1 {
                assert(points[1] == points[0]);
            }
        }
        alike_self(distinct(points));
    } else {
        alike_back(changes(points), distinct(points));
        alike_through(distinct(points), changes(points), changes(now));
        alike_through(distinct(points), changes(now), distinct(now));
    }
}

proof fn all_same(points: Seq<LatticePoint>)
    requires
        points.len() > 0,
        changes(points).len() == 0,
    ensures
        forall|i: int| 0 <= i < points.len() ==> #[trigger] points[i] == points[0],
{
    assert forall|i: int| 0 <= i < points.len() implies #[trigger] points[i] == points[0] by {
        none_changes(points, points.len(), i);
    }
}

proof fn none_changes(points: Seq<LatticePoint>, n: nat, i: int)
    requires
        0 <= i < n <= points.len(),
        flat(n, changed(points)).len() == 0,
    ensures
        points[i] == points[0],
    decreases n,
{
    let m = (n - 1) as nat;
    assert(flat(n, changed(points)) == flat(m, changed(points)) + changed(points)(n - 1));
    if i < n - 1 {
        none_changes(points, m, i);
    } else if i > 0 {
        turns(i, points.len() as int);
        assert(changed(points)(i).len() == 0);
        none_changes(points, m, i - 1);
    }
}

pub(crate) proof fn distinct_unclosed(points: Seq<LatticePoint>)
    requires
        points.len() > 0,
    ensures
        unclosed(points).len() > 0,
        alike(distinct(points), distinct(unclosed(points))),
    decreases points.len(),
{
    if points.len() > 1 && points[0] == points.last() {
        let fewer = points.drop_last();
        distinct_unclosed(fewer);
        let n = points.len();
        let m = (n - 1) as nat;
        let f = fresh(points);
        assert forall|i: int| 0 <= i < m implies #[trigger] f(i) == fresh(fewer)(i) by {}
        flat_same(m, f, fresh(fewer));
        last_stays(points, n);
        last_stays(fewer, m);
        let (all, some) = (deduplicated(points), deduplicated(fewer));
        assert(all == some + f(m as int));
        if f(m as int).len() == 0 {
            assert(all =~= some);
        } else {
            assert(opened(all) =~= some);
            assert(fewer.last() != points[0]);
            assert(opened(some) == some);
        }
    } else {
        alike_self(distinct(points));
    }
}

// Corners.

proof fn corners_turned(points: Seq<LatticePoint>)
    requires
        points.len() > 0,
    ensures
        alike(corners(points), corners(turned(points))),
{
    let n = points.len();
    let now = turned(points);
    let (f, g) = (corner(points), corner(now));
    turned_at(points, n - 1);
    assert forall|i: int| 0 <= i < n implies #[trigger] g(i) == f(if i + 1 == n {
        0
    } else {
        i + 1
    }) by {
        let k = if i + 1 == n {
            0
        } else {
            i + 1
        };
        turns(i, n as int);
        turns(k, n as int);
        let before = (i + n - 1) % n as int;
        let after = (i + 1) % n as int;
        turned_at(points, i);
        turned_at(points, before);
        turned_at(points, after);
        turns(before, n as int);
        turns(after, n as int);
    }
    assert(g(n - 1) == f(0));
    assert forall|i: int| 0 <= i < n - 1 implies #[trigger] g(i) == f(i + 1) by {}
    flat_turned(n, f, g);
    distinct_alike(flat(n, f), flat(n, g));
}

pub(crate) proof fn distinct_nothing()
    ensures
        distinct(Seq::<LatticePoint>::empty()) == Seq::<LatticePoint>::empty(),
{
    let none = Seq::<LatticePoint>::empty();
    assert(flat(0, fresh(none)) =~= none);
}

proof fn distinct_alike(a: Seq<LatticePoint>, b: Seq<LatticePoint>)
    requires
        alike(a, b),
    ensures
        alike(distinct(a), distinct(b)),
{
    let k = choose|k: int| 0 <= k <= a.len() && b == #[trigger] started_at(a, k);
    if a.len() == 0 {
        assert(b =~= a);
        alike_self(distinct(a));
    } else {
        distinct_started(a, k);
    }
}

proof fn distinct_started(a: Seq<LatticePoint>, k: int)
    requires
        0 <= k <= a.len(),
        a.len() > 0,
    ensures
        alike(distinct(a), distinct(started_at(a, k))),
    decreases k,
{
    if k == 0 {
        assert(started_at(a, 0) =~= a);
        alike_self(distinct(a));
    } else {
        distinct_started(a, k - 1);
        one_further(a, k - 1);
        distinct_turned(started_at(a, k - 1));
        alike_through(distinct(a), distinct(started_at(a, k - 1)), distinct(started_at(a, k)));
    }
}

proof fn corners_started(a: Seq<LatticePoint>, k: int)
    requires
        0 <= k <= a.len(),
        a.len() > 0,
    ensures
        alike(corners(a), corners(started_at(a, k))),
    decreases k,
{
    if k == 0 {
        assert(started_at(a, 0) =~= a);
        alike_self(corners(a));
    } else {
        corners_started(a, k - 1);
        one_further(a, k - 1);
        corners_turned(started_at(a, k - 1));
        alike_through(corners(a), corners(started_at(a, k - 1)), corners(started_at(a, k)));
    }
}

pub(crate) proof fn thinned_alike(a: Seq<LatticePoint>, b: Seq<LatticePoint>)
    requires
        alike(a, b),
        a.len() > 0,
    ensures
        alike(thinned(a), thinned(b)),
    decreases a.len(),
{
    let k = choose|k: int| 0 <= k <= a.len() && b == #[trigger] started_at(a, k);
    corners_started(a, k);
    alike_back(corners(a), corners(b));
    let next = corners(a);
    if next.len() < a.len() && next.len() >= 3 {
        thinned_alike(next, corners(b));
    }
}

pub(crate) proof fn essential_alike(a: Seq<LatticePoint>, b: Seq<LatticePoint>)
    requires
        a.len() > 0,
        b.len() > 0,
        alike(distinct(a), distinct(b)),
    ensures
        alike(essential(a), essential(b)),
{
    distinct_unclosed(a);
    distinct_unclosed(b);
    let (x, y) = (distinct(unclosed(a)), distinct(unclosed(b)));
    alike_back(distinct(a), x);
    alike_through(x, distinct(a), distinct(b));
    alike_through(x, distinct(b), y);
    alike_back(x, y);
    if x.len() >= 3 {
        thinned_alike(x, y);
    }
}

// Areas.

/// The area of a ring does not depend on where it is written from.
pub proof fn started_area(points: Seq<LatticePoint>, k: int)
    requires
        0 <= k <= points.len(),
    ensures
        twice_area(started_at(points, k)) == twice_area(points),
    decreases k,
{
    if k == 0 {
        assert(started_at(points, 0) =~= points);
    } else {
        started_area(points, k - 1);
        one_further(points, k - 1);
        turned_area(started_at(points, k - 1));
    }
}

/// A ring moved as a whole.
pub open spec fn is_moved(points: Seq<LatticePoint>, moved: Seq<LatticePoint>, dx: int, dy: int) -> bool {
    &&& moved.len() == points.len()
    &&& forall|i: int|
        0 <= i < points.len() ==> (#[trigger] moved[i]).x == points[i].x + dx && moved[i].y == points[i].y + dy
}

proof fn moved_wedges(points: Seq<LatticePoint>, moved: Seq<LatticePoint>, dx: int, dy: int, n: nat)
    requires
        is_moved(points, moved, dx, dy),
        n < points.len(),
    ensures
        area_to(moved, n) == area_to(points, n) + dx * (points[n as int].y - points[0].y) - dy * (points[n as int].x
            - points[0].x),
    decreases n,
{
    if n == 0 {
        assert(dx * (points[0].y - points[0].y) == 0) by (nonlinear_arith);
        assert(dy * (points[0].x - points[0].x) == 0) by (nonlinear_arith);
    } else {
        let i = n - 1;
        moved_wedges(points, moved, dx, dy, i as nat);
        turns(i, points.len() as int);
        let (a, b) = (points[i], points[i + 1]);
        let (c, d) = (moved[i], moved[i + 1]);
        moved_side(a, b, c, d, dx, dy);
        let z = points[0];
        assert(dx * (a.y - z.y) + dx * (b.y - a.y) == dx * (b.y - z.y)) by (nonlinear_arith);
        assert(dy * (a.x - z.x) + dy * (b.x - a.x) == dy * (b.x - z.x)) by (nonlinear_arith);
    }
}

proof fn moved_side(a: LatticePoint, b: LatticePoint, c: LatticePoint, d: LatticePoint, dx: int, dy: int)
    requires
        c.x == a.x + dx,
        c.y == a.y + dy,
        d.x == b.x + dx,
        d.y == b.y + dy,
    ensures
        c.x * d.y - c.y * d.x == (a.x * b.y - a.y * b.x) + dx * (b.y - a.y) - dy * (b.x - a.x),
{
    let (ax, ay, bx, by) = (a.x as int, a.y as int, b.x as int, b.y as int);
    assert((ax + dx) * (by + dy) - (ay + dy) * (bx + dx) == (ax * by - ay * bx) + dx * (by - ay) - dy * (bx - ax))
        by (nonlinear_arith);
}

/// The area of a ring does not depend on where it lies.
pub proof fn moved_area(points: Seq<LatticePoint>, moved: Seq<LatticePoint>, dx: int, dy: int)
    requires
        is_moved(points, moved, dx, dy),
    ensures
        twice_area(moved) == twice_area(points),
{
    if points.len() > 0 {
        let n = points.len() as int;
        let i = n - 1;
        moved_wedges(points, moved, dx, dy, i as nat);
        turns(i, n);
        let (a, b) = (points[i], points[0]);
        moved_side(a, b, moved[i], moved[0], dx, dy);
        assert(dx * (a.y - b.y) + dx * (b.y - a.y) == 0) by (nonlinear_arith);
        assert(dy * (a.x - b.x) + dy * (b.x - a.x) == 0) by (nonlinear_arith);
        assert(wedge(moved, i) == moved[i].x * moved[0].y - moved[i].y * moved[0].x);
        assert(wedge(points, i) == a.x * b.y - a.y * b.x);
    }
}

// The way a ring is written.

pub(crate) proof fn written_started(points: Seq<LatticePoint>, k: int)
    requires
        0 <= k <= points.len(),
    ensures
        written(started_at(points, k)) == written(points),
    decreases k,
{
    if k == 0 {
        assert(started_at(points, 0) =~= points);
    } else {
        written_started(points, k - 1);
        one_further(points, k - 1);
        turned_written(started_at(points, k - 1));
    }
}

pub(crate) proof fn written_alike(a: Seq<LatticePoint>, b: Seq<LatticePoint>)
    requires
        alike(essential(a), essential(b)),
    ensures
        canonical_ring(b) == canonical_ring(a),
{
    let (x, y) = (essential(a), essential(b));
    alike_back(x, y);
    if x.len() >= 3 {
        let k = choose|k: int| 0 <= k <= x.len() && y == #[trigger] started_at(x, k);
        written_started(x, k);
    }
}

/// Where a ring is written from does not matter, whatever points it has.
pub proof fn any_start_will_do(points: Seq<LatticePoint>, k: int)
    requires
        0 <= k <= points.len(),
    ensures
        canonical_ring(started_at(points, k)) == canonical_ring(points),
{
    if points.len() == 0 {
        assert(started_at(points, k) =~= points);
    } else {
        distinct_started(points, k);
        essential_alike(points, started_at(points, k));
        written_alike(points, started_at(points, k));
    }
}

proof fn repeat_is_dropped(points: Seq<LatticePoint>, at: int, n: nat)
    requires
        0 <= at < points.len(),
        n <= points.len(),
    ensures
        n <= at ==> flat(n, fresh(points.insert(at, points[at]))) == flat(n, fresh(points)),
        n > at ==> flat((n + 1) as nat, fresh(points.insert(at, points[at]))) == flat(n, fresh(points)),
    decreases n,
{
    let more = points.insert(at, points[at]);
    let (f, g) = (fresh(points), fresh(more));
    if n > 0 {
        let m = (n - 1) as nat;
        repeat_is_dropped(points, at, m);
        assert(flat(n, f) == flat(m, f) + f(m as int));
        if n <= at {
            assert(flat(n, g) == flat(m, g) + g(m as int));
            assert(g(m as int) == f(m as int));
        } else if m == at {
            assert(flat(m, g) == flat(m, f));
            assert(g(m as int) == f(m as int));
            assert(flat(n, g) == flat(m, g) + g(m as int));
            assert(g(n as int) == Seq::<LatticePoint>::empty());
            assert(flat((n + 1) as nat, g) =~= flat(n, g));
        } else {
            assert(g(n as int) == f(m as int));
            assert(flat((n + 1) as nat, g) == flat(n, g) + g(n as int));
        }
    }
}

/// A repeated point does not matter.
pub proof fn repeats_do_not_matter(points: Seq<LatticePoint>, at: int)
    requires
        0 <= at < points.len(),
    ensures
        canonical_ring(points.insert(at, points[at])) == canonical_ring(points),
{
    let more = points.insert(at, points[at]);
    repeat_is_dropped(points, at, points.len());
    assert(deduplicated(more) == deduplicated(points));
    alike_self(distinct(points));
    essential_alike(points, more);
    written_alike(points, more);
}

pub(crate) proof fn distinct_again(points: Seq<LatticePoint>)
    requires
        points.len() > 0,
    ensures
        distinct(points).len() > 0,
        unclosed(distinct(points)) == distinct(points),
        distinct(distinct(points)) == distinct(points),
{
    let once = distinct(points);
    let all = deduplicated(points);
    last_stays(points, points.len());
    neighbours_differ(points, points.len());
    assert forall|i: int| 0 < i < once.len() implies #[trigger] once[i] != once[i - 1] by {
        assert(once[i] == all[i] && once[i - 1] == all[i - 1]);
    }
    if all.len() > 1 && all[0] == all.last() {
        assert(once.last() == all[all.len() - 2]);
        assert(all[all.len() - 1] != all[all.len() - 2]);
    }
    assert(once.len() > 1 ==> once[0] != once.last());
    whole_is_fresh(once, once.len());
    assert(once.take(once.len() as int) =~= once);
}

proof fn neighbours_differ(points: Seq<LatticePoint>, n: nat)
    requires
        n <= points.len(),
    ensures
        forall|i: int|
            0 < i < flat(n, fresh(points)).len() ==> #[trigger] flat(n, fresh(points))[i] != flat(n, fresh(points))[i - 1],
    decreases n,
{
    if n > 1 {
        let m = (n - 1) as nat;
        neighbours_differ(points, m);
        last_stays(points, m);
        let (before, now) = (flat(m, fresh(points)), flat(n, fresh(points)));
        assert(now == before + fresh(points)(n - 1));
        assert forall|i: int| 0 < i < now.len() implies #[trigger] now[i] != now[i - 1] by {
            assert(now[i - 1] == before[i - 1]);
            if i < before.len() {
                assert(now[i] == before[i]);
            }
        }
    } else if n == 1 {
        assert(flat(0, fresh(points)) =~= Seq::empty());
    }
}

pub(crate) proof fn whole_is_fresh(points: Seq<LatticePoint>, n: nat)
    requires
        n <= points.len(),
        forall|i: int| 0 < i < points.len() ==> #[trigger] points[i] != points[i - 1],
    ensures
        flat(n, fresh(points)) == points.take(n as int),
    decreases n,
{
    if n > 0 {
        whole_is_fresh(points, (n - 1) as nat);
        assert(points.take(n as int) =~= points.take(n - 1) + seq![points[n - 1]]);
        assert(fresh(points)(n - 1) == seq![points[n - 1]]);
    } else {
        assert(points.take(0) =~= Seq::empty());
    }
}

proof fn every_corner(points: Seq<LatticePoint>, n: nat)
    requires
        n <= points.len(),
        flat(n, corner(points)).len() == n,
    ensures
        flat(n, corner(points)) == points.take(n as int),
    decreases n,
{
    if n > 0 {
        let m = (n - 1) as nat;
        corner_count(points, m);
        assert(flat(n, corner(points)) == flat(m, corner(points)) + corner(points)(n - 1));
        every_corner(points, m);
        assert(points.take(n as int) =~= points.take(n - 1) + seq![points[n - 1]]);
    } else {
        assert(points.take(0) =~= Seq::empty());
    }
}

proof fn corner_count(points: Seq<LatticePoint>, n: nat)
    ensures
        flat(n, corner(points)).len() <= n,
    decreases n,
{
    if n > 0 {
        corner_count(points, (n - 1) as nat);
    }
}

pub(crate) proof fn fresh_count(points: Seq<LatticePoint>, n: nat)
    ensures
        flat(n, fresh(points)).len() <= n,
    decreases n,
{
    if n > 0 {
        fresh_count(points, (n - 1) as nat);
    }
}

proof fn corners_keep(points: Seq<LatticePoint>)
    ensures
        corners(points).len() <= points.len(),
        points.len() > 0 && distinct(points) == points && corners(points).len() == points.len() ==> corners(points)
            == points,
{
    let kept = flat(points.len(), corner(points));
    corner_count(points, points.len());
    fresh_count(kept, kept.len());
    if points.len() > 0 && distinct(points) == points && corners(points).len() == points.len() {
        every_corner(points, points.len());
        assert(points.take(points.len() as int) =~= points);
    }
}

/// Points on the sides of a ring do not matter, however many there are and on
/// whichever sides, nor do spikes: a ring is written as its corners are.
pub proof fn corners_are_enough(points: Seq<LatticePoint>)
    requires
        distinct(points).len() >= 3,
    ensures
        canonical_ring(corners(distinct(points))) == canonical_ring(points),
{
    if points.len() == 0 {
        distinct_nothing();
    }
    let once = distinct(points);
    distinct_again(points);
    // The ring itself, without repeats.
    alike_self(once);
    essential_alike(points, once);
    written_alike(points, once);
    let next = corners(once);
    corners_keep(once);
    assert(essential(once) == thinned(once));
    let kept = flat(once.len(), corner(once));
    if next.len() == 0 {
        assert(essential(next).len() < 3) by {
            assert(next =~= Seq::empty());
            distinct_nothing();
            assert(unclosed(next) == next);
        }
    } else {
        if kept.len() == 0 {
            distinct_nothing();
            assert(kept =~= Seq::empty());
        }
        distinct_again(kept);
        assert(next == distinct(kept));
        if next.len() == once.len() {
            assert(next == once);
        } else if next.len() >= 3 {
            assert(thinned(once) == thinned(next));
        }
    }
    assert(canonical_ring(next) == canonical_ring(once));
}

// Outlines.

pub(crate) proof fn steps_alike(a: Seq<Seq<LatticePoint>>, b: Seq<Seq<LatticePoint>>, n: nat)
    requires
        a.len() == b.len(),
        n <= a.len(),
        forall|i: int| 0 <= i < a.len() ==> canonical_ring(#[trigger] a[i]) == canonical_ring(b[i]),
    ensures
        crate::listing::folded(n, Seq::<Seq<LatticePoint>>::empty(), ring_step(a)) == crate::listing::folded(
            n,
            Seq::<Seq<LatticePoint>>::empty(),
            ring_step(b),
        ),
    decreases n,
{
    if n > 0 {
        steps_alike(a, b, (n - 1) as nat);
        assert(canonical_ring(a[n - 1]) == canonical_ring(b[n - 1]));
    }
}

/// Outlines whose rings are written the same way have the same digest, however
/// they were drawn.
pub proof fn same_rings_same_digest(a: Seq<Seq<LatticePoint>>, b: Seq<Seq<LatticePoint>>)
    requires
        a.len() == b.len(),
        forall|i: int| 0 <= i < a.len() ==> canonical_ring(#[trigger] a[i]) == canonical_ring(b[i]),
    ensures
        digest(canonical(a)) == digest(canonical(b)),
{
    steps_alike(a, b, a.len());
}

} // verus!
