//! What holds of a ring however it is drawn: points on a line and spikes do not
//! matter, whatever other points it has.
use vstd::prelude::*;

use crate::listing::flat;
use crate::sequence::cycles::{
    alike_self, any_start_will_do, corners_are_enough, distinct, distinct_again, distinct_nothing, essential_alike,
    flat_first, flat_same, later, repeats_do_not_matter, steps_alike, whole_is_fresh, written_alike,
};
use crate::sequence::footprint::{
    canonical, canonical_ring, corner, corners, cross, digest, essential, fresh, is_corner, started_at, thinned, unclosed,
    LatticePoint,
};
use crate::sequence::laws::{along_is_shared, cross_back, flat_skips, ring_order_does_not_matter, turns};
use crate::sequence::winding::either_direction_will_do;

verus! {

// Points on one line.

proof fn step_in_line(a: LatticePoint, b: LatticePoint, p: LatticePoint, q: LatticePoint)
    requires
        cross(a, b, p) == 0,
        cross(a, b, q) == 0,
    ensures
        (b.x - a.x) * (q.y - p.y) - (b.y - a.y) * (q.x - p.x) == 0,
{
    let (dx, dy) = (b.x - a.x, b.y - a.y);
    let (px, py, qx, qy) = (p.x - b.x, p.y - b.y, q.x - b.x, q.y - b.y);
    assert(dx * (qy - py) == dx * qy - dx * py) by (nonlinear_arith);
    assert(dy * (qx - px) == dy * qx - dy * px) by (nonlinear_arith);
    assert(q.y - p.y == qy - py && q.x - p.x == qx - px);
}

/// Three points on one line make no corner.
proof fn three_in_line(a: LatticePoint, b: LatticePoint, u: LatticePoint, v: LatticePoint, w: LatticePoint)
    requires
        a != b,
        cross(a, b, u) == 0,
        cross(a, b, v) == 0,
        cross(a, b, w) == 0,
    ensures
        cross(u, v, w) == 0,
{
    step_in_line(a, b, u, v);
    step_in_line(a, b, v, w);
    let (dx, dy) = (b.x - a.x, b.y - a.y);
    let (sx, sy) = (v.x - u.x, v.y - u.y);
    assert(sx * dy - sy * dx == -(dx * sy - dy * sx)) by (nonlinear_arith);
    along_is_shared(sx, sy, dx, dy, w.x - v.x, w.y - v.y);
}

/// A point in line with two of a line is on that line.
proof fn third_in_line(a: LatticePoint, b: LatticePoint, p: LatticePoint, q: LatticePoint, r: LatticePoint)
    requires
        a != b,
        p != q,
        cross(a, b, p) == 0,
        cross(a, b, q) == 0,
        cross(p, q, r) == 0,
    ensures
        cross(a, b, r) == 0,
{
    step_in_line(a, b, p, q);
    let (dx, dy) = (b.x - a.x, b.y - a.y);
    let (tx, ty) = (r.x - q.x, r.y - q.y);
    along_is_shared(dx, dy, q.x - p.x, q.y - p.y, tx, ty);
    let (qx, qy) = (q.x - b.x, q.y - b.y);
    assert(dx * (ty + qy) == dx * ty + dx * qy) by (nonlinear_arith);
    assert(dy * (tx + qx) == dy * tx + dy * qx) by (nonlinear_arith);
    assert(r.y - b.y == ty + qy && r.x - b.x == tx + qx);
}

/// Every point of a ring is on the line of two points.
spec fn lined(points: Seq<LatticePoint>, a: LatticePoint, b: LatticePoint) -> bool {
    forall|i: int| 0 <= i < points.len() ==> cross(a, b, #[trigger] points[i]) == 0
}

proof fn unclosed_lined(points: Seq<LatticePoint>, a: LatticePoint, b: LatticePoint)
    requires
        lined(points, a, b),
    ensures
        lined(unclosed(points), a, b),
        unclosed(points).len() <= points.len(),
    decreases points.len(),
{
    if points.len() > 1 && points[0] == points.last() {
        assert(lined(points.drop_last(), a, b));
        unclosed_lined(points.drop_last(), a, b);
    }
}

proof fn fresh_lined(points: Seq<LatticePoint>, a: LatticePoint, b: LatticePoint, n: nat)
    requires
        lined(points, a, b),
        n <= points.len(),
    ensures
        lined(flat(n, fresh(points)), a, b),
    decreases n,
{
    if n > 0 {
        let m = (n - 1) as nat;
        fresh_lined(points, a, b, m);
        let (before, last) = (flat(m, fresh(points)), fresh(points)(m as int));
        assert(flat(n, fresh(points)) == before + last);
        assert forall|i: int| 0 <= i < (before + last).len() implies cross(a, b, #[trigger] (before + last)[i]) == 0 by {
            if i < before.len() {
                assert((before + last)[i] == before[i]);
            } else {
                assert((before + last)[i] == points[m as int]);
            }
        }
    }
}

proof fn no_corners(points: Seq<LatticePoint>, n: nat)
    requires
        n <= points.len(),
        forall|i: int| 0 <= i < n ==> !#[trigger] is_corner(points, i),
    ensures
        flat(n, corner(points)) == Seq::<LatticePoint>::empty(),
    decreases n,
{
    if n > 0 {
        no_corners(points, (n - 1) as nat);
        assert(corner(points)(n - 1) == Seq::<LatticePoint>::empty());
        assert(flat(n, corner(points)) =~= Seq::empty());
    }
}

/// A ring on one line encloses nothing.
proof fn line_is_nothing(points: Seq<LatticePoint>, a: LatticePoint, b: LatticePoint)
    requires
        a != b,
        lined(points, a, b),
    ensures
        canonical_ring(points) is None,
{
    let open = unclosed(points);
    unclosed_lined(points, a, b);
    fresh_lined(open, a, b, open.len());
    let once = distinct(open);
    if once.len() >= 3 {
        let n = once.len() as int;
        assert forall|i: int| 0 <= i < n implies !#[trigger] is_corner(once, i) by {
            turns(i, n);
            three_in_line(a, b, once[(i + n - 1) % n], once[i], once[(i + 1) % n]);
        }
        no_corners(once, once.len());
        distinct_nothing();
        assert(corners(once) == Seq::<LatticePoint>::empty());
        assert(essential(points) == thinned(once));
    }
}

/// A ring of less than three points encloses nothing.
proof fn few_are_nothing(points: Seq<LatticePoint>)
    requires
        points.len() < 3,
    ensures
        canonical_ring(points) is None,
{
    if points.len() == 0 {
        distinct_nothing();
        assert(points =~= Seq::empty());
    } else {
        let a = points[0];
        let b = if points[points.len() - 1] != a {
            points[points.len() - 1]
        } else {
            LatticePoint {
                x: if a.x == 0 {
                    1
                } else {
                    0
                },
                y: a.y,
            }
        };
        pair_lined(a, b);
        line_is_nothing(points, a, b);
    }
}

proof fn pair_lined(a: LatticePoint, b: LatticePoint)
    ensures
        cross(a, b, a) == 0,
        cross(a, b, b) == 0,
{
    let (dx, dy) = (b.x - a.x, b.y - a.y);
    assert(dx * (-dy) - dy * (-dx) == 0) by (nonlinear_arith);
    assert(a.y - b.y == -dy && a.x - b.x == -dx);
    assert(dx * 0 - dy * 0 == 0) by (nonlinear_arith);
}

/// So does a ring of three points that make no corner.
proof fn three_are_nothing(points: Seq<LatticePoint>)
    requires
        points.len() == 3,
        cross(points[0], points[1], points[2]) == 0,
    ensures
        canonical_ring(points) is None,
{
    let (p, q, r) = (points[0], points[1], points[2]);
    if p != q {
        pair_lined(p, q);
        line_is_nothing(points, p, q);
    } else {
        let b = if q != r {
            r
        } else {
            LatticePoint {
                x: if q.x == 0 {
                    1
                } else {
                    0
                },
                y: q.y,
            }
        };
        pair_lined(q, b);
        line_is_nothing(points, q, b);
    }
}

// Rings without repeats.

/// No point repeats the one before it, around the ring.
spec fn apart(points: Seq<LatticePoint>) -> bool {
    &&& forall|i: int| 0 < i < points.len() ==> #[trigger] points[i] != points[i - 1]
    &&& points.len() > 1 ==> points[0] != points[points.len() - 1]
}

proof fn apart_is_distinct(points: Seq<LatticePoint>)
    requires
        apart(points),
    ensures
        distinct(points) == points,
{
    whole_is_fresh(points, points.len());
    assert(points.take(points.len() as int) =~= points);
}

proof fn distinct_is_same(points: Seq<LatticePoint>)
    requires
        points.len() > 0,
    ensures
        canonical_ring(distinct(points)) == canonical_ring(points),
{
    distinct_again(points);
    alike_self(distinct(points));
    essential_alike(points, distinct(points));
    written_alike(points, distinct(points));
}

proof fn started_index(points: Seq<LatticePoint>, k: int, j: int)
    requires
        0 <= k < points.len(),
        0 <= j < points.len(),
    ensures
        started_at(points, k).len() == points.len(),
        started_at(points, k)[j] == points[if k + j < points.len() {
            k + j
        } else {
            k + j - points.len()
        }],
{
}

/// A point is a corner wherever a ring is written from.
proof fn started_corner(points: Seq<LatticePoint>, k: int, j: int)
    requires
        0 <= k < points.len(),
        0 <= j < points.len(),
    ensures
        is_corner(started_at(points, k), j) == is_corner(
            points,
            if k + j < points.len() {
                k + j
            } else {
                k + j - points.len()
            },
        ),
{
    let n = points.len() as int;
    let i = if k + j < n {
        k + j
    } else {
        k + j - n
    };
    turns(j, n);
    turns(i, n);
    started_index(points, k, j);
    started_index(points, k, (j + n - 1) % n);
    started_index(points, k, (j + 1) % n);
}

proof fn started_apart(points: Seq<LatticePoint>, k: int)
    requires
        0 <= k < points.len(),
        apart(points),
    ensures
        apart(started_at(points, k)),
{
    let n = points.len() as int;
    let now = started_at(points, k);
    assert forall|i: int| 0 < i < now.len() implies #[trigger] now[i] != now[i - 1] by {
        started_index(points, k, i);
        started_index(points, k, i - 1);
        if k + i == n {
            assert(points[0] != points[n - 1]);
        }
    }
    started_index(points, k, 0);
    started_index(points, k, n - 1);
    if k > 0 {
        assert(points[k] != points[k - 1]);
    }
}

/// Taking a point out of a ring does not depend on where the ring is written
/// from.
proof fn removed_alike(points: Seq<LatticePoint>, i: int, k: int)
    requires
        0 <= i < points.len(),
        0 <= k < points.len(),
    ensures
        ({
            let j = if i >= k {
                i - k
            } else {
                i - k + points.len()
            };
            canonical_ring(started_at(points, k).remove(j)) == canonical_ring(points.remove(i))
        }),
        canonical_ring(started_at(points, k)) == canonical_ring(points),
{
    let fewer = points.remove(i);
    any_start_will_do(points, k);
    if i >= k {
        any_start_will_do(fewer, k);
        assert(started_at(points, k).remove(i - k) =~= started_at(fewer, k));
    } else {
        any_start_will_do(fewer, k - 1);
        assert(started_at(points, k).remove(i - k + points.len()) =~= started_at(fewer, k - 1));
    }
}

/// A last point that repeats the first does not matter.
proof fn closing_is_same(points: Seq<LatticePoint>)
    requires
        points.len() >= 2,
        points[0] == points.last(),
    ensures
        canonical_ring(points.drop_last()) == canonical_ring(points),
{
    let fewer = points.drop_last();
    any_start_will_do(points, points.len() - 1);
    assert(started_at(points, points.len() - 1) =~= fewer.insert(0, fewer[0]));
    repeats_do_not_matter(fewer, 0);
}

proof fn repeat_is_same(points: Seq<LatticePoint>, j: int)
    requires
        0 <= j < points.len() - 1,
        points[j] == points[j + 1],
    ensures
        canonical_ring(points.remove(j + 1)) == canonical_ring(points),
{
    let fewer = points.remove(j + 1);
    assert(fewer.insert(j, fewer[j]) =~= points);
    repeats_do_not_matter(fewer, j);
}

// One point after another.

/// Corners and, from `m` on, all other points but `i`.
spec fn keeping(points: Seq<LatticePoint>, i: int, m: int) -> spec_fn(int) -> Seq<LatticePoint> {
    |k: int|
        if k != i && (k >= m || is_corner(points, k)) {
            seq![points[k]]
        } else {
            Seq::empty()
        }
}

spec fn beyond(f: spec_fn(int) -> Seq<LatticePoint>, k: int) -> spec_fn(int) -> Seq<LatticePoint> {
    |j: int| f(k + j)
}

proof fn flat_splits(n: nat, k: nat, f: spec_fn(int) -> Seq<LatticePoint>)
    requires
        k <= n,
    ensures
        flat(n, f) == flat(k, f) + flat((n - k) as nat, beyond(f, k as int)),
    decreases n,
{
    if n == k {
        assert(flat(n, f) =~= flat(k, f) + flat(0, beyond(f, k as int)));
    } else {
        let m = (n - 1) as nat;
        flat_splits(m, k, f);
        assert(flat(n, f) == flat(m, f) + f(m as int));
        let rest = beyond(f, k as int);
        assert(rest(m - k) == f(m as int));
        assert(flat((n - k) as nat, rest) == flat((m - k) as nat, rest) + rest(m - k));
        assert(flat(n, f) =~= flat(k, f) + flat((n - k) as nat, rest));
    }
}

/// What is kept before `m` starts with the first point and ends with the last
/// corner.
proof fn kept_before(points: Seq<LatticePoint>, i: int, m: int, n: nat) -> (l: int)
    requires
        0 < n <= m <= points.len(),
        0 < i < points.len(),
        is_corner(points, 0),
        !is_corner(points, i),
    ensures
        0 <= l < n,
        is_corner(points, l),
        forall|k: int| l < k < n ==> !#[trigger] is_corner(points, k),
        ({
            let held = flat(n, keeping(points, i, m));
            held.len() > 0 && held[0] == points[0] && held.last() == points[l]
        }),
    decreases n,
{
    let f = keeping(points, i, m);
    let before = (n - 1) as nat;
    assert(flat(n, f) == flat(before, f) + f(before as int));
    if n == 1 {
        assert(flat(0, f) =~= Seq::empty());
        assert(f(0) == seq![points[0]]);
        0
    } else {
        let l = kept_before(points, i, m, before);
        if is_corner(points, before as int) {
            assert(f(before as int) == seq![points[before as int]]);
            before as int
        } else {
            assert(f(before as int) == Seq::<LatticePoint>::empty());
            assert(flat(n, f) =~= flat(before, f));
            l
        }
    }
}

/// A point of a ring, the first one again after the last.
pub open spec fn around(points: Seq<LatticePoint>, k: int) -> LatticePoint {
    points[if k < points.len() {
        k
    } else {
        k - points.len()
    }]
}

proof fn no_corner_is(points: Seq<LatticePoint>, k: int)
    requires
        0 < k < points.len(),
        !is_corner(points, k),
    ensures
        cross(points[k - 1], points[k], around(points, k + 1)) == 0,
{
    turns(k, points.len() as int);
}

/// Points back to the corner before them are on one line.
proof fn back_in_line(points: Seq<LatticePoint>, l: int, m: int, k: int)
    requires
        apart(points),
        0 <= l <= k < m < points.len(),
        forall|x: int| l < x < m ==> !#[trigger] is_corner(points, x),
    ensures
        cross(points[m - 1], points[m], points[k]) == 0,
    decreases m - k,
{
    let (a, b) = (points[m - 1], points[m]);
    pair_lined(a, b);
    if k < m - 1 {
        back_in_line(points, l, m, k + 1);
        if k < m - 2 {
            back_in_line(points, l, m, k + 2);
        }
        assert(!is_corner(points, k + 1));
        no_corner_is(points, k + 1);
        let (p, q, r) = (points[k + 1], points[k + 2], points[k]);
        assert(points[k + 2] != points[k + 2 - 1]);
        cross_back(r, p, q);
        assert(points[m] != points[m - 1]);
        third_in_line(a, b, q, p, r);
    }
}

/// What follows point `m` where `i` is left out is on the line of `m`.
proof fn next_in_line(points: Seq<LatticePoint>, i: int, m: int)
    requires
        apart(points),
        0 < i < points.len(),
        0 < m < points.len(),
        m != i,
        !is_corner(points, i),
        !is_corner(points, m),
    ensures
        cross(
            points[m - 1],
            points[m],
            around(
                points,
                if m + 1 == i {
                    m + 2
                } else {
                    m + 1
                },
            ),
        ) == 0,
{
    no_corner_is(points, m);
    if m + 1 == i {
        let (a, b) = (points[m - 1], points[m]);
        pair_lined(a, b);
        no_corner_is(points, i);
        assert(points[m] != points[m - 1]);
        assert(points[i] != points[i - 1]);
        third_in_line(a, b, points[m], points[i], around(points, i + 1));
    }
}

/// Of a ring without repeats, points that are no corners may go one by one.
proof fn one_goes(points: Seq<LatticePoint>, i: int, m: int)
    requires
        apart(points),
        points.len() >= 4,
        0 < i < points.len(),
        0 <= m < points.len(),
        is_corner(points, 0),
        !is_corner(points, i),
    ensures
        ({
            let (now, then) = (
                flat(points.len(), keeping(points, i, m)),
                flat(points.len(), keeping(points, i, m + 1)),
            );
            canonical_ring(then) == canonical_ring(now)
        }),
    decreases points.len(), 0int,
{
    let n = points.len();
    let (f, g) = (keeping(points, i, m), keeping(points, i, m + 1));
    if m == i || is_corner(points, m) {
        assert forall|k: int| 0 <= k < n implies #[trigger] f(k) == g(k) by {}
        flat_same(n, f, g);
    } else {
        let head = m as nat;
        let more = (m + 1) as nat;
        let rest = (n - more) as nat;
        flat_splits(n, more, f);
        flat_splits(n, more, g);
        assert forall|k: int| 0 <= k < head implies #[trigger] f(k) == g(k) by {}
        flat_same(head, f, g);
        assert forall|k: int| 0 <= k < rest implies #[trigger] beyond(f, more as int)(k) == beyond(g, more as int)(k) by {}
        flat_same(rest, beyond(f, more as int), beyond(g, more as int));
        let (a, b) = (flat(head, f), flat(rest, beyond(f, more as int)));
        assert(f(m) == seq![points[m]]);
        assert(g(m) == Seq::<LatticePoint>::empty());
        let now = flat(n, f);
        assert(now =~= a + seq![points[m]] + b);
        assert(flat(n, g) =~= a + b);
        let l = kept_before(points, i, m, head);
        let at = a.len() as int;
        assert(now.remove(at) =~= a + b);
        // What stands behind.
        let next = around(
            points,
            if m + 1 == i {
                m + 2
            } else {
                m + 1
            },
        );
        rest_starts(points, i, m);
        back_in_line(points, l, m, l);
        next_in_line(points, i, m);
        pair_lined(points[m - 1], points[m]);
        assert(points[m] != points[m - 1]);
        three_in_line(points[m - 1], points[m], points[l], points[m], next);
        turns(at, now.len() as int);
        assert(now[at - 1] == a.last());
        if b.len() == 0 {
            assert(now[0] == a[0]);
        } else {
            assert(now[at + 1] == b[0]);
        }
        assert(!is_corner(now, at));
        keeping_fewer(points, i, m, n);
        point_goes(now, at);
    }
}

/// What is left behind `m`.
proof fn rest_starts(points: Seq<LatticePoint>, i: int, m: int)
    requires
        0 < i < points.len(),
        0 < m < points.len(),
        m != i,
    ensures
        ({
            let rest = flat((points.len() - m - 1) as nat, beyond(keeping(points, i, m), m + 1));
            let after = if m + 1 == i {
                m + 2
            } else {
                m + 1
            };
            if after < points.len() {
                rest.len() > 0 && rest[0] == points[after]
            } else {
                rest.len() == 0
            }
        }),
{
    let n = points.len();
    let count = (n - m - 1) as nat;
    let f = beyond(keeping(points, i, m), m + 1);
    if count > 0 {
        flat_first(count, f);
        if m + 1 == i {
            assert(f(0) == Seq::<LatticePoint>::empty());
            if count > 1 {
                flat_first((count - 1) as nat, later(f));
                assert(later(f)(0) == seq![points[m + 2]]);
            } else {
                assert(flat(0, later(f)) =~= Seq::empty());
            }
        } else {
            assert(f(0) == seq![points[m + 1]]);
        }
    }
}

/// Point `i` is never kept.
proof fn keeping_fewer(points: Seq<LatticePoint>, i: int, m: int, n: nat)
    requires
        n <= points.len(),
        0 <= i,
    ensures
        flat(n, keeping(points, i, m)).len() <= (if i < n {
            n - 1
        } else {
            n as int
        }),
    decreases n,
{
    if n > 0 {
        keeping_fewer(points, i, m, (n - 1) as nat);
    }
}

proof fn all_go(points: Seq<LatticePoint>, i: int, m: int)
    requires
        apart(points),
        points.len() >= 4,
        0 < i < points.len(),
        0 <= m <= points.len(),
        is_corner(points, 0),
        !is_corner(points, i),
    ensures
        canonical_ring(flat(points.len(), keeping(points, i, m))) == canonical_ring(
            flat(points.len(), keeping(points, i, 0)),
        ),
    decreases points.len(), 1int, m,
{
    if m > 0 {
        all_go(points, i, m - 1);
        one_goes(points, i, m - 1);
    }
}

/// Of a ring without repeats that starts at a corner, a point that is none may
/// go.
proof fn apart_goes(points: Seq<LatticePoint>, i: int)
    requires
        apart(points),
        points.len() >= 4,
        0 < i < points.len(),
        is_corner(points, 0),
        !is_corner(points, i),
    ensures
        canonical_ring(points.remove(i)) == canonical_ring(points),
    decreases points.len(), 2int,
{
    let n = points.len();
    all_go(points, i, n as int);
    let (first, last) = (keeping(points, i, 0), keeping(points, i, n as int));
    assert forall|k: int| 0 <= k < n implies (#[trigger] first(k)) == (if k == i {
        Seq::<LatticePoint>::empty()
    } else {
        seq![points[k]]
    }) by {}
    flat_skips(points, first, i, n);
    assert(points.remove(i).take(n - 1) =~= points.remove(i));
    assert forall|k: int| 0 <= k < n implies #[trigger] last(k) == corner(points)(k) by {}
    flat_same(n, last, corner(points));
    let kept = flat(n, corner(points));
    let l = kept_before(points, i, n as int, n);
    apart_is_distinct(points);
    corners_are_enough(points);
    distinct_is_same(kept);
    assert(corners(points) == distinct(kept));
}

/// A second point that is no corner may go.
proof fn second_goes(points: Seq<LatticePoint>)
    requires
        points.len() >= 4,
        cross(points[0], points[1], points[2]) == 0,
    ensures
        canonical_ring(points.remove(1)) == canonical_ring(points),
    decreases points.len(), 3int,
{
    let n = points.len() as int;
    let fewer = points.remove(1);
    turns(1, n);
    if points[0] == points[1] {
        repeat_is_same(points, 0);
    } else if points[1] == points[2] {
        repeat_is_same(points, 1);
        assert(points.remove(2) =~= fewer);
    } else if exists|j: int| 2 <= j < n - 1 && #[trigger] points[j] == points[j + 1] {
        let j = choose|j: int| 2 <= j < n - 1 && #[trigger] points[j] == points[j + 1];
        let other = points.remove(j + 1);
        repeat_is_same(points, j);
        turns(1, n - 1);
        point_goes(other, 1);
        repeat_is_same(fewer, j - 1);
        assert(fewer.remove(j) =~= other.remove(1));
    } else if points[n - 1] == points[0] {
        let other = points.drop_last();
        closing_is_same(points);
        turns(1, n - 1);
        point_goes(other, 1);
        closing_is_same(fewer);
        assert(fewer.drop_last() =~= other.remove(1));
    } else {
        assert forall|i: int| 0 < i < n implies #[trigger] points[i] != points[i - 1] by {
            if i > 2 {
                let j = i - 1;
                assert(!(2 <= j < n - 1 && points[j] == points[j + 1]));
            }
        }
        assert(apart(points));
        if exists|c: int| 0 <= c < n && #[trigger] is_corner(points, c) {
            let c = choose|c: int| 0 <= c < n && #[trigger] is_corner(points, c);
            let j = if 1 >= c {
                1 - c
            } else {
                1 - c + n
            };
            removed_alike(points, 1, c);
            started_apart(points, c);
            started_corner(points, c, 0);
            started_corner(points, c, j);
            assert(!is_corner(points, 1));
            apart_goes(started_at(points, c), j);
        } else {
            let (a, b) = (points[0], points[1]);
            all_lined(points, n as nat);
            line_is_nothing(points, a, b);
            assert(lined(fewer, a, b)) by {
                assert forall|i: int| 0 <= i < fewer.len() implies cross(a, b, #[trigger] fewer[i]) == 0 by {
                    assert(fewer[i] == points[if i < 1 {
                        i
                    } else {
                        i + 1
                    }]);
                }
            }
            line_is_nothing(fewer, a, b);
        }
    }
}

/// A ring without corners is on one line.
proof fn all_lined(points: Seq<LatticePoint>, n: nat)
    requires
        points.len() >= 3,
        n <= points.len(),
        apart(points),
        forall|c: int| 0 <= c < points.len() ==> !#[trigger] is_corner(points, c),
    ensures
        forall|i: int| 0 <= i < n ==> cross(points[0], points[1], #[trigger] points[i]) == 0,
    decreases n,
{
    pair_lined(points[0], points[1]);
    if n > 2 {
        all_lined(points, (n - 1) as nat);
        let k = n - 2;
        assert(!is_corner(points, k));
        no_corner_is(points, k);
        assert(points[k] != points[k - 1]);
        assert(points[1] != points[1 - 1]);
        third_in_line(points[0], points[1], points[k - 1], points[k], points[k + 1]);
    }
}

/// A point that is no corner may go, whatever other points a ring has.
proof fn point_goes(points: Seq<LatticePoint>, i: int)
    requires
        0 <= i < points.len(),
        !is_corner(points, i),
    ensures
        canonical_ring(points.remove(i)) == canonical_ring(points),
    decreases points.len(), 4int,
{
    let n = points.len() as int;
    if n < 4 {
        few_are_nothing(points.remove(i));
        if n < 3 {
            few_are_nothing(points);
        } else {
            let k = if i == 0 {
                2
            } else {
                i - 1
            };
            turns(i, n);
            any_start_will_do(points, k);
            three_are_nothing(started_at(points, k));
        }
    } else {
        let k = if i == 0 {
            n - 1
        } else {
            i - 1
        };
        turns(i, n);
        removed_alike(points, i, k);
        started_index(points, k, 0);
        started_index(points, k, 1);
        started_index(points, k, 2);
        second_goes(started_at(points, k));
    }
}

// Rings drawn otherwise.

/// A further point in line with its neighbours does not matter, be it between
/// them, beyond them or one of them, and whatever other points a ring has.
pub proof fn point_in_line_does_not_matter(points: Seq<LatticePoint>, at: int, point: LatticePoint)
    requires
        0 <= at <= points.len(),
        points.len() > 0 ==> cross(around(points, at + points.len() - 1), point, around(points, at)) == 0,
    ensures
        canonical_ring(points.insert(at, point)) == canonical_ring(points),
{
    let more = points.insert(at, point);
    assert(more.remove(at) =~= points);
    turns(at, more.len() as int);
    if points.len() == 0 {
        few_are_nothing(points);
        few_are_nothing(more);
    } else {
        point_goes(more, at);
    }
}

/// A spike does not matter: a ring may leave any of its points for another and
/// come straight back.
pub proof fn spike_does_not_matter(points: Seq<LatticePoint>, at: int, point: LatticePoint)
    requires
        0 <= at < points.len(),
    ensures
        canonical_ring(points.insert(at + 1, points[at]).insert(at + 1, point)) == canonical_ring(points),
{
    let twice = points.insert(at + 1, points[at]);
    assert(twice =~= points.insert(at, points[at]));
    repeats_do_not_matter(points, at);
    let a = points[at];
    let (dx, dy) = (point.x - a.x, point.y - a.y);
    assert(dx * (-dy) - dy * (-dx) == 0) by (nonlinear_arith);
    assert(cross(a, point, a) == 0);
    point_in_line_does_not_matter(twice, at + 1, point);
}

/// A way to draw a ring otherwise.
pub enum Redrawing {
    /// From another point on.
    From(usize),
    /// The other way round.
    Backward,
    /// With a further point.
    Point(usize, LatticePoint),
    /// With a spike.
    Spike(usize, LatticePoint),
}

/// A ring can be drawn so: places are those of the ring, and a further point is
/// in line with its neighbours.
pub open spec fn drawable(points: Seq<LatticePoint>, way: Redrawing) -> bool {
    match way {
        Redrawing::From(at) => at <= points.len(),
        Redrawing::Backward => true,
        Redrawing::Point(at, point) => at <= points.len() && (points.len() > 0 ==> cross(
            around(points, at + points.len() - 1),
            point,
            around(points, at as int),
        ) == 0),
        Redrawing::Spike(at, point) => at < points.len(),
    }
}

pub open spec fn redrawn(points: Seq<LatticePoint>, way: Redrawing) -> Seq<LatticePoint> {
    match way {
        Redrawing::From(at) => started_at(points, at as int),
        Redrawing::Backward => points.reverse(),
        Redrawing::Point(at, point) => points.insert(at as int, point),
        Redrawing::Spike(at, point) => points.insert(at + 1, points[at as int]).insert(at + 1, point),
    }
}

/// A ring after one redrawing and then another.
pub open spec fn redrawn_by(points: Seq<LatticePoint>, ways: Seq<Redrawing>) -> Seq<LatticePoint>
    decreases ways.len(),
{
    if ways.len() == 0 {
        points
    } else {
        redrawn(redrawn_by(points, ways.drop_last()), ways.last())
    }
}

pub open spec fn drawable_by(points: Seq<LatticePoint>, ways: Seq<Redrawing>) -> bool
    decreases ways.len(),
{
    ways.len() > 0 ==> drawable_by(points, ways.drop_last()) && drawable(
        redrawn_by(points, ways.drop_last()),
        ways.last(),
    )
}

/// However often and in whatever ways a ring is redrawn, it is written the same
/// way.
pub proof fn redrawing_does_not_matter(points: Seq<LatticePoint>, ways: Seq<Redrawing>)
    requires
        drawable_by(points, ways),
    ensures
        canonical_ring(redrawn_by(points, ways)) == canonical_ring(points),
    decreases ways.len(),
{
    if ways.len() > 0 {
        let before = redrawn_by(points, ways.drop_last());
        redrawing_does_not_matter(points, ways.drop_last());
        match ways.last() {
            Redrawing::From(at) => {
                any_start_will_do(before, at as int);
            },
            Redrawing::Backward => {
                either_direction_will_do(before);
            },
            Redrawing::Point(at, point) => {
                point_in_line_does_not_matter(before, at as int, point);
            },
            Redrawing::Spike(at, point) => {
                spike_does_not_matter(before, at as int, point);
            },
        }
    }
}

/// An outline with its rings listed in any order, and each redrawn in any ways,
/// is written the same way and has the same digest.
pub proof fn outlines_agree(
    face: Seq<Seq<LatticePoint>>,
    drawn: Seq<Seq<LatticePoint>>,
    other: Seq<Seq<LatticePoint>>,
    ways: Seq<Seq<Redrawing>>,
)
    requires
        drawn.len() == face.len(),
        ways.len() == face.len(),
        forall|i: int|
            0 <= i < face.len() ==> drawable_by(face[i], ways[i]) && #[trigger] drawn[i] == redrawn_by(face[i], ways[i]),
        other.to_multiset() == drawn.to_multiset(),
    ensures
        canonical(other) == canonical(face),
        digest(canonical(other)) == digest(canonical(face)),
{
    assert forall|i: int| 0 <= i < face.len() implies canonical_ring(#[trigger] face[i]) == canonical_ring(drawn[i]) by {
        assert(drawn[i] == redrawn_by(face[i], ways[i]));
        redrawing_does_not_matter(face[i], ways[i]);
    }
    steps_alike(face, drawn, face.len());
    ring_order_does_not_matter(other, drawn);
}

} // verus!
