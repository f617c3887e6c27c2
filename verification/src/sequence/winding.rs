//! What holds of a ring whichever way round it is written.
use vstd::prelude::*;

use crate::listing::flat;
use crate::sequence::cycles::{
    alike, alike_back, alike_through, distinct, distinct_unclosed, flat_first, flat_same, later, thinned_alike,
    written_started,
};
use crate::sequence::footprint::{
    canonical_ring, corner, corners, deduplicated, essential, fresh, is_corner, opened, started_at, thinned, unclosed,
    LatticePoint,
};
use crate::sequence::laws::{cross_back, reversed_written, turns};

verus! {

/// Parts listed from the last on.
spec fn mirrored(n: nat, f: spec_fn(int) -> Seq<LatticePoint>) -> spec_fn(int) -> Seq<LatticePoint> {
    |i: int| f(n - 1 - i)
}

proof fn flat_back(n: nat, f: spec_fn(int) -> Seq<LatticePoint>)
    requires
        forall|i: int| 0 <= i < n ==> (#[trigger] f(i)).len() <= 1,
    ensures
        flat(n, mirrored(n, f)) == flat(n, f).reverse(),
    decreases n,
{
    let g = mirrored(n, f);
    if n == 0 {
        assert(flat(n, g) =~= flat(n, f).reverse());
    } else {
        let m = (n - 1) as nat;
        flat_first(n, g);
        assert forall|i: int| 0 <= i < m implies #[trigger] later(g)(i) == mirrored(m, f)(i) by {}
        flat_same(m, later(g), mirrored(m, f));
        flat_back(m, f);
        assert(g(0) == f(m as int));
        assert(f(m as int).len() <= 1);
        assert(flat(n, f) == flat(m, f) + f(m as int));
        assert(flat(n, f).reverse() =~= f(m as int) + flat(m, f).reverse());
    }
}

/// A point that differs from the one after it.
spec fn departing(points: Seq<LatticePoint>) -> spec_fn(int) -> Seq<LatticePoint> {
    |i: int|
        if i + 1 < points.len() && points[i + 1] == points[i] {
            Seq::empty()
        } else {
            seq![points[i]]
        }
}

/// It is the same to keep the first or the last of points that repeat.
proof fn departing_to(points: Seq<LatticePoint>, n: nat)
    requires
        0 < n <= points.len(),
    ensures
        flat(n, fresh(points)) == flat((n - 1) as nat, departing(points)) + seq![points[n - 1]],
    decreases n,
{
    let (f, g) = (fresh(points), departing(points));
    let m = (n - 1) as nat;
    assert(flat(n, f) == flat(m, f) + f(m as int));
    if n == 1 {
        assert(flat(0, f) =~= Seq::empty());
        assert(flat(0, g) =~= Seq::empty());
    } else {
        departing_to(points, m);
        assert(flat(m, g) == flat((m - 1) as nat, g) + g(m - 1));
        if points[m - 1] == points[m as int] {
            assert(g(m - 1) == Seq::<LatticePoint>::empty());
            assert(f(m as int) == Seq::<LatticePoint>::empty());
            assert(flat(n, f) =~= flat(m, g) + seq![points[m as int]]);
        } else {
            assert(g(m - 1) == seq![points[m - 1]]);
            assert(f(m as int) == seq![points[m as int]]);
        }
    }
}

proof fn deduplicated_back(points: Seq<LatticePoint>)
    ensures
        deduplicated(points.reverse()) == deduplicated(points).reverse(),
{
    let n = points.len();
    let back = points.reverse();
    let g = departing(points);
    if n > 0 {
        departing_to(points, n);
        assert(flat(n, g) == flat((n - 1) as nat, g) + g(n - 1));
        assert(g(n - 1) == seq![points[n - 1]]);
    } else {
        assert(flat(0, fresh(points)) =~= flat(0, g));
    }
    assert(flat(n, g) == deduplicated(points));
    assert forall|i: int| 0 <= i < n implies #[trigger] fresh(back)(i) == mirrored(n, g)(i) by {
        let k = n - 1 - i;
        assert(back[i] == points[k]);
        if i > 0 {
            assert(back[i - 1] == points[k + 1]);
        }
    }
    flat_same(n, fresh(back), mirrored(n, g));
    flat_back(n, g);
}

proof fn reversed_alike(a: Seq<LatticePoint>, b: Seq<LatticePoint>)
    requires
        alike(a, b),
    ensures
        alike(a.reverse(), b.reverse()),
{
    let k = choose|k: int| 0 <= k <= a.len() && b == #[trigger] started_at(a, k);
    assert(started_at(a.reverse(), a.len() - k) =~= b.reverse());
}

proof fn distinct_back(points: Seq<LatticePoint>)
    ensures
        alike(distinct(points).reverse(), distinct(points.reverse())),
{
    deduplicated_back(points);
    let once = deduplicated(points);
    let (x, y) = (opened(once).reverse(), opened(once.reverse()));
    if once.len() > 1 && once[0] == once.last() {
        assert(started_at(x, x.len() - 1) =~= y);
    } else {
        assert(started_at(x, 0) =~= y);
    }
}

proof fn corners_back(points: Seq<LatticePoint>)
    ensures
        alike(corners(points).reverse(), corners(points.reverse())),
{
    let n = points.len();
    let len = n as int;
    let back = points.reverse();
    let f = corner(points);
    assert forall|i: int| 0 <= i < n implies #[trigger] corner(back)(i) == mirrored(n, f)(i) by {
        let k = len - 1 - i;
        turns(i, len);
        turns(k, len);
        cross_back(points[(k + len - 1) % len], points[k], points[(k + 1) % len]);
        assert(back[i] == points[k]);
        assert(back[(i + len - 1) % len] == points[(k + 1) % len]);
        assert(back[(i + 1) % len] == points[(k + len - 1) % len]);
        assert(is_corner(back, i) == is_corner(points, k));
    }
    flat_same(n, corner(back), mirrored(n, f));
    flat_back(n, f);
    distinct_back(flat(n, f));
}

proof fn thinned_back(points: Seq<LatticePoint>)
    requires
        points.len() > 0,
    ensures
        alike(thinned(points).reverse(), thinned(points.reverse())),
    decreases points.len(),
{
    let back = points.reverse();
    let (next, other) = (corners(points), corners(back));
    corners_back(points);
    alike_back(next.reverse(), other);
    if next.len() < points.len() && next.len() >= 3 {
        thinned_back(next);
        thinned_alike(next.reverse(), other);
        alike_through(thinned(next).reverse(), thinned(next.reverse()), thinned(other));
    }
}

proof fn essential_back(points: Seq<LatticePoint>)
    requires
        points.len() > 0,
    ensures
        alike(essential(points).reverse(), essential(points.reverse())),
{
    let back = points.reverse();
    distinct_unclosed(points);
    distinct_unclosed(back);
    let (x, y) = (distinct(unclosed(points)), distinct(unclosed(back)));
    alike_back(distinct(points), x);
    reversed_alike(x, distinct(points));
    distinct_back(points);
    alike_through(x.reverse(), distinct(points).reverse(), distinct(back));
    alike_through(x.reverse(), distinct(back), y);
    alike_back(x.reverse(), y);
    if x.len() >= 3 {
        thinned_back(x);
        thinned_alike(x.reverse(), y);
        alike_through(thinned(x).reverse(), thinned(x.reverse()), thinned(y));
    }
}

/// Which way round a ring is written does not matter, whatever points it has.
pub proof fn either_direction_will_do(points: Seq<LatticePoint>)
    ensures
        canonical_ring(points.reverse()) == canonical_ring(points),
{
    if points.len() == 0 {
        assert(points.reverse() =~= points);
    } else {
        essential_back(points);
        let (x, y) = (essential(points), essential(points.reverse()));
        alike_back(x.reverse(), y);
        if x.len() >= 3 {
            let k = choose|k: int| 0 <= k <= x.reverse().len() && y == #[trigger] started_at(x.reverse(), k);
            written_started(x.reverse(), k);
            reversed_written(x);
        }
    }
}

} // verus!
