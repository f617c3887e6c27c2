//! An outline's digest does not depend on how the outline is written.
use vstd::multiset::Multiset;
use vstd::prelude::*;
use vstd::relations::{antisymmetric, reflexive, sorted_by, strongly_connected, total_ordering, transitive};

use crate::listing::{flat, folded};
use crate::sequence::footprint::{
    area_to, canonical, canonical_ring, cross, least_to, point_before, ring_at_most, ring_at_most_from,
    ring_placed, ring_slot, ring_step, started, started_at, twice_area, wedge, written, LatticePoint,
};

verus! {

// The order of rings.

proof fn ring_order_reflexive(a: Seq<LatticePoint>, i: int)
    requires
        0 <= i,
    ensures
        ring_at_most_from(a, a, i),
    decreases a.len() - i,
{
    if i < a.len() {
        ring_order_reflexive(a, i + 1);
    }
}

proof fn ring_order_total(a: Seq<LatticePoint>, b: Seq<LatticePoint>, i: int)
    requires
        0 <= i,
    ensures
        ring_at_most_from(a, b, i) || ring_at_most_from(b, a, i),
    decreases a.len() - i,
{
    if i < a.len() && i < b.len() && a[i] == b[i] {
        ring_order_total(a, b, i + 1);
    }
}

proof fn ring_order_antisymmetric(a: Seq<LatticePoint>, b: Seq<LatticePoint>, i: int)
    requires
        0 <= i <= a.len(),
        i <= b.len(),
        ring_at_most_from(a, b, i),
        ring_at_most_from(b, a, i),
        a.take(i) == b.take(i),
    ensures
        a == b,
    decreases a.len() - i,
{
    if i < a.len() && i < b.len() {
        assert(a[i] == b[i]);
        assert(a.take(i + 1) =~= a.take(i).push(a[i]));
        assert(b.take(i + 1) =~= b.take(i).push(b[i]));
        ring_order_antisymmetric(a, b, i + 1);
    } else {
        assert(a.len() == b.len());
        assert(a.take(i) =~= a);
        assert(b.take(i) =~= b);
    }
}

proof fn ring_order_transitive(a: Seq<LatticePoint>, b: Seq<LatticePoint>, c: Seq<LatticePoint>, i: int)
    requires
        0 <= i,
        ring_at_most_from(a, b, i),
        ring_at_most_from(b, c, i),
    ensures
        ring_at_most_from(a, c, i),
    decreases a.len() - i,
{
    if i < a.len() && a[i] == b[i] && b[i] == c[i] && i < b.len() && i < c.len() {
        ring_order_transitive(a, b, c, i + 1);
    }
}

/// The order of rings, as a relation.
spec fn ring_order() -> spec_fn(Seq<LatticePoint>, Seq<LatticePoint>) -> bool {
    |a: Seq<LatticePoint>, b: Seq<LatticePoint>| ring_at_most(a, b)
}

proof fn ring_order_orders()
    ensures
        total_ordering(ring_order()),
{
    let leq = ring_order();
    assert forall|a: Seq<LatticePoint>| #[trigger] leq(a, a) by {
        ring_order_reflexive(a, 0);
    }
    assert forall|a: Seq<LatticePoint>, b: Seq<LatticePoint>| #[trigger] leq(a, b) || #[trigger] leq(b, a) by {
        ring_order_total(a, b, 0);
    }
    assert forall|a: Seq<LatticePoint>, b: Seq<LatticePoint>| #[trigger] leq(a, b) && #[trigger] leq(
        b,
        a,
    ) implies a == b by {
        assert(a.take(0) =~= b.take(0));
        ring_order_antisymmetric(a, b, 0);
    }
    assert forall|a: Seq<LatticePoint>, b: Seq<LatticePoint>, c: Seq<LatticePoint>| #[trigger] leq(a, b)
        && #[trigger] leq(b, c) implies leq(a, c) by {
        ring_order_transitive(a, b, c, 0);
    }
    assert(reflexive(leq));
    assert(antisymmetric(leq));
    assert(transitive(leq));
    assert(strongly_connected(leq));
}

// Sorting rings.

proof fn slot_splits(rings: Seq<Seq<LatticePoint>>, ring: Seq<LatticePoint>, p: int)
    requires
        0 <= p <= rings.len(),
    ensures
        p <= ring_slot(rings, ring, p) <= rings.len(),
        forall|k: int| p <= k < ring_slot(rings, ring, p) ==> ring_at_most(#[trigger] rings[k], ring),
        ring_slot(rings, ring, p) < rings.len() ==> !ring_at_most(rings[ring_slot(rings, ring, p)], ring),
    decreases rings.len() - p,
{
    if p < rings.len() && ring_at_most(rings[p], ring) {
        slot_splits(rings, ring, p + 1);
    }
}

proof fn placed_sorted(rings: Seq<Seq<LatticePoint>>, ring: Seq<LatticePoint>)
    requires
        sorted_by(rings, ring_order()),
    ensures
        sorted_by(ring_placed(rings, ring), ring_order()),
        ring_placed(rings, ring).to_multiset() == rings.to_multiset().insert(ring),
{
    let leq = ring_order();
    let at = ring_slot(rings, ring, 0);
    let now = ring_placed(rings, ring);
    slot_splits(rings, ring, 0);
    ring_order_orders();
    assert forall|i: int, j: int| 0 <= i < j < now.len() implies #[trigger] leq(now[i], now[j]) by {
        let a = if i < at { i } else { i - 1 };
        let b = if j < at { j } else { j - 1 };
        if i != at {
            assert(now[i] == rings[a]);
        }
        if j != at {
            assert(now[j] == rings[b]);
        }
        if i == at {
            ring_order_total(rings[at], ring, 0);
            assert(leq(ring, rings[at]));
            if b > at {
                assert(leq(rings[at], rings[b]));
                ring_order_transitive(ring, rings[at], rings[b], 0);
            }
        } else if j == at {
            assert(ring_at_most(rings[a], ring));
        } else {
            assert(leq(rings[a], rings[b]));
        }
    }
    vstd::seq_lib::to_multiset_insert(rings, at, ring);
}

/// The canonical rings of an outline, in no order.
spec fn ring_bag(face: Seq<Seq<LatticePoint>>) -> Multiset<Seq<LatticePoint>>
    decreases face.len(),
{
    if face.len() == 0 {
        Multiset::empty()
    } else {
        let before = ring_bag(face.drop_last());
        match canonical_ring(face.last()) {
            Some(ring) => before.insert(ring),
            None => before,
        }
    }
}

proof fn steps_agree(face: Seq<Seq<LatticePoint>>, shorter: Seq<Seq<LatticePoint>>, n: nat)
    requires
        n <= shorter.len() <= face.len(),
        shorter == face.take(shorter.len() as int),
    ensures
        folded(n, Seq::empty(), ring_step(face)) == folded(n, Seq::empty(), ring_step(shorter)),
    decreases n,
{
    if n > 0 {
        steps_agree(face, shorter, (n - 1) as nat);
        assert(shorter[n - 1] == face[n - 1]);
    }
}

proof fn canonical_holds(face: Seq<Seq<LatticePoint>>)
    ensures
        sorted_by(canonical(face), ring_order()),
        canonical(face).to_multiset() == ring_bag(face),
    decreases face.len(),
{
    broadcast use vstd::multiset::group_multiset_axioms;

    if face.len() == 0 {
        assert(canonical(face) =~= Seq::empty());
        assert(canonical(face).to_multiset() =~= Multiset::empty()) by {
            broadcast use vstd::seq_lib::group_to_multiset_ensures;

        }
    } else {
        let shorter = face.drop_last();
        canonical_holds(shorter);
        assert(shorter =~= face.take(shorter.len() as int));
        steps_agree(face, shorter, shorter.len());
        let before = canonical(shorter);
        assert(canonical(face) == ring_step(face)(before, face.len() - 1));
        if let Some(ring) = canonical_ring(face.last()) {
            placed_sorted(before, ring);
        }
    }
}

/// One ring less in a bag.
proof fn bag_without(face: Seq<Seq<LatticePoint>>, j: int)
    requires
        0 <= j < face.len(),
    ensures
        ring_bag(face) == (match canonical_ring(face[j]) {
            Some(ring) => ring_bag(face.remove(j)).insert(ring),
            None => ring_bag(face.remove(j)),
        }),
    decreases face.len(),
{
    broadcast use vstd::multiset::group_multiset_axioms;

    let rest = face.remove(j);
    if j == face.len() - 1 {
        assert(rest =~= face.drop_last());
    } else {
        let shorter = face.drop_last();
        bag_without(shorter, j);
        assert(rest.drop_last() =~= shorter.remove(j));
        assert(rest.last() == face.last());
        assert(shorter[j] == face[j]);
        let inner = ring_bag(shorter.remove(j));
        if let Some(ring) = canonical_ring(face[j]) {
            if let Some(last) = canonical_ring(face.last()) {
                assert(inner.insert(ring).insert(last) =~= inner.insert(last).insert(ring));
            }
        }
    }
}

proof fn bags_agree(a: Seq<Seq<LatticePoint>>, b: Seq<Seq<LatticePoint>>)
    requires
        a.to_multiset() == b.to_multiset(),
    ensures
        ring_bag(a) == ring_bag(b),
    decreases a.len(),
{
    broadcast use {vstd::multiset::group_multiset_axioms, vstd::seq_lib::group_to_multiset_ensures};

    if a.len() == 0 {
        assert(b.len() == 0) by {
            assert(b.to_multiset().len() == b.len());
            assert(a.to_multiset().len() == a.len());
        }
    } else {
        let x = a.last();
        assert(a[a.len() - 1] == x);
        assert(a.contains(x));
        assert(a.to_multiset().count(x) > 0);
        assert(b.contains(x));
        let j = choose|j: int| 0 <= j < b.len() && b[j] == x;
        let shorter = a.remove(a.len() - 1);
        let rest = b.remove(j);
        vstd::seq_lib::to_multiset_remove(a, a.len() - 1);
        vstd::seq_lib::to_multiset_remove(b, j);
        bags_agree(shorter, rest);
        bag_without(a, a.len() - 1);
        bag_without(b, j);
    }
}

/// The order in which an outline's rings are listed does not matter.
pub proof fn ring_order_does_not_matter(a: Seq<Seq<LatticePoint>>, b: Seq<Seq<LatticePoint>>)
    requires
        a.to_multiset() == b.to_multiset(),
    ensures
        canonical(a) == canonical(b),
{
    canonical_holds(a);
    canonical_holds(b);
    bags_agree(a, b);
    ring_order_orders();
    vstd::seq_lib::lemma_sorted_unique(canonical(a), canonical(b), ring_order());
}

// Rings written from another point, or the other way round.

pub(crate) proof fn turns(i: int, n: int)
    requires
        0 <= i < n,
    ensures
        (i + n - 1) % n == (if i == 0 {
            n - 1
        } else {
            i - 1
        }),
        (i + 1) % n == (if i + 1 == n {
            0
        } else {
            i + 1
        }),
{
    if i == 0 {
        vstd::arithmetic::div_mod::lemma_small_mod((n - 1) as nat, n as nat);
    } else {
        vstd::arithmetic::div_mod::lemma_mod_add_multiples_vanish(i - 1, n);
        vstd::arithmetic::div_mod::lemma_small_mod((i - 1) as nat, n as nat);
        assert(n + (i - 1) == i + n - 1);
    }
    if i + 1 == n {
        vstd::arithmetic::div_mod::lemma_mod_self_0(n);
    } else {
        vstd::arithmetic::div_mod::lemma_small_mod((i + 1) as nat, n as nat);
    }
}

/// A ring that starts one point later.
pub open spec fn turned(points: Seq<LatticePoint>) -> Seq<LatticePoint> {
    started_at(points, 1)
}

pub(crate) proof fn turned_at(points: Seq<LatticePoint>, i: int)
    requires
        points.len() > 0,
        0 <= i < points.len(),
    ensures
        turned(points).len() == points.len(),
        turned(points)[i] == points[(i + 1) % points.len() as int],
        i + 1 < points.len() ==> turned(points)[i] == points[i + 1],
        i + 1 == points.len() ==> turned(points)[i] == points[0],
{
    turns(i, points.len() as int);
}

proof fn turned_wedges(points: Seq<LatticePoint>, n: nat)
    requires
        n < points.len(),
    ensures
        area_to(turned(points), n) == area_to(points, n + 1) - wedge(points, 0),
    decreases n,
{
    if n == 0 {
        assert(area_to(points, 1) == area_to(points, 0) + wedge(points, 0));
    } else {
        turned_wedges(points, (n - 1) as nat);
        let len = points.len() as int;
        turned_at(points, n - 1);
        turns(n - 1, len);
        turns(n as int, len);
        turned_at(points, n as int);
        assert(wedge(turned(points), n - 1) == wedge(points, n as int));
        assert(area_to(points, n + 1) == area_to(points, n) + wedge(points, n as int));
    }
}

pub(crate) proof fn turned_area(points: Seq<LatticePoint>)
    requires
        points.len() > 0,
    ensures
        twice_area(turned(points)) == twice_area(points),
{
    let n = points.len();
    let len = n as int;
    turned_wedges(points, (n - 1) as nat);
    turned_at(points, len - 1);
    turned_at(points, 0);
    turns(len - 1, len);
    turns(0, len);
    assert(turned(points)[len - 1] == points[0]);
    assert(turned(points)[0] == points[1int % len]);
    assert(wedge(turned(points), len - 1) == wedge(points, 0));
}

proof fn least_is_first(points: Seq<LatticePoint>, n: nat)
    requires
        0 < n <= points.len(),
    ensures
        0 <= least_to(points, n) < n,
        forall|k: int|
            0 <= k < n ==> ring_at_most(started_at(points, least_to(points, n)), #[trigger] started_at(points, k)),
    decreases n,
{
    let here = started_at(points, n - 1);
    ring_order_reflexive(here, 0);
    if n > 1 {
        least_is_first(points, (n - 1) as nat);
        let best = started_at(points, least_to(points, (n - 1) as nat));
        ring_order_total(best, here, 0);
        if !ring_at_most(best, here) {
            assert forall|k: int| 0 <= k < n implies ring_at_most(here, #[trigger] started_at(points, k)) by {
                if k < n - 1 {
                    ring_order_transitive(here, best, started_at(points, k), 0);
                }
            }
        }
    }
}

/// A ring is written from one of its least points, and comes first that way.
pub proof fn starts_where_least(points: Seq<LatticePoint>)
    requires
        points.len() > 0,
    ensures
        exists|k: int| 0 <= k < points.len() && started(points) == #[trigger] started_at(points, k),
        forall|k: int| 0 <= k < points.len() ==> ring_at_most(started(points), #[trigger] started_at(points, k)),
        forall|k: int| 0 <= k < points.len() ==> !point_before(#[trigger] points[k], started(points)[0]),
{
    least_is_first(points, points.len());
    assert(started(points) == started_at(points, least_to(points, points.len())));
    assert forall|k: int| 0 <= k < points.len() implies !point_before(#[trigger] points[k], started(points)[0]) by {
        assert(started_at(points, k)[0] == points[k]);
        assert(ring_at_most(started(points), started_at(points, k)));
    }
}

/// A ring is written from the same point wherever it was written from.
pub(crate) proof fn turned_started(points: Seq<LatticePoint>)
    requires
        points.len() > 0,
    ensures
        started(turned(points)) == started(points),
{
    let n = points.len() as int;
    let now = turned(points);
    least_is_first(points, points.len());
    least_is_first(now, now.len());
    let (a, b) = (least_to(points, points.len()), least_to(now, now.len()));
    let before = if a == 0 {
        n - 1
    } else {
        a - 1
    };
    let after = if b + 1 == n {
        0
    } else {
        b + 1
    };
    assert(started_at(now, before) =~= started_at(points, a));
    assert(started_at(now, b) =~= started_at(points, after));
    let (x, y) = (started(points), started(now));
    assert(ring_at_most(x, y));
    assert(ring_at_most(y, x));
    assert(x.take(0) =~= y.take(0));
    ring_order_antisymmetric(x, y, 0);
}

proof fn wedge_back(a: LatticePoint, b: LatticePoint)
    ensures
        a.x * b.y - a.y * b.x == -(b.x * a.y - b.y * a.x),
{
    assert(a.x * b.y == b.y * a.x) by (nonlinear_arith);
    assert(a.y * b.x == b.x * a.y) by (nonlinear_arith);
}

proof fn reversed_wedges(points: Seq<LatticePoint>, n: nat)
    requires
        n < points.len(),
    ensures
        area_to(points.reverse(), n) == area_to(points, (points.len() - 1 - n) as nat) - area_to(
            points,
            (points.len() - 1) as nat,
        ),
    decreases n,
{
    if n > 0 {
        reversed_wedges(points, (n - 1) as nat);
        let len = points.len() as int;
        let back = points.reverse();
        let i = n - 1;
        let j = len - 1 - n;
        turns(i, len);
        turns(j, len);
        assert(back[i] == points[j + 1]);
        assert(back[i + 1] == points[j]);
        wedge_back(points[j + 1], points[j]);
        assert(wedge(back, i) == -wedge(points, j));
        assert(area_to(points, (j + 1) as nat) == area_to(points, j as nat) + wedge(points, j));
    }
}

/// A ring written the other way round has the opposite area.
pub proof fn reversed_area(points: Seq<LatticePoint>)
    requires
        points.len() > 0,
    ensures
        twice_area(points.reverse()) == -twice_area(points),
{
    let len = points.len() as int;
    let back = points.reverse();
    reversed_wedges(points, (len - 1) as nat);
    turns(len - 1, len);
    assert(back[len - 1] == points[0]);
    assert(back[0] == points[len - 1]);
    wedge_back(points[0], points[len - 1]);
    assert(wedge(back, len - 1) == -wedge(points, len - 1));
    assert(area_to(points, 0) == 0);
}

pub(crate) proof fn cross_back(a: LatticePoint, b: LatticePoint, c: LatticePoint)
    ensures
        cross(c, b, a) == -cross(a, b, c),
{
    assert((b.x - c.x) * (a.y - b.y) == (b.y - a.y) * (c.x - b.x)) by (nonlinear_arith);
    assert((b.y - c.y) * (a.x - b.x) == (b.x - a.x) * (c.y - b.y)) by (nonlinear_arith);
}

/// Turning a ring and then its direction is the same as doing it the other way
/// round, but for where it starts.
pub(crate) proof fn turned_reversed(points: Seq<LatticePoint>)
    requires
        points.len() > 0,
    ensures
        turned(turned(points).reverse()) == points.reverse(),
{
    let n = points.len() as int;
    let a = turned(turned(points).reverse());
    let b = points.reverse();
    assert forall|i: int| 0 <= i < n implies #[trigger] a[i] == b[i] by {
        turned_at(turned(points).reverse(), i);
        if i + 1 < n {
            let j = n - 1 - (i + 1);
            turned_at(points, j);
        } else {
            turned_at(points, n - 1);
        }
    }
    assert(a =~= b);
}

pub(crate) proof fn turned_written(points: Seq<LatticePoint>)
    requires
        points.len() > 0,
    ensures
        written(turned(points)) == written(points),
{
    turned_area(points);
    turned_started(points);
    turned_reversed(points);
    turned_started(turned(points).reverse());
}

pub(crate) proof fn reversed_written(points: Seq<LatticePoint>)
    requires
        points.len() > 0,
    ensures
        written(points.reverse()) == written(points),
{
    reversed_area(points);
    assert(points.reverse().reverse() =~= points);
    let (x, y) = (started(points), started(points.reverse()));
    ring_order_total(x, y, 0);
    if ring_at_most(x, y) && ring_at_most(y, x) {
        assert(x.take(0) =~= y.take(0));
        ring_order_antisymmetric(x, y, 0);
    }
}

proof fn zero_factor(a: int, b: int)
    requires
        a * b == 0,
        a != 0,
    ensures
        b == 0,
{
    assert(b == 0) by (nonlinear_arith)
        requires
            a * b == 0,
            a != 0,
    ;
}

/// Three steps along one line: where the middle one is no standstill and lies
/// along both others, those lie along each other.
pub(crate) proof fn along_is_shared(ux: int, uy: int, vx: int, vy: int, wx: int, wy: int)
    requires
        ux * vy - uy * vx == 0,
        vx * wy - vy * wx == 0,
        vx != 0 || vy != 0,
    ensures
        ux * wy - uy * wx == 0,
{
    if vx != 0 {
        assert(vx * (ux * wy - uy * wx) == ux * (vx * wy - vy * wx) + wx * (ux * vy - uy * vx)) by (nonlinear_arith);
        assert(ux * (vx * wy - vy * wx) == 0) by (nonlinear_arith)
            requires
                vx * wy - vy * wx == 0,
        ;
        assert(wx * (ux * vy - uy * vx) == 0) by (nonlinear_arith)
            requires
                ux * vy - uy * vx == 0,
        ;
        zero_factor(vx, ux * wy - uy * wx);
    } else {
        assert(vy * (ux * wy - uy * wx) == uy * (vx * wy - vy * wx) + wy * (ux * vy - uy * vx)) by (nonlinear_arith);
        assert(uy * (vx * wy - vy * wx) == 0) by (nonlinear_arith)
            requires
                vx * wy - vy * wx == 0,
        ;
        assert(wy * (ux * vy - uy * vx) == 0) by (nonlinear_arith)
            requires
                ux * vy - uy * vx == 0,
        ;
        zero_factor(vy, ux * wy - uy * wx);
    }
}

pub(crate) proof fn flat_skips(points: Seq<LatticePoint>, f: spec_fn(int) -> Seq<LatticePoint>, at: int, n: nat)
    requires
        0 <= at < points.len(),
        n <= points.len(),
        forall|i: int|
            0 <= i < n ==> (#[trigger] f(i)) == (if i == at {
                Seq::<LatticePoint>::empty()
            } else {
                seq![points[i]]
            }),
    ensures
        flat(n, f) == (if n <= at {
            points.take(n as int)
        } else {
            points.remove(at).take(n - 1)
        }),
    decreases n,
{
    if n > 0 {
        flat_skips(points, f, at, (n - 1) as nat);
        let i = n - 1;
        let rest = points.remove(at);
        assert(flat(n, f) == flat(i as nat, f) + f(i));
        if i < at {
            assert(points.take(n as int) =~= points.take(i) + seq![points[i]]);
        } else if i == at {
            assert(flat(n, f) =~= points.take(i));
            assert(rest.take(i) =~= points.take(i));
        } else {
            assert(rest[i - 1] == points[i]);
            assert(rest.take(i) =~= rest.take(i - 1) + seq![points[i]]);
        }
    } else {
        assert(points.take(0) =~= Seq::empty());
    }
}

} // verus!
