//! A digest of an outline that does not depend on how the outline is written.
use vstd::bytes::{spec_u64_from_le_bytes, spec_u64_to_le_bytes, u64_from_le_bytes, u64_to_le_bytes};
use vstd::prelude::*;

use crate::listing::{flat, folded};
use crate::scalar::Scalar;

verus! {

/// A point in plan.
#[derive(Clone, Copy, Debug)]
pub struct PlanPoint<N> {
    pub x: N,
    pub y: N,
}

/// A point of the lattice that outlines are held to.
#[derive(Clone, Copy, Debug, PartialEq, Eq, Structural, PartialOrd, Ord, Hash)]
pub struct LatticePoint {
    pub x: i64,
    pub y: i64,
}

/// Two digests of an outline's canonical form, one read forward and one
/// backward.
#[derive(Clone, Copy, Debug, PartialEq, Eq, Structural, PartialOrd, Ord, Hash)]
pub struct Footprint {
    pub forward: u64,
    pub backward: u64,
}

pub const FNV_PRIME: u64 = 0x0000_0100_0000_01b3;

pub const FORWARD_BASIS: u64 = 0xcbf2_9ce4_8422_2325;

pub const BACKWARD_BASIS: u64 = 0x9e37_79b9_7f4a_7c15;

pub open spec fn fnv_step(bytes: Seq<u8>) -> spec_fn(u64, int) -> u64 {
    |hash: u64, i: int| (hash ^ (bytes[i] as u64)).wrapping_mul(FNV_PRIME)
}

/// FNV-1a over bytes.
pub open spec fn fnv(bytes: Seq<u8>, hash: u64) -> u64 {
    folded(bytes.len(), hash, fnv_step(bytes))
}

/// FNV-1a over bytes.
pub fn fnv1a(bytes: &Vec<u8>, hash: u64) -> (r: u64)
    ensures
        r == fnv(bytes@, hash),
{
    let mut state: u64 = hash;
    let ghost step = fnv_step(bytes@);
    for i in 0..bytes.len()
        invariant
            step == fnv_step(bytes@),
            state == folded(i as nat, hash, step),
    {
        state = (state ^ (bytes[i] as u64)).wrapping_mul(FNV_PRIME);
    }
    state
}

/// The third component of (b - a) × (c - b).
pub open spec fn cross(a: LatticePoint, b: LatticePoint, c: LatticePoint) -> int {
    (b.x - a.x) * (c.y - b.y) - (b.y - a.y) * (c.x - b.x)
}

proof fn product_in_range(a: i64, b: i64)
    ensures
        -0x4000_0000_0000_0000_0000_0000_0000_0000 <= a * b <= 0x4000_0000_0000_0000_0000_0000_0000_0000,
{
    assert(-0x4000_0000_0000_0000_0000_0000_0000_0000 <= a * b <= 0x4000_0000_0000_0000_0000_0000_0000_0000)
        by (nonlinear_arith)
        requires
            -0x8000_0000_0000_0000 <= a <= 0x7fff_ffff_ffff_ffff,
            -0x8000_0000_0000_0000 <= b <= 0x7fff_ffff_ffff_ffff,
    ;
}

/// The third component of (b - a) × (c - b), on lattice points.
pub fn cross_z(a: LatticePoint, b: LatticePoint, c: LatticePoint) -> (r: i128)
    requires
        i64::MIN <= b.x - a.x <= i64::MAX,
        i64::MIN <= b.y - a.y <= i64::MAX,
        i64::MIN <= c.x - b.x <= i64::MAX,
        i64::MIN <= c.y - b.y <= i64::MAX,
        i128::MIN <= cross(a, b, c) <= i128::MAX,
    ensures
        r == cross(a, b, c),
{
    let dx: i64 = b.x - a.x;
    let dy: i64 = b.y - a.y;
    let ex: i64 = c.x - b.x;
    let ey: i64 = c.y - b.y;
    proof {
        product_in_range(dx, ey);
        product_in_range(dy, ex);
    }
    (dx as i128) * (ey as i128) - (dy as i128) * (ex as i128)
}

/// What one side of a ring adds to twice its area.
pub open spec fn wedge(ring: Seq<LatticePoint>, i: int) -> int {
    let a = ring[i];
    let b = ring[(i + 1) % ring.len() as int];
    a.x * b.y - a.y * b.x
}

/// What the first `n` sides add to twice the area.
pub open spec fn area_to(ring: Seq<LatticePoint>, n: nat) -> int
    decreases n,
{
    if n == 0 {
        0
    } else {
        area_to(ring, (n - 1) as nat) + wedge(ring, n - 1)
    }
}

/// Twice the signed area of a ring.
pub open spec fn twice_area(ring: Seq<LatticePoint>) -> int {
    area_to(ring, ring.len())
}

/// Twice the signed area of a lattice ring, exactly.
pub fn signed_area(ring: &Vec<LatticePoint>) -> (r: i128)
    requires
        forall|i: int| 0 <= i < ring@.len() ==> i128::MIN <= #[trigger] wedge(ring@, i) <= i128::MAX,
        forall|n: nat| n <= ring@.len() ==> i128::MIN <= #[trigger] area_to(ring@, n) <= i128::MAX,
    ensures
        r == twice_area(ring@),
{
    let mut total: i128 = 0;
    let count: usize = ring.len();
    for i in 0..count
        invariant
            count == ring@.len(),
            forall|i: int| 0 <= i < ring@.len() ==> i128::MIN <= #[trigger] wedge(ring@, i) <= i128::MAX,
            forall|n: nat| n <= ring@.len() ==> i128::MIN <= #[trigger] area_to(ring@, n) <= i128::MAX,
            total == area_to(ring@, i as nat),
    {
        let a = ring[i];
        let next: usize = if i + 1 == count {
            0
        } else {
            i + 1
        };
        proof {
            if i + 1 == count {
                assert((i + 1) % count as int == 0) by (nonlinear_arith)
                    requires
                        i + 1 == count,
                        count > 0,
                ;
            } else {
                assert((i + 1) % count as int == i + 1) by (nonlinear_arith)
                    requires
                        0 <= i + 1 < count,
                ;
            }
        }
        let b = ring[next];
        proof {
            product_in_range(a.x, b.y);
            product_in_range(a.y, b.x);
        }
        assert(wedge(ring@, i as int) == a.x * b.y - a.y * b.x);
        let side: i128 = (a.x as i128) * (b.y as i128) - (a.y as i128) * (b.x as i128);
        assert(area_to(ring@, (i + 1) as nat) == area_to(ring@, i as nat) + wedge(ring@, i as int));
        total = total + side;
    }
    total
}

/// By the first coordinate and then the second.
pub open spec fn point_before(a: LatticePoint, b: LatticePoint) -> bool {
    a.x < b.x || (a.x == b.x && a.y < b.y)
}

fn is_point_before(a: LatticePoint, b: LatticePoint) -> (r: bool)
    ensures
        r == point_before(a, b),
{
    a.x < b.x || (a.x == b.x && a.y < b.y)
}

/// Points one by one; a ring comes before those that it begins.
pub open spec fn ring_at_most_from(a: Seq<LatticePoint>, b: Seq<LatticePoint>, i: int) -> bool
    decreases a.len() - i,
{
    if i >= a.len() {
        true
    } else if i >= b.len() {
        false
    } else if a[i] == b[i] {
        ring_at_most_from(a, b, i + 1)
    } else {
        point_before(a[i], b[i])
    }
}

/// The order of rings.
pub open spec fn ring_at_most(a: Seq<LatticePoint>, b: Seq<LatticePoint>) -> bool {
    ring_at_most_from(a, b, 0)
}

fn is_ring_at_most(a: &Vec<LatticePoint>, b: &Vec<LatticePoint>) -> (r: bool)
    ensures
        r == ring_at_most(a@, b@),
{
    let mut i: usize = 0;
    while i < a.len()
        invariant
            i <= a@.len(),
            ring_at_most(a@, b@) == ring_at_most_from(a@, b@, i as int),
        decreases a@.len() - i,
    {
        if i >= b.len() {
            return false;
        }
        if a[i] != b[i] {
            return is_point_before(a[i], b[i]);
        }
        i = i + 1;
    }
    true
}

/// The points of a ring on the lattice.
pub open spec fn on_lattice<N: Scalar>(ring: Seq<PlanPoint<N>>) -> Seq<LatticePoint> {
    Seq::new(ring.len(), |i: int| LatticePoint { x: cell_of(ring[i].x), y: cell_of(ring[i].y) })
}

/// The lattice coordinate of a length: whole millionths.
pub open spec fn cell_of<N: Scalar>(value: N) -> i64 {
    value.over(N::of_decimal(1, 6)).nearest()
}

/// A ring without points at its end that repeat its first.
pub open spec fn unclosed(points: Seq<LatticePoint>) -> Seq<LatticePoint>
    decreases points.len(),
{
    if points.len() > 1 && points[0] == points.last() {
        unclosed(points.drop_last())
    } else {
        points
    }
}

pub open spec fn fresh(points: Seq<LatticePoint>) -> spec_fn(int) -> Seq<LatticePoint> {
    |i: int|
        if i > 0 && points[i - 1] == points[i] {
            Seq::empty()
        } else {
            seq![points[i]]
        }
}

/// A ring without points that repeat the one before them.
pub open spec fn deduplicated(points: Seq<LatticePoint>) -> Seq<LatticePoint> {
    flat(points.len(), fresh(points))
}

/// A ring without a last point that repeats its first.
pub open spec fn opened(points: Seq<LatticePoint>) -> Seq<LatticePoint> {
    if points.len() > 1 && points[0] == points.last() {
        points.drop_last()
    } else {
        points
    }
}

/// A point that does not lie on the line of its neighbours.
pub open spec fn is_corner(points: Seq<LatticePoint>, i: int) -> bool {
    let n = points.len() as int;
    cross(points[(i + n - 1) % n], points[i], points[(i + 1) % n]) != 0
}

pub open spec fn corner(points: Seq<LatticePoint>) -> spec_fn(int) -> Seq<LatticePoint> {
    |i: int|
        if is_corner(points, i) {
            seq![points[i]]
        } else {
            Seq::empty()
        }
}

/// A ring's corners, without repeats, also across the side that closes it.
pub open spec fn corners(points: Seq<LatticePoint>) -> Seq<LatticePoint> {
    opened(deduplicated(flat(points.len(), corner(points))))
}

/// Points of a flat list come from its parts.
proof fn flat_within(points: Seq<LatticePoint>, f: spec_fn(int) -> Seq<LatticePoint>, n: nat)
    requires
        n <= points.len(),
        forall|i: int| 0 <= i < n ==> (#[trigger] f(i)).len() == 0 || f(i) == seq![points[i]],
    ensures
        flat(n, f).len() <= n,
        forall|k: int| 0 <= k < flat(n, f).len() ==> points.contains(#[trigger] flat(n, f)[k]),
    decreases n,
{
    if n > 0 {
        flat_within(points, f, (n - 1) as nat);
        let before = flat((n - 1) as nat, f);
        assert(flat(n, f) == before + f(n - 1));
        assert forall|k: int| 0 <= k < flat(n, f).len() implies points.contains(#[trigger] flat(n, f)[k]) by {
            if k < before.len() {
                assert(flat(n, f)[k] == before[k]);
            } else {
                assert(flat(n, f)[k] == points[n - 1]);
            }
        }
    }
}

proof fn deduplicated_within(points: Seq<LatticePoint>)
    ensures
        deduplicated(points).len() <= points.len(),
        forall|k: int| 0 <= k < deduplicated(points).len() ==> points.contains(#[trigger] deduplicated(points)[k]),
{
    flat_within(points, fresh(points), points.len());
}

proof fn corners_within(points: Seq<LatticePoint>)
    ensures
        corners(points).len() <= points.len(),
        forall|k: int| 0 <= k < corners(points).len() ==> points.contains(#[trigger] corners(points)[k]),
{
    let kept = flat(points.len(), corner(points));
    flat_within(points, corner(points), points.len());
    deduplicated_within(kept);
    let fresh_ones = deduplicated(kept);
    assert forall|k: int| 0 <= k < corners(points).len() implies points.contains(#[trigger] corners(points)[k]) by {
        assert(corners(points)[k] == fresh_ones[k]);
        assert(kept.contains(corners(points)[k]));
        let j = choose|j: int| 0 <= j < kept.len() && kept[j] == corners(points)[k];
        assert(points.contains(kept[j]));
    }
}

/// Corners taken until nothing goes any more, or too little is left.
pub open spec fn thinned(points: Seq<LatticePoint>) -> Seq<LatticePoint>
    decreases points.len(),
{
    let next = corners(points);
    if next.len() >= points.len() || next.len() < 3 {
        next
    } else {
        thinned(next)
    }
}

/// The distinct points of a ring that it takes to draw it.
pub open spec fn essential(points: Seq<LatticePoint>) -> Seq<LatticePoint> {
    let distinct = opened(deduplicated(unclosed(points)));
    if distinct.len() >= 3 {
        thinned(distinct)
    } else {
        distinct
    }
}

/// A ring that starts at `k`.
pub open spec fn started_at(points: Seq<LatticePoint>, k: int) -> Seq<LatticePoint> {
    points.skip(k) + points.take(k)
}

/// The place before `n` from which a ring comes first, the first of equals.
pub open spec fn least_to(points: Seq<LatticePoint>, n: nat) -> int
    decreases n,
{
    if n <= 1 {
        0
    } else {
        let best = least_to(points, (n - 1) as nat);
        if ring_at_most(started_at(points, best), started_at(points, n - 1)) {
            best
        } else {
            n - 1
        }
    }
}

/// A ring that starts at its least point, and where it passes that more than
/// once, so that it comes first.
pub open spec fn started(points: Seq<LatticePoint>) -> Seq<LatticePoint> {
    started_at(points, least_to(points, points.len()))
}

/// The one of two rings that comes first.
pub open spec fn lesser(a: Seq<LatticePoint>, b: Seq<LatticePoint>) -> Seq<LatticePoint> {
    if ring_at_most(a, b) {
        a
    } else {
        b
    }
}

/// A ring drawn counter-clockwise from its least point on; where it turns as
/// much one way as the other, in the direction that comes first.
pub open spec fn written(points: Seq<LatticePoint>) -> Seq<LatticePoint> {
    if twice_area(points) > 0 {
        started(points)
    } else if twice_area(points) < 0 {
        started(points.reverse())
    } else {
        lesser(started(points), started(points.reverse()))
    }
}

/// One way to write a ring; none where it encloses nothing.
pub open spec fn canonical_ring(points: Seq<LatticePoint>) -> Option<Seq<LatticePoint>> {
    let kept = essential(points);
    if kept.len() < 3 {
        None
    } else {
        Some(written(kept))
    }
}

/// Where a ring goes among sorted ones: behind those that are at most it.
pub open spec fn ring_slot(rings: Seq<Seq<LatticePoint>>, ring: Seq<LatticePoint>, p: int) -> int
    decreases rings.len() - p,
{
    if p >= rings.len() || !ring_at_most(rings[p], ring) {
        p
    } else {
        ring_slot(rings, ring, p + 1)
    }
}

/// Sorted rings with one more.
pub open spec fn ring_placed(rings: Seq<Seq<LatticePoint>>, ring: Seq<LatticePoint>) -> Seq<Seq<LatticePoint>> {
    rings.insert(ring_slot(rings, ring, 0), ring)
}

pub open spec fn ring_step(face: Seq<Seq<LatticePoint>>) -> spec_fn(Seq<Seq<LatticePoint>>, int) -> Seq<
    Seq<LatticePoint>,
> {
    |rings: Seq<Seq<LatticePoint>>, i: int|
        match canonical_ring(face[i]) {
            Some(ring) => ring_placed(rings, ring),
            None => rings,
        }
}

/// One way to write an outline: its rings, each in canonical form, in order.
pub open spec fn canonical(face: Seq<Seq<LatticePoint>>) -> Seq<Seq<LatticePoint>> {
    folded(face.len(), Seq::empty(), ring_step(face))
}

/// No coordinate of a ring is further from zero than `reach`.
pub open spec fn reaches(ring: Seq<LatticePoint>, reach: int) -> bool {
    forall|i: int|
        0 <= i < ring.len() ==> -reach <= (#[trigger] ring[i]).x <= reach && -reach <= ring[i].y <= reach
}

/// Differences and areas of a ring can be computed.
pub open spec fn fits_within(ring: Seq<LatticePoint>, reach: int) -> bool {
    &&& 0 <= reach
    &&& 2 * reach <= i64::MAX
    &&& ring.len() * (2 * (reach * reach)) <= i128::MAX
    &&& reaches(ring, reach)
}

/// A ring whose area fits the numbers it is computed in.
pub open spec fn fits(ring: Seq<LatticePoint>) -> bool {
    exists|reach: int| #[trigger] fits_within(ring, reach)
}

/// The points of an outline on the lattice.
pub open spec fn face_on_lattice<N: Scalar>(face: Seq<Vec<PlanPoint<N>>>) -> Seq<Seq<LatticePoint>> {
    Seq::new(face.len(), |i: int| on_lattice(face[i]@))
}

/// Every ring of an outline fits.
pub open spec fn face_fits<N: Scalar>(face: Seq<Vec<PlanPoint<N>>>) -> bool {
    forall|i: int| 0 <= i < face.len() ==> fits(#[trigger] face_on_lattice(face)[i])
}

proof fn square_bounds(a: int, b: int, reach: int)
    requires
        -reach <= a <= reach,
        -reach <= b <= reach,
    ensures
        -(reach * reach) <= a * b <= reach * reach,
{
    assert(-(reach * reach) <= a * b <= reach * reach) by (nonlinear_arith)
        requires
            -reach <= a <= reach,
            -reach <= b <= reach,
    ;
}

proof fn cross_fits(a: LatticePoint, b: LatticePoint, c: LatticePoint, reach: int)
    requires
        0 <= reach,
        2 * reach <= i64::MAX,
        -reach <= a.x <= reach,
        -reach <= a.y <= reach,
        -reach <= b.x <= reach,
        -reach <= b.y <= reach,
        -reach <= c.x <= reach,
        -reach <= c.y <= reach,
    ensures
        i64::MIN <= b.x - a.x <= i64::MAX,
        i64::MIN <= b.y - a.y <= i64::MAX,
        i64::MIN <= c.x - b.x <= i64::MAX,
        i64::MIN <= c.y - b.y <= i64::MAX,
        i128::MIN <= cross(a, b, c) <= i128::MAX,
{
    let most: int = 2 * reach;
    square_bounds(b.x - a.x, c.y - b.y, most);
    square_bounds(b.y - a.y, c.x - b.x, most);
    assert(most * most <= 0x3fff_ffff_ffff_ffff_ffff_ffff_ffff_ffff) by (nonlinear_arith)
        requires
            0 <= most <= 0x7fff_ffff_ffff_ffff,
    ;
}

proof fn wedge_bounds(ring: Seq<LatticePoint>, i: int, reach: int)
    requires
        0 <= i < ring.len(),
        reaches(ring, reach),
    ensures
        -(2 * (reach * reach)) <= wedge(ring, i) <= 2 * (reach * reach),
{
    let j = (i + 1) % ring.len() as int;
    assert(0 <= j < ring.len()) by (nonlinear_arith)
        requires
            ring.len() > 0,
            j == (i + 1) % ring.len() as int,
    ;
    square_bounds(ring[i].x as int, ring[j].y as int, reach);
    square_bounds(ring[i].y as int, ring[j].x as int, reach);
}

proof fn area_bounds(ring: Seq<LatticePoint>, n: nat, reach: int)
    requires
        n <= ring.len(),
        reaches(ring, reach),
    ensures
        -(n * (2 * (reach * reach))) <= area_to(ring, n) <= n * (2 * (reach * reach)),
    decreases n,
{
    let one = 2 * (reach * reach);
    if n > 0 {
        area_bounds(ring, (n - 1) as nat, reach);
        wedge_bounds(ring, n - 1, reach);
        assert(n * one == (n - 1) * one + one) by (nonlinear_arith);
    } else {
        assert(0 * one == 0) by (nonlinear_arith);
    }
}

proof fn area_fits(ring: Seq<LatticePoint>, reach: int)
    requires
        fits_within(ring, reach),
    ensures
        forall|i: int| 0 <= i < ring.len() ==> i128::MIN <= #[trigger] wedge(ring, i) <= i128::MAX,
        forall|n: nat| n <= ring.len() ==> i128::MIN <= #[trigger] area_to(ring, n) <= i128::MAX,
{
    let one = 2 * (reach * reach);
    assert(0 <= one) by (nonlinear_arith)
        requires
            one == 2 * (reach * reach),
    ;
    assert forall|i: int| 0 <= i < ring.len() implies i128::MIN <= #[trigger] wedge(ring, i) <= i128::MAX by {
        wedge_bounds(ring, i, reach);
        assert(one <= ring.len() * one) by (nonlinear_arith)
            requires
                0 <= one,
                ring.len() >= 1,
        ;
    }
    assert forall|n: nat| n <= ring.len() implies i128::MIN <= #[trigger] area_to(ring, n) <= i128::MAX by {
        area_bounds(ring, n, reach);
        assert(n * one <= ring.len() * one) by (nonlinear_arith)
            requires
                0 <= one,
                n <= ring.len(),
        ;
    }
}

/// Points taken from a ring that fits make one that fits.
proof fn fewer_fit(ring: Seq<LatticePoint>, fewer: Seq<LatticePoint>, reach: int)
    requires
        fits_within(ring, reach),
        fewer.len() <= ring.len(),
        forall|k: int| 0 <= k < fewer.len() ==> ring.contains(#[trigger] fewer[k]),
    ensures
        fits_within(fewer, reach),
{
    let one = 2 * (reach * reach);
    assert(fewer.len() * one <= ring.len() * one) by (nonlinear_arith)
        requires
            one == 2 * (reach * reach),
            fewer.len() <= ring.len(),
    ;
    assert forall|k: int| 0 <= k < fewer.len() implies -reach <= (#[trigger] fewer[k]).x <= reach && -reach
        <= fewer[k].y <= reach by {
        assert(ring.contains(fewer[k]));
        let j = choose|j: int| 0 <= j < ring.len() && ring[j] == fewer[k];
        assert(-reach <= ring[j].x <= reach && -reach <= ring[j].y <= reach);
    }
}

/// The size of a coordinate.
pub open spec fn size_of_coordinate(value: i64) -> int {
    if value < 0 {
        -value
    } else {
        value as int
    }
}

fn find_size(value: i64) -> (r: u64)
    ensures
        r == size_of_coordinate(value),
{
    if value < 0 {
        (-(value as i128)) as u64
    } else {
        value as u64
    }
}

/// Whether the area of a ring fits the numbers it is computed in.
pub fn ring_fits(ring: &Vec<LatticePoint>) -> (r: bool)
    ensures
        r == fits(ring@),
{
    let mut reach: u64 = 0;
    for i in 0..ring.len()
        invariant
            reaches(ring@.take(i as int), reach as int),
            forall|other: int| #[trigger] reaches(ring@, other) && 0 <= other ==> reach <= other,
    {
        let x: u64 = find_size(ring[i].x);
        let y: u64 = find_size(ring[i].y);
        let before: Ghost<u64> = Ghost(reach);
        if reach < x {
            reach = x;
        }
        if reach < y {
            reach = y;
        }
        proof {
            let now = ring@.take(i + 1);
            assert forall|k: int| 0 <= k < now.len() implies -reach <= (#[trigger] now[k]).x <= reach && -reach
                <= now[k].y <= reach by {
                if k < i {
                    assert(now[k] == ring@.take(i as int)[k]);
                } else {
                    assert(now[k] == ring@[i as int]);
                }
            }
            assert forall|other: int| #[trigger] reaches(ring@, other) && 0 <= other implies reach <= other by {
                assert(-other <= ring@[i as int].x <= other && -other <= ring@[i as int].y <= other);
            }
        }
    }
    assert(ring@.take(ring@.len() as int) =~= ring@);
    let most: u64 = 0x3fff_ffff_ffff_ffff;
    let ok: bool = if reach > most {
        false
    } else {
        assert(0 <= reach * reach <= 0x1000_0000_0000_0000_0000_0000_0000_0000) by (nonlinear_arith)
            requires
                0 <= reach <= 0x3fff_ffff_ffff_ffff,
        ;
        let one: u128 = 2 * ((reach as u128) * (reach as u128));
        match one.checked_mul(ring.len() as u128) {
            Some(all) => all <= 0x7fff_ffff_ffff_ffff_ffff_ffff_ffff_ffff,
            None => false,
        }
    };
    proof {
        let one = 2 * (reach * reach);
        assert(one * ring@.len() == ring@.len() * one) by (nonlinear_arith);
        if ok {
            assert(fits_within(ring@, reach as int));
        } else if fits(ring@) {
            let other = choose|other: int| #[trigger] fits_within(ring@, other);
            assert(reach <= other);
            assert(ring@.len() * (2 * (reach * reach)) <= ring@.len() * (2 * (other * other))) by (nonlinear_arith)
                requires
                    0 <= reach <= other,
            ;
        }
    }
    ok
}

/// Whether every ring of an outline fits.
pub fn outline_fits<N: Scalar>(face: &Vec<Vec<PlanPoint<N>>>) -> (r: bool)
    ensures
        r == face_fits(face@),
{
    for i in 0..face.len()
        invariant
            forall|k: int| 0 <= k < i ==> fits(#[trigger] face_on_lattice(face@)[k]),
    {
        let points = to_lattice(&face[i]);
        assert(face_on_lattice(face@)[i as int] == points@);
        if !ring_fits(&points) {
            return false;
        }
    }
    true
}

fn to_lattice<N: Scalar>(ring: &Vec<PlanPoint<N>>) -> (r: Vec<LatticePoint>)
    ensures
        r@ == on_lattice(ring@),
{
    let mut points: Vec<LatticePoint> = Vec::new();
    let quantum = N::decimal(1, 6);
    for k in 0..ring.len()
        invariant
            quantum == N::of_decimal(1, 6),
            points@ =~= on_lattice(ring@).take(k as int),
    {
        points.push(LatticePoint { x: ring[k].x.div(quantum).round(), y: ring[k].y.div(quantum).round() });
    }
    assert(points@ =~= on_lattice(ring@));
    points
}

fn drop_repeats(points: &Vec<LatticePoint>) -> (r: Vec<LatticePoint>)
    ensures
        r@ == deduplicated(points@),
{
    let mut kept: Vec<LatticePoint> = Vec::new();
    let ghost f = fresh(points@);
    for i in 0..points.len()
        invariant
            f == fresh(points@),
            kept@ == flat(i as nat, f),
    {
        if i == 0 || points[i - 1] != points[i] {
            kept.push(points[i]);
        }
        assert(kept@ =~= flat(i as nat, f) + f(i as int));
    }
    kept
}

proof fn wraps(i: int, n: int)
    requires
        0 <= i < n,
    ensures
        (i + n - 1) % n == (if i == 0 {
            n - 1
        } else {
            i - 1
        }),
        (i + 1) % n == (if i + 1 == n {
            0
        } else {
            i + 1
        }),
{
    if i == 0 {
        assert((i + n - 1) % n == n - 1) by (nonlinear_arith)
            requires
                i == 0,
                n > 0,
        ;
    } else {
        assert((i + n - 1) % n == i - 1) by (nonlinear_arith)
            requires
                0 < i < n,
        ;
    }
    if i + 1 == n {
        assert((i + 1) % n == 0) by (nonlinear_arith)
            requires
                i + 1 == n,
                n > 0,
        ;
    } else {
        assert((i + 1) % n == i + 1) by (nonlinear_arith)
            requires
                0 <= i + 1 < n,
        ;
    }
}

fn take_corners(points: &Vec<LatticePoint>, reach: Ghost<int>) -> (r: Vec<LatticePoint>)
    requires
        fits_within(points@, reach@),
    ensures
        r@ == corners(points@),
        fits_within(r@, reach@),
        r@.len() <= points@.len(),
{
    let mut kept: Vec<LatticePoint> = Vec::new();
    let count: usize = points.len();
    let ghost f = corner(points@);
    for i in 0..count
        invariant
            count == points@.len(),
            fits_within(points@, reach@),
            f == corner(points@),
            kept@ == flat(i as nat, f),
    {
        let before: usize = if i == 0 {
            count - 1
        } else {
            i - 1
        };
        let after: usize = if i + 1 == count {
            0
        } else {
            i + 1
        };
        proof {
            wraps(i as int, count as int);
            cross_fits(points@[before as int], points@[i as int], points@[after as int], reach@);
        }
        if cross_z(points[before], points[i], points[after]) != 0 {
            kept.push(points[i]);
        }
        assert(kept@ =~= flat(i as nat, f) + f(i as int));
    }
    let mut r = drop_repeats(&kept);
    let ghost shown = r@;
    if r.len() > 1 && r[0] == r[r.len() - 1] {
        r.pop();
        assert(r@ =~= shown.drop_last());
    }
    proof {
        corners_within(points@);
        fewer_fit(points@, r@, reach@);
    }
    r
}

fn thin(points: Vec<LatticePoint>, reach: Ghost<int>) -> (r: Vec<LatticePoint>)
    requires
        fits_within(points@, reach@),
    ensures
        r@ == thinned(points@),
        fits_within(r@, reach@),
    decreases points@.len(),
{
    let next = take_corners(&points, reach);
    if next.len() == points.len() || next.len() < 3 {
        next
    } else {
        thin(next, reach)
    }
}

/// A ring whose ends are apart.
fn unclose(points: &mut Vec<LatticePoint>)
    ensures
        final(points)@ == unclosed(old(points)@),
{
    let ghost all = points@;
    while points.len() > 1 && points[0] == points[points.len() - 1]
        invariant
            unclosed(all) == unclosed(points@),
        decreases points@.len(),
    {
        let ghost before = points@;
        points.pop();
        assert(points@ =~= before.drop_last());
    }
}

proof fn unclosed_within(points: Seq<LatticePoint>)
    ensures
        unclosed(points).len() <= points.len(),
        forall|k: int| 0 <= k < unclosed(points).len() ==> #[trigger] unclosed(points)[k] == points[k],
    decreases points.len(),
{
    if points.len() > 1 && points[0] == points.last() {
        let fewer = points.drop_last();
        unclosed_within(fewer);
        assert forall|k: int| 0 <= k < unclosed(points).len() implies #[trigger] unclosed(points)[k] == points[k] by {
            assert(unclosed(fewer)[k] == fewer[k]);
        }
    }
}

fn reduce(ring: Vec<LatticePoint>, reach: Ghost<int>) -> (r: Vec<LatticePoint>)
    requires
        fits_within(ring@, reach@),
    ensures
        r@ == essential(ring@),
        fits_within(r@, reach@),
{
    let mut points = ring;
    unclose(&mut points);
    proof {
        unclosed_within(ring@);
        assert forall|k: int| 0 <= k < points@.len() implies ring@.contains(#[trigger] points@[k]) by {
            assert(ring@[k] == points@[k]);
        }
        fewer_fit(ring@, points@, reach@);
        deduplicated_within(points@);
    }
    let mut distinct = drop_repeats(&points);
    proof {
        fewer_fit(points@, distinct@, reach@);
    }
    let ghost shown = distinct@;
    if distinct.len() > 1 && distinct[0] == distinct[distinct.len() - 1] {
        distinct.pop();
        assert(distinct@ =~= shown.drop_last());
    }
    proof {
        assert forall|k: int| 0 <= k < distinct@.len() implies shown.contains(#[trigger] distinct@[k]) by {
            assert(shown[k] == distinct@[k]);
        }
        fewer_fit(shown, distinct@, reach@);
    }
    if distinct.len() >= 3 {
        thin(distinct, reach)
    } else {
        distinct
    }
}

fn turn_back(points: &Vec<LatticePoint>) -> (r: Vec<LatticePoint>)
    ensures
        r@ == points@.reverse(),
{
    let mut turned: Vec<LatticePoint> = Vec::new();
    let count: usize = points.len();
    for i in 0..count
        invariant
            count == points@.len(),
            turned@ =~= Seq::new(i as nat, |k: int| points@[count - 1 - k]),
    {
        turned.push(points[count - 1 - i]);
    }
    assert(turned@ =~= points@.reverse());
    turned
}

fn write_ring(points: &Vec<LatticePoint>, reach: Ghost<int>) -> (r: Vec<LatticePoint>)
    requires
        fits_within(points@, reach@),
        points@.len() > 0,
    ensures
        r@ == written(points@),
{
    proof {
        area_fits(points@, reach@);
    }
    let area: i128 = signed_area(points);
    if area > 0 {
        return start(points);
    }
    let back = start(&turn_back(points));
    if area < 0 {
        return back;
    }
    let forth = start(points);
    if is_ring_at_most(&forth, &back) {
        forth
    } else {
        back
    }
}

/// Whether a ring that starts at `a` comes no later than one that starts at `b`.
fn is_start_at_most(points: &Vec<LatticePoint>, a: usize, b: usize) -> (r: bool)
    requires
        a < points@.len(),
        b < points@.len(),
    ensures
        r == ring_at_most(started_at(points@, a as int), started_at(points@, b as int)),
{
    let count: usize = points.len();
    let ghost x = started_at(points@, a as int);
    let ghost y = started_at(points@, b as int);
    for i in 0..count
        invariant
            a < count == points@.len(),
            b < count,
            x == started_at(points@, a as int),
            y == started_at(points@, b as int),
            ring_at_most(x, y) == ring_at_most_from(x, y, i as int),
    {
        let p = points[if i < count - a {
            a + i
        } else {
            i - (count - a)
        }];
        let q = points[if i < count - b {
            b + i
        } else {
            i - (count - b)
        }];
        assert(x[i as int] == p && y[i as int] == q);
        if p != q {
            return is_point_before(p, q);
        }
    }
    true
}

proof fn least_within(points: Seq<LatticePoint>, n: nat)
    requires
        0 < n <= points.len(),
    ensures
        0 <= least_to(points, n) < n,
    decreases n,
{
    if n > 1 {
        least_within(points, (n - 1) as nat);
    }
}

fn start(points: &Vec<LatticePoint>) -> (r: Vec<LatticePoint>)
    requires
        points@.len() > 0,
    ensures
        r@ == started(points@),
{
    let count: usize = points.len();
    let mut best: usize = 0;
    for i in 1..count
        invariant
            count == points@.len(),
            best == least_to(points@, i as nat),
            best < i,
    {
        if !is_start_at_most(points, best, i) {
            best = i;
        }
    }
    proof {
        least_within(points@, points@.len());
    }
    let mut out: Vec<LatticePoint> = Vec::new();
    for i in best..count
        invariant
            best <= count == points@.len(),
            out@ =~= points@.subrange(best as int, i as int),
    {
        out.push(points[i]);
    }
    for i in 0..best
        invariant
            best <= count == points@.len(),
            out@ =~= points@.skip(best as int) + points@.take(i as int),
    {
        out.push(points[i]);
    }
    out
}

/// Canonical rings of an outline on the lattice.
pub fn canonical_rings<N: Scalar>(face: &Vec<Vec<PlanPoint<N>>>) -> (r: Vec<Vec<LatticePoint>>)
    requires
        face_fits(face@),
    ensures
        shown_rings(r@) == canonical(face_on_lattice(face@)),
{
    let mut rings: Vec<Vec<LatticePoint>> = Vec::new();
    let ghost cells = face_on_lattice(face@);
    let ghost step = ring_step(cells);
    assert(shown_rings(rings@) =~= Seq::empty());
    for i in 0..face.len()
        invariant
            face_fits(face@),
            cells == face_on_lattice(face@),
            step == ring_step(cells),
            shown_rings(rings@) == folded(i as nat, Seq::empty(), step),
    {
        let points = to_lattice(&face[i]);
        assert(points@ =~= cells[i as int]);
        assert(fits(face_on_lattice(face@)[i as int]));
        let reach: Ghost<int> = Ghost(choose|reach: int| #[trigger] fits_within(points@, reach));
        let kept = reduce(points, reach);
        let ghost before = shown_rings(rings@);
        if kept.len() >= 3 {
            let ring = write_ring(&kept, reach);
            let ghost shown = ring@;
            let mut at: usize = 0;
            while at < rings.len() && is_ring_at_most(&rings[at], &ring)
                invariant
                    at <= rings@.len(),
                    before == shown_rings(rings@),
                    shown == ring@,
                    ring_slot(before, shown, 0) == ring_slot(before, shown, at as int),
                decreases rings@.len() - at,
            {
                at = at + 1;
            }
            rings.insert(at, ring);
            assert(shown_rings(rings@) =~= before.insert(at as int, shown));
        }
    }
    rings
}

/// The points of rings.
pub open spec fn shown_rings(rings: Seq<Vec<LatticePoint>>) -> Seq<Seq<LatticePoint>> {
    Seq::new(rings.len(), |i: int| rings[i]@)
}

pub open spec fn point_bytes(ring: Seq<LatticePoint>) -> spec_fn(int) -> Seq<u8> {
    |i: int| spec_u64_to_le_bytes(ring[i].x as u64) + spec_u64_to_le_bytes(ring[i].y as u64)
}

/// A ring as bytes: how many points, then each point's coordinates.
pub open spec fn ring_bytes(ring: Seq<LatticePoint>) -> Seq<u8> {
    spec_u64_to_le_bytes(ring.len() as u64) + flat(ring.len(), point_bytes(ring))
}

pub open spec fn each_ring_bytes(rings: Seq<Seq<LatticePoint>>) -> spec_fn(int) -> Seq<u8> {
    |i: int| ring_bytes(rings[i])
}

/// Rings as bytes: how many, then each ring.
pub open spec fn stream_of(rings: Seq<Seq<LatticePoint>>) -> Seq<u8> {
    spec_u64_to_le_bytes(rings.len() as u64) + flat(rings.len(), each_ring_bytes(rings))
}

/// The digest of rings in canonical form.
pub open spec fn digest(rings: Seq<Seq<LatticePoint>>) -> Footprint {
    Footprint {
        forward: fnv(stream_of(rings), FORWARD_BASIS),
        backward: fnv(stream_of(rings).reverse(), BACKWARD_BASIS),
    }
}

fn append(stream: &mut Vec<u8>, number: u64)
    ensures
        final(stream)@ == old(stream)@ + spec_u64_to_le_bytes(number),
{
    let bytes = u64_to_le_bytes(number);
    let ghost base = stream@;
    for i in 0..bytes.len()
        invariant
            stream@ =~= base + bytes@.take(i as int),
    {
        stream.push(bytes[i]);
    }
    assert(bytes@.take(bytes@.len() as int) =~= bytes@);
}

fn append_ring(stream: &mut Vec<u8>, ring: &Vec<LatticePoint>)
    ensures
        final(stream)@ == old(stream)@ + ring_bytes(ring@),
{
    let ghost base = stream@;
    append(stream, ring.len() as u64);
    let ghost head = spec_u64_to_le_bytes(ring@.len() as u64);
    let ghost f = point_bytes(ring@);
    assert(base + head + flat(0, f) =~= base + head);
    for i in 0..ring.len()
        invariant
            f == point_bytes(ring@),
            stream@ == base + head + flat(i as nat, f),
    {
        append(stream, ring[i].x as u64);
        append(stream, ring[i].y as u64);
        assert(stream@ =~= base + head + (flat(i as nat, f) + f(i as int)));
    }
    assert(stream@ =~= base + ring_bytes(ring@));
}

impl Footprint {
    /// The digest of an outline.
    pub fn of<N: Scalar>(face: &Vec<Vec<PlanPoint<N>>>) -> (r: Self)
        requires
            face_fits(face@),
        ensures
            r == digest(canonical(face_on_lattice(face@))),
    {
        let rings = canonical_rings(face);
        let mut stream: Vec<u8> = Vec::new();
        append(&mut stream, rings.len() as u64);
        let ghost shown = shown_rings(rings@);
        let ghost head = spec_u64_to_le_bytes(shown.len() as u64);
        let ghost f = each_ring_bytes(shown);
        assert(stream@ =~= head);
        assert(head + flat(0, f) =~= head);
        for i in 0..rings.len()
            invariant
                shown == shown_rings(rings@),
                f == each_ring_bytes(shown),
                stream@ == head + flat(i as nat, f),
        {
            append_ring(&mut stream, &rings[i]);
            assert(stream@ =~= head + (flat(i as nat, f) + f(i as int)));
        }
        let mut backward: Vec<u8> = Vec::new();
        let count: usize = stream.len();
        for i in 0..count
            invariant
                count == stream@.len(),
                backward@ =~= Seq::new(i as nat, |k: int| stream@[count - 1 - k]),
        {
            backward.push(stream[count - 1 - i]);
        }
        assert(backward@ =~= stream@.reverse());
        Footprint { forward: fnv1a(&stream, FORWARD_BASIS), backward: fnv1a(&backward, BACKWARD_BASIS) }
    }

    /// The digest as it is stored: two lanes of little-endian bytes.
    pub fn to_lanes(&self) -> (r: (Vec<u8>, Vec<u8>))
        ensures
            r.0@ == spec_u64_to_le_bytes(self.forward),
            r.1@ == spec_u64_to_le_bytes(self.backward),
            r.0@.len() == 8,
            r.1@.len() == 8,
    {
        (u64_to_le_bytes(self.forward), u64_to_le_bytes(self.backward))
    }

    /// The digest that was stored.
    pub fn from_lanes(forward: &Vec<u8>, backward: &Vec<u8>) -> (r: Self)
        requires
            forward@.len() == 8,
            backward@.len() == 8,
        ensures
            r == (Footprint {
                forward: spec_u64_from_le_bytes(forward@),
                backward: spec_u64_from_le_bytes(backward@),
            }),
    {
        Footprint {
            forward: u64_from_le_bytes(forward.as_slice()),
            backward: u64_from_le_bytes(backward.as_slice()),
        }
    }
}

/// A stored digest reads back as it was.
pub proof fn lanes_read_back(print: Footprint)
    ensures
        spec_u64_from_le_bytes(spec_u64_to_le_bytes(print.forward)) == print.forward,
        spec_u64_from_le_bytes(spec_u64_to_le_bytes(print.backward)) == print.backward,
{
    vstd::bytes::lemma_auto_spec_u64_to_from_le_bytes();
}

} // verus!
