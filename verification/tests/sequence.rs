//! Footprints, references and dig orders.
use mine_schedule::error::ScheduleError;
use mine_schedule::scalar::Fixed;
use mine_schedule::sequence::footprint::{
    canonical_rings, cross_z, fnv1a, outline_fits, ring_fits, signed_area, Footprint, LatticePoint, PlanPoint,
};
use mine_schedule::sequence::order::DigOrder;
use mine_schedule::sequence::reference::{
    same_volume, BlockGround, DigBlockRef, GroundSourceStamp, RefStatus, SolidId,
};

fn n(value: i64) -> Fixed {
    Fixed(value * 1_000_000_000)
}

fn point(x: i64, y: i64) -> PlanPoint<Fixed> {
    PlanPoint { x: n(x), y: n(y) }
}

fn ring(points: &[(i64, i64)]) -> Vec<PlanPoint<Fixed>> {
    points.iter().map(|(x, y)| point(*x, *y)).collect()
}

fn cell(x: i64, y: i64) -> LatticePoint {
    LatticePoint { x, y }
}

fn square() -> Vec<PlanPoint<Fixed>> {
    ring(&[(0, 0), (10, 0), (10, 10), (0, 10)])
}

#[test]
fn fnv_is_the_published_function() {
    assert_eq!(fnv1a(&vec![], 0xcbf2_9ce4_8422_2325), 0xcbf2_9ce4_8422_2325);
    assert_eq!(fnv1a(&b"a".to_vec(), 0xcbf2_9ce4_8422_2325), 0xaf63_dc4c_8601_ec8c);
    assert_eq!(fnv1a(&b"foobar".to_vec(), 0xcbf2_9ce4_8422_2325), 0x8594_4171_f739_67e8);
}

#[test]
fn corners_and_areas_are_exact() {
    assert_eq!(cross_z(cell(0, 0), cell(1, 0), cell(1, 1)), 1);
    assert_eq!(cross_z(cell(0, 0), cell(1, 1), cell(3, 3)), 0);
    assert_eq!(signed_area(&vec![cell(0, 0), cell(2, 0), cell(2, 3), cell(0, 3)]), 12);
    assert_eq!(signed_area(&vec![cell(0, 3), cell(2, 3), cell(2, 0), cell(0, 0)]), -12);
    assert_eq!(signed_area(&vec![]), 0);
    // From another point, and further away.
    assert_eq!(signed_area(&vec![cell(2, 0), cell(2, 3), cell(0, 3), cell(0, 0)]), 12);
    assert_eq!(signed_area(&vec![cell(107, -50), cell(107, -47), cell(105, -47), cell(105, -50)]), 12);
}

#[test]
fn a_ring_is_written_one_way() {
    let expected = canonical_rings(&vec![square()]);
    let m = 1_000_000;
    assert_eq!(expected, vec![vec![cell(0, 0), cell(10 * m, 0), cell(10 * m, 10 * m), cell(0, 10 * m)]]);
    // From another corner.
    assert_eq!(canonical_rings(&vec![ring(&[(10, 10), (0, 10), (0, 0), (10, 0)])]), expected);
    // In the other direction.
    assert_eq!(canonical_rings(&vec![ring(&[(0, 10), (10, 10), (10, 0), (0, 0)])]), expected);
    // Closed, with a repeated point and points on its sides.
    let busy = ring(&[(0, 0), (4, 0), (10, 0), (10, 0), (10, 10), (10, 10), (0, 10), (0, 3), (0, 0)]);
    assert_eq!(canonical_rings(&vec![busy]), expected);
}

#[test]
fn a_spike_is_dropped() {
    let spiked = ring(&[(0, 0), (10, 0), (15, 0), (10, 0), (10, 10), (0, 10)]);
    assert_eq!(canonical_rings(&vec![spiked]), canonical_rings(&vec![square()]));
}

#[test]
fn a_spike_at_the_start_is_dropped_too() {
    let triangle = canonical_rings(&vec![ring(&[(0, 0), (10, 0), (0, 10)])]);
    assert_eq!(triangle[0].len(), 3);
    let points = [(5, 5), (0, 0), (10, 0), (0, 10), (0, 0)];
    for k in 0..points.len() {
        let mut turned = points.to_vec();
        turned.rotate_left(k);
        assert_eq!(canonical_rings(&vec![ring(&turned)]), triangle, "from {k}");
    }
}

#[test]
fn a_ring_that_touches_itself_is_written_one_way_too() {
    // Twice through its least point, and once over itself with no area left.
    let pinched = [(0, 0), (10, 0), (10, 5), (0, 0), (5, 10), (0, 10)];
    let crossed = [(0, 0), (10, 10), (10, 0), (0, 10)];
    for points in [&pinched[..], &crossed[..]] {
        let expected = canonical_rings(&vec![ring(points)]);
        assert_eq!(expected[0].len(), points.len());
        assert_eq!(expected[0][0], cell(0, 0));
        for k in 0..points.len() {
            let mut turned = points.to_vec();
            turned.rotate_left(k);
            assert_eq!(canonical_rings(&vec![ring(&turned)]), expected, "from {k}");
            turned.reverse();
            assert_eq!(canonical_rings(&vec![ring(&turned)]), expected, "backward from {k}");
        }
    }
}

#[test]
fn points_on_a_line_and_spikes_change_nothing() {
    // Not a ring of corners: it repeats points, passes straight through some,
    // touches itself and has a spike already.
    let points = [(0, 0), (5, 0), (5, 0), (10, 0), (10, 5), (10, 10), (10, 12), (10, 10), (5, 5), (0, 10), (0, 4)];
    let expected = canonical_rings(&vec![ring(&points)]);
    for at in 0..points.len() {
        let (a, b) = (points[at], points[(at + 1) % points.len()]);
        let step = (b.0 - a.0, b.1 - a.1);
        for times in [-2, 0, 1, 2, 3] {
            let mut more = points.to_vec();
            more.insert(at + 1, (a.0 + times * step.0, a.1 + times * step.1));
            assert_eq!(canonical_rings(&vec![ring(&more)]), expected, "{times} after {at}");
        }
        for far in [(7, -3), (3, 3), (5, 0), (0, 20)] {
            let mut more = points.to_vec();
            more.insert(at + 1, a);
            more.insert(at + 1, far);
            assert_eq!(canonical_rings(&vec![ring(&more)]), expected, "{far:?} after {at}");
        }
    }
}

#[test]
fn a_busy_ring_may_be_written_backward() {
    let mut busy = ring(&[(0, 0), (4, 0), (10, 0), (10, 0), (12, 0), (10, 0), (10, 10), (10, 10), (0, 10), (0, 3), (0, 0)]);
    let forward = Footprint::of(&vec![busy.clone()]);
    busy.reverse();
    assert_eq!(Footprint::of(&vec![busy]), forward);
    assert_eq!(Footprint::of(&vec![square()]), forward);
}

#[test]
fn an_outline_is_known_however_it_is_drawn() {
    let hole = [(2, 2), (2, 4), (4, 4), (4, 2)];
    let face = vec![square(), ring(&hole)];
    // The hole first, backward from another corner and with a spike; the square
    // with points on its sides.
    let drawn = ring(&[(4, 4), (4, 9), (4, 4), (2, 4), (2, 2), (4, 2), (4, 3)]);
    let sides = ring(&[(10, 7), (10, 10), (3, 10), (0, 10), (0, 0), (6, 0), (10, 0)]);
    assert_eq!(Footprint::of(&vec![drawn, sides]), Footprint::of(&face));
}

#[test]
fn rings_are_listed_in_order_and_flat_ones_left_out() {
    let hole = ring(&[(2, 2), (2, 4), (4, 4), (4, 2)]);
    let line = ring(&[(0, 0), (5, 5), (9, 9)]);
    let a = canonical_rings(&vec![square(), hole.clone(), line.clone()]);
    let b = canonical_rings(&vec![line, hole, square()]);
    assert_eq!(a.len(), 2);
    assert_eq!(a, b);
    assert!(canonical_rings::<Fixed>(&vec![vec![], ring(&[(1, 1)]), ring(&[(1, 1), (1, 1)])]).is_empty());
}

#[test]
fn a_footprint_knows_an_outline_from_another() {
    let a = Footprint::of(&vec![square()]);
    assert_eq!(a, Footprint::of(&vec![ring(&[(10, 0), (10, 10), (0, 10), (0, 0)])]));
    // The same centre and area.
    let long = ring(&[(-5, 3), (15, 3), (15, 8), (-5, 8)]);
    assert_ne!(a, Footprint::of(&vec![long]));
    let nothing = Footprint::of::<Fixed>(&vec![]);
    assert_eq!(nothing.forward, fnv1a(&vec![0; 8], 0xcbf2_9ce4_8422_2325));
    assert_eq!(nothing.backward, fnv1a(&vec![0; 8], 0x9e37_79b9_7f4a_7c15));
}

#[test]
fn noise_below_the_lattice_does_not_show() {
    let mut moved = square();
    moved[2].x = Fixed(moved[2].x.0 + 400);
    assert_eq!(Footprint::of(&vec![moved.clone()]), Footprint::of(&vec![square()]));
    moved[2].x = Fixed(moved[2].x.0 + 600);
    assert_ne!(Footprint::of(&vec![moved]), Footprint::of(&vec![square()]));
}

#[test]
fn a_stored_footprint_reads_back() {
    let print = Footprint::of(&vec![square()]);
    let (forward, backward) = print.to_lanes();
    assert_eq!(forward, print.forward.to_le_bytes().to_vec());
    assert_eq!(Footprint::from_lanes(&forward, &backward), print);
}

#[test]
fn outlines_that_are_too_large_are_told() {
    assert!(outline_fits(&vec![square()]));
    assert!(ring_fits(&vec![cell(0, 0), cell(1 << 62, 0)]) == false);
    assert!(ring_fits(&vec![cell(-(1 << 60), 0), cell(1 << 60, 0), cell(0, 1 << 60)]));
    assert!(ring_fits(&vec![cell(i64::MIN, 0)]) == false);
}

fn block() -> BlockGround<Fixed> {
    BlockGround {
        solid: SolidId(1),
        source: GroundSourceStamp(5),
        flitch_base: n(0),
        flitch_top: n(6),
        footprint: Footprint { forward: 1, backward: 2 },
        volume: Some(n(600)),
        plan_area: n(100),
    }
}

fn reference() -> DigBlockRef<Fixed> {
    DigBlockRef {
        solid: SolidId(1),
        source: GroundSourceStamp(5),
        flitch_base: n(0),
        flitch_top: n(6),
        anchor: point(5, 5),
        plan_area: n(100),
        footprint: Footprint { forward: 1, backward: 2 },
        volume: Some(n(600)),
    }
}

#[test]
fn ground_that_agrees_resolves() {
    let other = BlockGround { solid: SolidId(2), ..block() };
    let status = reference().resolve(&vec![other, block()], &vec![true, true]);
    assert_eq!(status.resolved(), Some(1));
    assert_eq!(status.message(), None);
}

#[test]
fn the_most_telling_reason_is_given() {
    let r = reference();
    let none: Vec<BlockGround<Fixed>> = vec![];
    assert!(matches!(r.resolve(&none, &vec![]), RefStatus::SolidMissing));
    let recut = BlockGround { source: GroundSourceStamp(6), ..block() };
    assert!(matches!(r.resolve(&vec![recut], &vec![true]), RefStatus::SourceChanged));
    let higher = BlockGround { flitch_base: n(3), ..block() };
    assert!(matches!(r.resolve(&vec![higher], &vec![true]), RefStatus::FlitchMissing));
    let shorter = BlockGround { flitch_top: n(3), ..block() };
    assert!(matches!(r.resolve(&vec![shorter.clone()], &vec![true]), RefStatus::FlitchTopChanged { now } if now == n(3)));
    assert!(matches!(r.resolve(&vec![block()], &vec![false]), RefStatus::GroundMissing));
    // One flitch at the base still runs to the stored top, but no block of it holds the anchor.
    let status = r.resolve(&vec![shorter, block()], &vec![true, false]);
    assert!(matches!(status, RefStatus::GroundMissing));
    assert!(matches!(r.resolve(&vec![block(), block()], &vec![true, true]), RefStatus::GroundAmbiguous(2)));
    let reshaped = BlockGround { footprint: Footprint { forward: 1, backward: 3 }, plan_area: n(90), ..block() };
    let status = r.resolve(&vec![reshaped], &vec![true]);
    assert!(matches!(status, RefStatus::GroundChanged { was, now } if was == n(100) && now == n(90)));
    assert_eq!(status.message(), Some("sequence-unresolved-changed"));
    let open = BlockGround { volume: None, ..block() };
    let status = r.resolve(&vec![open], &vec![true]);
    assert!(matches!(status, RefStatus::VolumeChanged { was: Some(_), now: None }));
    assert_eq!(status.resolved(), None);
}

#[test]
fn messages_are_told_apart() {
    let all: Vec<RefStatus<Fixed>> = vec![
        RefStatus::SolidMissing,
        RefStatus::FlitchMissing,
        RefStatus::FlitchTopChanged { now: n(1) },
        RefStatus::GroundMissing,
        RefStatus::GroundAmbiguous(2),
        RefStatus::GroundChanged { was: n(1), now: n(2) },
        RefStatus::VolumeChanged { was: None, now: None },
        RefStatus::SourceChanged,
    ];
    let mut keys: Vec<&str> = all.iter().map(|status| status.message().unwrap()).collect();
    assert_eq!(keys[0], "sequence-unresolved-solid");
    assert_eq!(keys[7], "sequence-unresolved-source");
    keys.sort();
    keys.dedup();
    assert_eq!(keys.len(), 8);
}

#[test]
fn volumes_are_the_same_within_a_millionth() {
    assert!(same_volume::<Fixed>(None, None));
    assert!(!same_volume(Some(n(1)), None));
    assert!(same_volume(Some(n(600)), Some(Fixed(n(600).0 + 500_000))));
    assert!(!same_volume(Some(n(600)), Some(Fixed(n(600).0 + 700_000))));
    assert!(same_volume(Some(n(0)), Some(Fixed(1000))));
}

#[test]
fn identities_are_looked_up_as_they_compare() {
    let a = reference().ground_identity();
    let elsewhere = DigBlockRef { anchor: point(1, 1), ..reference() };
    let b = elsewhere.ground_identity();
    assert!(a.is_same(&b));
    assert_eq!(a.key(), b.key());
    let other = DigBlockRef { flitch_top: n(7), ..reference() };
    assert!(!a.is_same(&other.ground_identity()));
    assert_ne!(a.key(), other.ground_identity().key());
}

#[test]
fn malformed_references_are_told() {
    assert!(reference().is_well_formed());
    assert!(!DigBlockRef { plan_area: n(0), ..reference() }.is_well_formed());
    assert!(!DigBlockRef { volume: Some(n(-1)), ..reference() }.is_well_formed());
    assert!(!DigBlockRef { flitch_base: Fixed(i64::MAX), ..reference() }.is_well_formed());
    assert!(DigBlockRef { volume: None, ..reference() }.is_well_formed());
}

fn solid(id: u64) -> DigBlockRef<Fixed> {
    DigBlockRef { solid: SolidId(id), ..reference() }
}

#[test]
fn the_same_ground_is_not_dug_twice() {
    let mut order = DigOrder::new("First".to_string());
    order.insert(9, solid(1)).unwrap();
    order.insert(0, solid(2)).unwrap();
    let again = DigBlockRef { anchor: point(1, 2), ..solid(1) };
    assert!(order.contains(&again));
    assert!(matches!(order.insert(0, again), Err(ScheduleError::DuplicateMember)));
    let malformed = DigBlockRef { plan_area: n(-1), ..solid(3) };
    assert!(matches!(order.insert(0, malformed), Err(ScheduleError::MalformedReference)));
    assert_eq!(order.members().iter().map(|member| member.solid.0).collect::<Vec<_>>(), vec![2, 1]);
}

#[test]
fn members_move_and_go() {
    let mut order = DigOrder::new("First".to_string());
    for id in 1..=4 {
        order.insert(9, solid(id)).unwrap();
    }
    order.move_member(0, 2).unwrap();
    let ids = |order: &DigOrder<Fixed>| order.members().iter().map(|member| member.solid.0).collect::<Vec<_>>();
    assert_eq!(ids(&order), vec![2, 3, 1, 4]);
    order.move_member(2, 0).unwrap();
    assert_eq!(ids(&order), vec![1, 2, 3, 4]);
    assert!(matches!(order.move_member(0, 4), Err(ScheduleError::UnknownMember)));
    assert!(matches!(order.remove(4), Err(ScheduleError::UnknownMember)));
    order.remove(1).unwrap();
    assert_eq!(ids(&order), vec![1, 3, 4]);
}

#[test]
fn a_read_order_is_checked() {
    let mut order = DigOrder::new("First".to_string());
    order.members = vec![solid(1), DigBlockRef { anchor: point(1, 2), ..solid(1) }];
    assert!(order.check_loaded().is_ok());
    order.members.push(solid(1));
    assert!(matches!(order.check_loaded(), Err(ScheduleError::DuplicateMember)));
    order.members = vec![DigBlockRef { plan_area: n(0), ..solid(1) }];
    assert!(matches!(order.check_loaded(), Err(ScheduleError::MalformedReference)));
}
