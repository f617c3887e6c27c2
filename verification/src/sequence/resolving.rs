//! What a reference to ground stands for, told of the ground alone.
use vstd::prelude::*;

use crate::listing::{first_where, first_where_finds, indices_rise, indices_to};
use crate::scalar::{held, shrunk, size, Fixed, Scalar};
use crate::sequence::reference::{BlockGround, DigBlockRef, RefStatus};

verus! {

/// Two levels are one, to a millionth.
pub open spec fn level_with(a: Fixed, b: Fixed) -> bool {
    size(held(a.0 - b.0) as int) <= 1_000
}

/// Block `i` is of the solid that a reference names, between its levels, and
/// holds its anchor.
pub open spec fn is_meant(named: DigBlockRef<Fixed>, ground: Seq<BlockGround<Fixed>>, holds: Seq<bool>, i: int) -> bool {
    &&& ground[i].solid == named.solid
    &&& level_with(ground[i].flitch_base, named.flitch_base)
    &&& level_with(ground[i].flitch_top, named.flitch_top)
    &&& holds[i]
}

/// Two volumes are one, to a millionth of the first and at least a millionth, or
/// both unknown.
pub open spec fn volume_kept(was: Option<Fixed>, now: Option<Fixed>) -> bool {
    match (was, now) {
        (None, None) => true,
        (Some(was), Some(now)) => was.minus(now).magnitude().0 <= 1_000 || was.minus(now).magnitude().0
            <= was.magnitude().times(Fixed(1_000)).0,
        _ => false,
    }
}

/// The first block of a solid is cut from the source that a reference names.
pub open spec fn source_kept(named: DigBlockRef<Fixed>, ground: Seq<BlockGround<Fixed>>) -> bool {
    exists|f: int|
        {
            &&& 0 <= f < ground.len()
            &&& (#[trigger] ground[f]).solid == named.solid
            &&& ground[f].source == named.source
            &&& forall|e: int| 0 <= e < f ==> (#[trigger] ground[e]).solid != named.solid
        }
}

/// A reference stands for a block exactly where that is the only block that it
/// can mean, the solid is still cut from the same source, and the block's outline
/// and volume are as they were. It names a solid that is missing exactly where no
/// block is of it.
pub proof fn references_stand_for_one_block(
    named: DigBlockRef<Fixed>,
    ground: Seq<BlockGround<Fixed>>,
    holds: Seq<bool>,
    k: usize,
)
    requires
        ground.len() <= usize::MAX,
        holds.len() == ground.len(),
        forall|i: int|
            0 <= i < ground.len() ==> (#[trigger] ground[i]).flitch_base.0 > i64::MIN && ground[i].flitch_top.0 > i64::MIN,
    ensures
        named.status(ground, holds) == RefStatus::<Fixed>::Resolved(k) <==> {
            &&& k < ground.len()
            &&& source_kept(named, ground)
            &&& is_meant(named, ground, holds, k as int)
            &&& forall|j: int| 0 <= j < ground.len() && j != k ==> !#[trigger] is_meant(named, ground, holds, j)
            &&& ground[k as int].footprint == named.footprint
            &&& volume_kept(named.volume, ground[k as int].volume)
        },
        named.status(ground, holds) is SolidMissing <==> forall|i: int|
            0 <= i < ground.len() ==> (#[trigger] ground[i]).solid != named.solid,
{
    reveal_with_fuel(shrunk, 10);
    assert(Fixed::of_decimal(1, 6).0 == 1_000);
    let n = ground.len();
    let of_solid = named.of_solid(ground);
    let at_base = named.at_base(ground);
    let meant = named.covering(ground, holds);
    first_where_finds(0, n as int, of_solid);
    first_where_finds(0, n as int, at_base);
    indices_rise(n, meant);
    let all = indices_to(n, meant);
    assert forall|i: int| 0 <= i < n implies #[trigger] meant(i) == is_meant(named, ground, holds, i) by {}
    if let Some(f) = first_where(0, n as int, of_solid) {
        assert(of_solid(f));
        assert forall|e: int| 0 <= e < f implies (#[trigger] ground[e]).solid != named.solid by {
            assert(!of_solid(e));
        }
        if source_kept(named, ground) {
            let x = choose|x: int|
                {
                    &&& 0 <= x < ground.len()
                    &&& (#[trigger] ground[x]).solid == named.solid
                    &&& ground[x].source == named.source
                    &&& forall|e: int| 0 <= e < x ==> (#[trigger] ground[e]).solid != named.solid
                };
            assert(of_solid(x));
            assert(x == f);
        }
    } else {
        assert forall|i: int| 0 <= i < n implies (#[trigger] ground[i]).solid != named.solid by {
            assert(!of_solid(i));
        }
    }
    if k < n && is_meant(named, ground, holds, k as int) && (forall|j: int|
        0 <= j < n && j != k ==> !#[trigger] is_meant(named, ground, holds, j)) {
        assert(meant(k as int));
        assert(all.contains((k as int) as usize));
        let a = choose|a: int| 0 <= a < all.len() && all[a] == k;
        assert forall|b: int| 0 <= b < all.len() implies #[trigger] all[b] == k by {
            assert(meant(all[b] as int));
            assert(is_meant(named, ground, holds, all[b] as int));
        }
        if all.len() > 1 {
            assert(all[0] < all[1]);
        }
        assert(all.len() == 1 && all[0] == k);
        assert(at_base(k as int));
        assert(of_solid(k as int));
    }
    if named.status(ground, holds) == RefStatus::<Fixed>::Resolved(k) {
        assert(all.len() == 1);
        assert(all[0] == k);
        assert(meant(k as int));
        assert forall|j: int| 0 <= j < n && j != k implies !#[trigger] is_meant(named, ground, holds, j) by {
            if is_meant(named, ground, holds, j) {
                assert(meant(j));
                assert(all.contains(j as usize));
            }
        }
    }
}

} // verus!
