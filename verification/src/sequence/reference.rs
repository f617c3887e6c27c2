//! References to ground, and what the current ground says of them.
use vstd::prelude::*;

use crate::listing::{first_where, indices_to};
use crate::scalar::{Fixed, Scalar};
use crate::sequence::footprint::{Footprint, PlanPoint};

verus! {

#[derive(Clone, Copy, Debug, PartialEq, Eq, Structural, PartialOrd, Ord, Hash)]
pub struct SolidId(pub u64);

/// Which sources ground was cut from, and which version of each, as one number.
#[derive(Clone, Copy, Debug, PartialEq, Eq, Structural, PartialOrd, Ord, Hash)]
pub struct GroundSourceStamp(pub u64);

/// One block of ground as it is now.
#[derive(Clone, Copy, Debug)]
pub struct BlockGround<N> {
    pub solid: SolidId,
    pub source: GroundSourceStamp,
    pub flitch_base: N,
    pub flitch_top: N,
    pub footprint: Footprint,
    /// Nothing where the block did not close.
    pub volume: Option<N>,
    pub plan_area: N,
}

/// A stored reference to one block's ground.
#[derive(Clone, Copy, Debug)]
pub struct DigBlockRef<N> {
    pub solid: SolidId,
    pub source: GroundSourceStamp,
    pub flitch_base: N,
    pub flitch_top: N,
    /// A point inside the ground, to find it by.
    pub anchor: PlanPoint<N>,
    pub plan_area: N,
    pub footprint: Footprint,
    pub volume: Option<N>,
}

/// The ground a reference names, whatever point it was picked at.
#[derive(Clone, Copy, Debug)]
pub struct GroundIdentity<N> {
    pub solid: SolidId,
    pub source: GroundSourceStamp,
    pub flitch_base: N,
    pub flitch_top: N,
    pub footprint: Footprint,
}

/// An identity that can be looked up.
#[derive(Clone, Copy, Debug, PartialEq, Eq, Structural, PartialOrd, Ord, Hash)]
pub struct GroundKey {
    pub solid: SolidId,
    pub source: GroundSourceStamp,
    pub flitch_base: u64,
    pub flitch_top: u64,
    pub footprint: Footprint,
}

/// What the current ground says of a reference.
#[derive(Clone, Copy, Debug)]
pub enum RefStatus<N> {
    /// The place of the block.
    Resolved(usize),
    SolidMissing,
    FlitchMissing,
    FlitchTopChanged { now: N },
    GroundMissing,
    GroundAmbiguous(usize),
    GroundChanged { was: N, now: N },
    VolumeChanged { was: Option<N>, now: Option<N> },
    SourceChanged,
}

/// Within a millionth.
pub open spec fn near<N: Scalar>(a: N, b: N) -> bool {
    a.minus(b).magnitude().at_most(N::of_decimal(1, 6))
}

fn is_near<N: Scalar>(a: N, b: N) -> (r: bool)
    ensures
        r == near(a, b),
{
    a.sub(b).abs().is_at_most(N::decimal(1, 6))
}

/// More than a millionth apart.
pub open spec fn apart<N: Scalar>(a: N, b: N) -> bool {
    N::of_decimal(1, 6).below(a.minus(b).magnitude())
}

fn is_apart<N: Scalar>(a: N, b: N) -> (r: bool)
    ensures
        r == apart(a, b),
{
    N::decimal(1, 6).is_below(a.sub(b).abs())
}

/// Two volumes describe the same ground: both open, or both closed and within a
/// millionth, of a cubic metre or of the volume.
pub open spec fn alike_volumes<N: Scalar>(was: Option<N>, now: Option<N>) -> bool {
    match (was, now) {
        (None, None) => true,
        (Some(was), Some(now)) => was.minus(now).magnitude().at_most(
            N::of_decimal(1, 6).upper(was.magnitude().times(N::of_decimal(1, 6))),
        ),
        _ => false,
    }
}

/// Whether two volumes describe the same ground.
pub fn same_volume<N: Scalar>(was: Option<N>, now: Option<N>) -> (r: bool)
    ensures
        r == alike_volumes(was, now),
{
    match (was, now) {
        (None, None) => true,
        (Some(was), Some(now)) => {
            let tolerance = N::decimal(1, 6).larger(was.abs().mul(N::decimal(1, 6)));
            was.sub(now).abs().is_at_most(tolerance)
        },
        _ => false,
    }
}

impl<N: Scalar> RefStatus<N> {
    /// The place of the block that was found.
    pub fn resolved(self) -> (r: Option<usize>)
        ensures
            r == (match self {
                RefStatus::Resolved(index) => Some(index),
                _ => None,
            }),
    {
        match self {
            RefStatus::Resolved(index) => Some(index),
            _ => None,
        }
    }

    /// The message that explains a reference that did not resolve.
    pub open spec fn key(self) -> Option<&'static str> {
        match self {
            RefStatus::Resolved(_) => None,
            RefStatus::SolidMissing => Some("sequence-unresolved-solid"),
            RefStatus::FlitchMissing => Some("sequence-unresolved-flitch"),
            RefStatus::FlitchTopChanged { .. } => Some("sequence-unresolved-flitch-top"),
            RefStatus::GroundMissing => Some("sequence-unresolved-ground"),
            RefStatus::GroundAmbiguous(_) => Some("sequence-unresolved-ambiguous"),
            RefStatus::GroundChanged { .. } => Some("sequence-unresolved-changed"),
            RefStatus::VolumeChanged { .. } => Some("sequence-unresolved-volume"),
            RefStatus::SourceChanged => Some("sequence-unresolved-source"),
        }
    }

    /// The message that explains a reference that did not resolve.
    pub fn message(self) -> (r: Option<&'static str>)
        ensures
            r == self.key(),
    {
        match self {
            RefStatus::Resolved(_) => None,
            RefStatus::SolidMissing => Some("sequence-unresolved-solid"),
            RefStatus::FlitchMissing => Some("sequence-unresolved-flitch"),
            RefStatus::FlitchTopChanged { .. } => Some("sequence-unresolved-flitch-top"),
            RefStatus::GroundMissing => Some("sequence-unresolved-ground"),
            RefStatus::GroundAmbiguous(_) => Some("sequence-unresolved-ambiguous"),
            RefStatus::GroundChanged { .. } => Some("sequence-unresolved-changed"),
            RefStatus::VolumeChanged { .. } => Some("sequence-unresolved-volume"),
            RefStatus::SourceChanged => Some("sequence-unresolved-source"),
        }
    }
}

/// The bits of a level, the same for both zeros.
pub open spec fn level_bits<N: Scalar>(value: N) -> u64 {
    if value.same(N::of_whole(0)) {
        N::of_whole(0).bits()
    } else {
        value.bits()
    }
}

fn find_level_bits<N: Scalar>(value: N) -> (r: u64)
    ensures
        r == level_bits(value),
{
    if value.is_same(N::whole(0)) {
        N::whole(0).to_bits()
    } else {
        value.to_bits()
    }
}

impl<N: Scalar> GroundIdentity<N> {
    /// Two identities name the same ground.
    pub open spec fn agrees(self, other: Self) -> bool {
        self.solid == other.solid && self.source == other.source && self.flitch_base.same(other.flitch_base)
            && self.flitch_top.same(other.flitch_top) && self.footprint == other.footprint
    }

    pub fn is_same(&self, other: &Self) -> (r: bool)
        ensures
            r == self.agrees(*other),
    {
        self.solid == other.solid && self.source == other.source && self.flitch_base.is_same(other.flitch_base)
            && self.flitch_top.is_same(other.flitch_top) && self.footprint == other.footprint
    }

    pub open spec fn as_key(self) -> GroundKey {
        GroundKey {
            solid: self.solid,
            source: self.source,
            flitch_base: level_bits(self.flitch_base),
            flitch_top: level_bits(self.flitch_top),
            footprint: self.footprint,
        }
    }

    /// The identity as it can be looked up.
    pub fn key(&self) -> (r: GroundKey)
        ensures
            r == self.as_key(),
    {
        GroundKey {
            solid: self.solid,
            source: self.source,
            flitch_base: find_level_bits(self.flitch_base),
            flitch_top: find_level_bits(self.flitch_top),
            footprint: self.footprint,
        }
    }
}

impl<N: Scalar> DigBlockRef<N> {
    pub open spec fn identity(self) -> GroundIdentity<N> {
        GroundIdentity {
            solid: self.solid,
            source: self.source,
            flitch_base: self.flitch_base,
            flitch_top: self.flitch_top,
            footprint: self.footprint,
        }
    }

    /// The ground this reference names.
    pub fn ground_identity(&self) -> (r: GroundIdentity<N>)
        ensures
            r == self.identity(),
    {
        GroundIdentity {
            solid: self.solid,
            source: self.source,
            flitch_base: self.flitch_base,
            flitch_top: self.flitch_top,
            footprint: self.footprint,
        }
    }

    /// Nothing in the reference keeps it from being looked for.
    pub open spec fn well_formed(self) -> bool {
        &&& self.flitch_base.finite()
        &&& self.flitch_top.finite()
        &&& self.anchor.x.finite()
        &&& self.anchor.y.finite()
        &&& self.plan_area.finite()
        &&& N::of_whole(0).below(self.plan_area)
        &&& self.volume matches Some(volume) ==> volume.finite() && N::of_whole(0).at_most(volume)
    }

    pub fn is_well_formed(&self) -> (r: bool)
        ensures
            r == self.well_formed(),
    {
        let closed: bool = match self.volume {
            Some(volume) => volume.is_finite() && N::whole(0).is_at_most(volume),
            None => true,
        };
        self.flitch_base.is_finite() && self.flitch_top.is_finite() && self.anchor.x.is_finite()
            && self.anchor.y.is_finite() && self.plan_area.is_finite() && N::whole(0).is_below(self.plan_area) && closed
    }

    /// Every stored field is the same.
    pub open spec fn equals(self, other: Self) -> bool {
        &&& self.solid == other.solid
        &&& self.source == other.source
        &&& self.flitch_base.same(other.flitch_base)
        &&& self.flitch_top.same(other.flitch_top)
        &&& self.anchor.x.same(other.anchor.x)
        &&& self.anchor.y.same(other.anchor.y)
        &&& self.plan_area.same(other.plan_area)
        &&& self.footprint == other.footprint
        &&& match (self.volume, other.volume) {
            (None, None) => true,
            (Some(a), Some(b)) => a.same(b),
            _ => false,
        }
    }

    /// Whether every stored field is the same.
    pub fn is_equal(&self, other: &Self) -> (r: bool)
        ensures
            r == self.equals(*other),
    {
        let volumes: bool = match (self.volume, other.volume) {
            (None, None) => true,
            (Some(a), Some(b)) => a.is_same(b),
            _ => false,
        };
        self.solid == other.solid && self.source == other.source && self.flitch_base.is_same(other.flitch_base)
            && self.flitch_top.is_same(other.flitch_top) && self.anchor.x.is_same(other.anchor.x)
            && self.anchor.y.is_same(other.anchor.y) && self.plan_area.is_same(other.plan_area) && self.footprint
            == other.footprint && volumes
    }

    /// A block of the same solid.
    pub open spec fn of_solid(self, ground: Seq<BlockGround<N>>) -> spec_fn(int) -> bool {
        |i: int| ground[i].solid == self.solid
    }

    /// A block of the same solid whose flitch starts where this one's did.
    pub open spec fn at_base(self, ground: Seq<BlockGround<N>>) -> spec_fn(int) -> bool {
        |i: int| ground[i].solid == self.solid && !apart(ground[i].flitch_base, self.flitch_base)
    }

    /// Every flitch that starts where this one did runs to another top.
    pub open spec fn cut_anew(self, ground: Seq<BlockGround<N>>) -> bool {
        forall|i: int|
            0 <= i < ground.len() && self.at_base(ground)(i) ==> apart(
                (#[trigger] ground[i]).flitch_top,
                self.flitch_top,
            )
    }

    /// A block in the same band that holds the anchor.
    pub open spec fn covering(self, ground: Seq<BlockGround<N>>, holds: Seq<bool>) -> spec_fn(int) -> bool {
        |i: int|
            self.at_base(ground)(i) && near(ground[i].flitch_top, self.flitch_top) && holds[i]
    }

    /// What one block that holds the anchor, in the right band, says.
    pub open spec fn judged(self, block: BlockGround<N>, index: usize) -> RefStatus<N> {
        if block.footprint != self.footprint {
            RefStatus::GroundChanged { was: self.plan_area, now: block.plan_area }
        } else if !alike_volumes(self.volume, block.volume) {
            RefStatus::VolumeChanged { was: self.volume, now: block.volume }
        } else {
            RefStatus::Resolved(index)
        }
    }

    /// Which block this reference means, or the most telling reason why none
    /// does: first the solid, then its sources, then the band, then the ground.
    pub open spec fn status(self, ground: Seq<BlockGround<N>>, holds: Seq<bool>) -> RefStatus<N> {
        let n = ground.len() as int;
        let covering = indices_to(ground.len(), self.covering(ground, holds));
        match first_where(0, n, self.of_solid(ground)) {
            None => RefStatus::SolidMissing,
            Some(first) => if ground[first].source != self.source {
                RefStatus::SourceChanged
            } else {
                match first_where(0, n, self.at_base(ground)) {
                    None => RefStatus::FlitchMissing,
                    Some(base) => if covering.len() == 0 && self.cut_anew(ground) {
                        RefStatus::FlitchTopChanged { now: ground[base].flitch_top }
                    } else if covering.len() == 0 {
                        RefStatus::GroundMissing
                    } else if covering.len() == 1 {
                        self.judged(ground[covering[0] as int], covering[0])
                    } else {
                        RefStatus::GroundAmbiguous(covering.len() as usize)
                    },
                }
            },
        }
    }

    /// Which block of the current ground this reference means. `holds` says of
    /// each block whether its outline holds the anchor.
    pub fn resolve(&self, ground: &Vec<BlockGround<N>>, holds: &Vec<bool>) -> (r: RefStatus<N>)
        requires
            holds@.len() == ground@.len(),
        ensures
            r == self.status(ground@, holds@),
    {
        let mut current: Option<GroundSourceStamp> = None;
        let mut first: Ghost<Option<int>> = Ghost(None);
        let ghost n = ground@.len() as int;
        let ghost p = self.of_solid(ground@);
        for i in 0..ground.len()
            invariant
                n == ground@.len(),
                p == self.of_solid(ground@),
                current is None <==> first@ is None,
                current is None ==> first_where(0, n, p) == first_where(i as int, n, p),
                first@ matches Some(k) ==> 0 <= k < n && first_where(0, n, p) == Some(k) && current == Some(
                    ground@[k].source,
                ),
        {
            if current.is_none() && ground[i].solid == self.solid {
                current = Some(ground[i].source);
                first = Ghost(Some(i as int));
            }
        }
        match current {
            None => {
                return RefStatus::SolidMissing;
            },
            Some(source) => {
                if source != self.source {
                    return RefStatus::SourceChanged;
                }
            },
        }
        let mut band_top: Option<N> = None;
        let mut base: Ghost<Option<int>> = Ghost(None);
        let mut anew: bool = true;
        let mut covering: Vec<usize> = Vec::new();
        let ghost q = self.at_base(ground@);
        let ghost c = self.covering(ground@, holds@);
        for i in 0..ground.len()
            invariant
                holds@.len() == ground@.len(),
                n == ground@.len(),
                q == self.at_base(ground@),
                c == self.covering(ground@, holds@),
                band_top is None <==> base@ is None,
                band_top is None ==> first_where(0, n, q) == first_where(i as int, n, q),
                base@ matches Some(k) ==> 0 <= k < n && first_where(0, n, q) == Some(k) && band_top == Some(
                    ground@[k].flitch_top,
                ),
                anew == (forall|k: int|
                    0 <= k < i && q(k) ==> apart((#[trigger] ground@[k]).flitch_top, self.flitch_top)),
                covering@ == indices_to(i as nat, c),
        {
            let block = &ground[i];
            assert(*block == ground@[i as int]);
            if block.solid == self.solid && !is_apart(block.flitch_base, self.flitch_base) {
                if band_top.is_none() {
                    band_top = Some(block.flitch_top);
                    base = Ghost(Some(i as int));
                }
                anew = anew && is_apart(block.flitch_top, self.flitch_top);
                if is_near(block.flitch_top, self.flitch_top) && holds[i] {
                    covering.push(i);
                }
            }
        }
        match band_top {
            None => {
                return RefStatus::FlitchMissing;
            },
            Some(now) => {
                if covering.len() == 0 && anew {
                    return RefStatus::FlitchTopChanged { now };
                }
            },
        }
        if covering.len() == 0 {
            return RefStatus::GroundMissing;
        }
        if covering.len() > 1 {
            return RefStatus::GroundAmbiguous(covering.len());
        }
        let index: usize = covering[0];
        proof {
            crate::listing::indices_rise(ground@.len(), c);
        }
        let block = &ground[index];
        if block.footprint != self.footprint {
            return RefStatus::GroundChanged { was: self.plan_area, now: block.plan_area };
        }
        if !same_volume(self.volume, block.volume) {
            return RefStatus::VolumeChanged { was: self.volume, now: block.volume };
        }
        RefStatus::Resolved(index)
    }
}

/// Only ground that agrees in everything resolves a reference: the block is of
/// the same solid and band, holds the anchor as no other block of the band does,
/// and has the same outline and volume; and the solid's sources are the same.
pub proof fn resolved_agrees<N: Scalar>(
    reference: DigBlockRef<N>,
    ground: Seq<BlockGround<N>>,
    holds: Seq<bool>,
    index: usize,
)
    requires
        holds.len() == ground.len(),
        ground.len() <= usize::MAX,
        reference.status(ground, holds) == RefStatus::<N>::Resolved(index),
    ensures
        index < ground.len(),
        first_where(0, ground.len() as int, reference.of_solid(ground)) matches Some(first) && ground[first].source
            == reference.source,
        ground[index as int].solid == reference.solid,
        !apart(ground[index as int].flitch_base, reference.flitch_base),
        near(ground[index as int].flitch_top, reference.flitch_top),
        holds[index as int],
        ground[index as int].footprint == reference.footprint,
        alike_volumes(reference.volume, ground[index as int].volume),
        forall|other: int|
            0 <= other < ground.len() && other != index ==> !#[trigger] reference.covering(ground, holds)(other),
{
    let c = reference.covering(ground, holds);
    crate::listing::indices_rise(ground.len(), c);
    let covering = indices_to(ground.len(), c);
    assert(covering[0] == index);
    assert forall|other: int| 0 <= other < ground.len() && other != index implies !#[trigger] c(other) by {
        if c(other) {
            indices_hold(ground.len(), c, other);
        }
    }
}

proof fn indices_hold(n: nat, p: spec_fn(int) -> bool, i: int)
    requires
        0 <= i < n,
        p(i),
        n <= usize::MAX,
    ensures
        indices_to(n, p).contains(i as usize),
    decreases n,
{
    let before = indices_to((n - 1) as nat, p);
    if i < n - 1 {
        indices_hold((n - 1) as nat, p, i);
        let k = choose|k: int| 0 <= k < before.len() && before[k] == i as usize;
        assert(indices_to(n, p)[k] == i as usize);
    } else {
        assert(indices_to(n, p).last() == i as usize);
    }
}

/// Two identities name the same ground exactly where they are looked up the
/// same way.
pub proof fn keys_agree(a: GroundIdentity<Fixed>, b: GroundIdentity<Fixed>)
    ensures
        a.as_key() == b.as_key() <==> a.agrees(b),
{
    fixed_bits_tell(a.flitch_base, b.flitch_base);
    fixed_bits_tell(a.flitch_top, b.flitch_top);
}

proof fn fixed_bits_tell(a: Fixed, b: Fixed)
    ensures
        level_bits(a) == level_bits(b) <==> a.same(b),
{
    let x = a.0;
    let y = b.0;
    assert(x as u64 == y as u64 ==> x == y) by (bit_vector);
}

} // verus!
