//! An ordered run of ground: the order in which blocks are dug.
use vstd::prelude::*;

use crate::error::ScheduleError;
use crate::listing::first_from;
use crate::scalar::Scalar;
use crate::sequence::reference::DigBlockRef;

verus! {

/// The order one bar works through. The same ground is not in it twice.
#[derive(Clone, Debug)]
pub struct DigOrder<N> {
    pub name: String,
    pub members: Vec<DigBlockRef<N>>,
}

/// An order holds the ground that a reference names.
pub open spec fn holds_ground<N: Scalar>(members: Seq<DigBlockRef<N>>, block: DigBlockRef<N>) -> bool {
    exists|i: int| 0 <= i < members.len() && (#[trigger] members[i]).identity().agrees(block.identity())
}

/// Members are well formed, and no two name the same ground.
pub open spec fn stands<N: Scalar>(members: Seq<DigBlockRef<N>>) -> bool {
    &&& forall|i: int| 0 <= i < members.len() ==> (#[trigger] members[i]).well_formed()
    &&& forall|i: int, j: int|
        0 <= i < members.len() && 0 <= j < members.len() && i != j ==> !(#[trigger] members[i]).identity().agrees(
            (#[trigger] members[j]).identity(),
        )
}

/// The members after a block is put in, or why it is not.
pub open spec fn inserted<N: Scalar>(members: Seq<DigBlockRef<N>>, position: usize, block: DigBlockRef<N>) -> Result<
    Seq<DigBlockRef<N>>,
    ScheduleError,
> {
    if !block.well_formed() {
        Err(ScheduleError::MalformedReference)
    } else if holds_ground(members, block) {
        Err(ScheduleError::DuplicateMember)
    } else {
        Ok(
            members.insert(
                if position < members.len() {
                    position as int
                } else {
                    members.len() as int
                },
                block,
            ),
        )
    }
}

/// The members after one is taken out, or why none is.
pub open spec fn removed<N: Scalar>(members: Seq<DigBlockRef<N>>, position: usize) -> Result<
    Seq<DigBlockRef<N>>,
    ScheduleError,
> {
    if position >= members.len() {
        Err(ScheduleError::UnknownMember)
    } else {
        Ok(members.remove(position as int))
    }
}

/// The members after one is moved, or why none is.
pub open spec fn moved<N: Scalar>(members: Seq<DigBlockRef<N>>, from: usize, to: usize) -> Result<
    Seq<DigBlockRef<N>>,
    ScheduleError,
> {
    if from >= members.len() || to >= members.len() {
        Err(ScheduleError::UnknownMember)
    } else {
        Ok(members.remove(from as int).insert(to as int, members[from as int]))
    }
}

/// What is wrong with a member that was read.
pub open spec fn member_fault<N: Scalar>(members: Seq<DigBlockRef<N>>) -> spec_fn(int) -> Option<ScheduleError> {
    |i: int|
        if !members[i].well_formed() {
            Some(ScheduleError::MalformedReference)
        } else if exists|j: int| 0 <= j < i && (#[trigger] members[j]).equals(members[i]) {
            Some(ScheduleError::DuplicateMember)
        } else {
            None
        }
}

impl<N: Scalar> DigOrder<N> {
    /// An order without ground.
    pub fn new(name: String) -> (r: Self)
        ensures
            r.name == name,
            r.members@.len() == 0,
            stands(r.members@),
    {
        DigOrder { name, members: Vec::new() }
    }

    /// The members in dig order.
    pub fn members(&self) -> (r: &Vec<DigBlockRef<N>>)
        ensures
            *r == self.members,
    {
        &self.members
    }

    /// Whether this order holds the ground that a reference names.
    pub fn contains(&self, block: &DigBlockRef<N>) -> (r: bool)
        ensures
            r == holds_ground(self.members@, *block),
    {
        let wanted = block.ground_identity();
        for i in 0..self.members.len()
            invariant
                wanted == block.identity(),
                forall|j: int| 0 <= j < i ==> !(#[trigger] self.members@[j]).identity().agrees(wanted),
        {
            if self.members[i].ground_identity().is_same(&wanted) {
                assert(self.members@[i as int].identity().agrees(block.identity()));
                return true;
            }
        }
        false
    }

    /// Puts ground at a position, at the latest at the end.
    pub fn insert(&mut self, position: usize, block: DigBlockRef<N>) -> (r: Result<(), ScheduleError>)
        ensures
            final(self).name == old(self).name,
            match inserted(old(self).members@, position, block) {
                Ok(now) => r is Ok && final(self).members@ == now,
                Err(error) => r == Err::<(), ScheduleError>(error) && final(self).members@ == old(self).members@,
            },
    {
        if !block.is_well_formed() {
            return Err(ScheduleError::MalformedReference);
        }
        if self.contains(&block) {
            return Err(ScheduleError::DuplicateMember);
        }
        let at: usize = if position < self.members.len() {
            position
        } else {
            self.members.len()
        };
        self.members.insert(at, block);
        Ok(())
    }

    /// Takes a member out.
    pub fn remove(&mut self, position: usize) -> (r: Result<(), ScheduleError>)
        ensures
            final(self).name == old(self).name,
            match removed(old(self).members@, position) {
                Ok(now) => r is Ok && final(self).members@ == now,
                Err(error) => r == Err::<(), ScheduleError>(error) && final(self).members@ == old(self).members@,
            },
    {
        if position >= self.members.len() {
            return Err(ScheduleError::UnknownMember);
        }
        self.members.remove(position);
        Ok(())
    }

    /// Moves a member to another place.
    pub fn move_member(&mut self, from: usize, to: usize) -> (r: Result<(), ScheduleError>)
        ensures
            final(self).name == old(self).name,
            match moved(old(self).members@, from, to) {
                Ok(now) => r is Ok && final(self).members@ == now,
                Err(error) => r == Err::<(), ScheduleError>(error) && final(self).members@ == old(self).members@,
            },
    {
        if from >= self.members.len() || to >= self.members.len() {
            return Err(ScheduleError::UnknownMember);
        }
        let block = self.members.remove(from);
        self.members.insert(to, block);
        Ok(())
    }

    /// Checks members that were read: each is well formed, and none is stored
    /// twice. The same ground under two anchors passes.
    pub fn check_loaded(&self) -> (r: Result<(), ScheduleError>)
        ensures
            r == (match first_from(0, self.members@.len() as int, member_fault(self.members@)) {
                Some(error) => Err(error),
                None => Ok(()),
            }),
    {
        let ghost f = member_fault(self.members@);
        for i in 0..self.members.len()
            invariant
                f == member_fault(self.members@),
                first_from(0, self.members@.len() as int, f) == first_from(i as int, self.members@.len() as int, f),
        {
            if !self.members[i].is_well_formed() {
                return Err(ScheduleError::MalformedReference);
            }
            let mut again: bool = false;
            for j in 0..i
                invariant
                    i < self.members@.len(),
                    again == exists|q: int| 0 <= q < j && (#[trigger] self.members@[q]).equals(self.members@[i as int]),
            {
                if self.members[j].is_equal(&self.members[i]) {
                    assert(self.members@[j as int].equals(self.members@[i as int]));
                    again = true;
                }
            }
            if again {
                return Err(ScheduleError::DuplicateMember);
            }
        }
        Ok(())
    }
}

proof fn agreement_is_mutual<N: Scalar>(a: DigBlockRef<N>, b: DigBlockRef<N>)
    requires
        a.well_formed(),
        b.well_formed(),
    ensures
        a.identity().agrees(b.identity()) <==> b.identity().agrees(a.identity()),
{
    N::comparison_laws(a.flitch_base, b.flitch_base, a.flitch_base);
    N::comparison_laws(b.flitch_base, a.flitch_base, a.flitch_base);
    N::comparison_laws(a.flitch_top, b.flitch_top, a.flitch_top);
    N::comparison_laws(b.flitch_top, a.flitch_top, a.flitch_top);
}

/// Ground that is put in keeps the order free of ground that is there twice,
/// and leaves the others in their order.
pub proof fn insert_stands<N: Scalar>(members: Seq<DigBlockRef<N>>, position: usize, block: DigBlockRef<N>)
    requires
        stands(members),
    ensures
        inserted(members, position, block) is Ok <==> block.well_formed() && !exists|i: int|
            0 <= i < members.len() && (#[trigger] members[i]).identity().agrees(block.identity()),
        inserted(members, position, block) matches Ok(now) ==> stands(now) && holds_ground(now, block) && now.remove(
            if position < members.len() {
                position as int
            } else {
                members.len() as int
            },
        ) == members,
{
    if let Ok(now) = inserted(members, position, block) {
        let at = if position < members.len() {
            position as int
        } else {
            members.len() as int
        };
        assert forall|i: int, j: int| 0 <= i < now.len() && 0 <= j < now.len() && i != j implies !(
        #[trigger] now[i]).identity().agrees((#[trigger] now[j]).identity()) by {
            let a = if i < at { i } else { i - 1 };
            let b = if j < at { j } else { j - 1 };
            if i == at {
                assert(now[j] == members[b]);
                agreement_is_mutual(members[b], block);
            } else if j == at {
                assert(now[i] == members[a]);
            } else {
                assert(now[i] == members[a] && now[j] == members[b]);
            }
        }
        assert forall|i: int| 0 <= i < now.len() implies (#[trigger] now[i]).well_formed() by {
            let a = if i < at { i } else { i - 1 };
            if i != at {
                assert(now[i] == members[a]);
            }
        }
        assert(now[at] == block);
        N::comparison_laws(block.flitch_base, block.flitch_base, block.flitch_base);
        N::comparison_laws(block.flitch_top, block.flitch_top, block.flitch_top);
        assert(now.remove(at) =~= members);
    }
}

/// Taking ground out keeps the order free of ground that is there twice, and
/// leaves the others in their order.
pub proof fn remove_stands<N: Scalar>(members: Seq<DigBlockRef<N>>, position: usize)
    requires
        stands(members),
    ensures
        removed(members, position) is Ok <==> position < members.len(),
        removed(members, position) matches Ok(now) ==> {
            &&& stands(now)
            &&& now.len() == members.len() - 1
            &&& forall|i: int| 0 <= i < position ==> #[trigger] now[i] == members[i]
            &&& forall|i: int| position < i < members.len() ==> now[i - 1] == #[trigger] members[i]
        },
{
    if let Ok(now) = removed(members, position) {
        assert forall|i: int, j: int| 0 <= i < now.len() && 0 <= j < now.len() && i != j implies !(
        #[trigger] now[i]).identity().agrees((#[trigger] now[j]).identity()) by {
            let a = if i < position { i } else { i + 1 };
            let b = if j < position { j } else { j + 1 };
            assert(now[i] == members[a] && now[j] == members[b]);
        }
        assert forall|i: int| 0 <= i < now.len() implies (#[trigger] now[i]).well_formed() by {
            let a = if i < position { i } else { i + 1 };
            assert(now[i] == members[a]);
        }
    }
}

/// Moving ground changes nothing but its place: the same members, the moved one
/// where it was asked to be, and moving it back restores the order.
pub proof fn move_stands<N: Scalar>(members: Seq<DigBlockRef<N>>, from: usize, to: usize)
    requires
        stands(members),
    ensures
        moved(members, from, to) matches Ok(now) ==> {
            &&& stands(now)
            &&& now.len() == members.len()
            &&& now[to as int] == members[from as int]
            &&& moved(now, to, from) == Ok::<Seq<DigBlockRef<N>>, ScheduleError>(members)
            &&& now.to_multiset() == members.to_multiset()
            &&& now.remove(to as int) == members.remove(from as int)
        },
        moved(members, from, to) is Ok <==> from < members.len() && to < members.len(),
{
    if let Ok(now) = moved(members, from, to) {
        let rest = members.remove(from as int);
        let block = members[from as int];
        remove_stands(members, from);
        assert(now.remove(to as int) =~= rest);
        assert forall|i: int, j: int| 0 <= i < now.len() && 0 <= j < now.len() && i != j implies !(
        #[trigger] now[i]).identity().agrees((#[trigger] now[j]).identity()) by {
            let a = if i < to { i } else { i - 1 };
            let b = if j < to { j } else { j - 1 };
            let p = if a < from { a } else { a + 1 };
            let q = if b < from { b } else { b + 1 };
            if i != to {
                assert(now[i] == rest[a] && rest[a] == members[p]);
            }
            if j != to {
                assert(now[j] == rest[b] && rest[b] == members[q]);
            }
        }
        assert forall|i: int| 0 <= i < now.len() implies (#[trigger] now[i]).well_formed() by {
            let a = if i < to { i } else { i - 1 };
            if i != to {
                assert(now[i] == rest[a]);
            }
        }
        assert(now.remove(to as int) =~= rest);
        assert(rest.insert(from as int, block) =~= members);
        vstd::seq_lib::to_multiset_insert(rest, from as int, block);
        vstd::seq_lib::to_multiset_insert(rest, to as int, block);
    }
}

} // verus!
