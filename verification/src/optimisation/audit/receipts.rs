//! What an audit asks of the parcels that a pile receives in a segment, told of
//! the parcels and the movements alone.
use vstd::prelude::*;

use crate::listing::{first_where_finds, flat, indices_rise, last_where, sum_to};
use crate::optimisation::audit::limits::{at_most_one, nothing_anywhere, same_sum};
use crate::optimisation::audit::totals::Audit;
use crate::optimisation::ids::DestinationKind;
use crate::scalar::Scalar;

verus! {

impl<'a, N: Scalar> Audit<'a, N> {
    /// Parcels `a` and `b` came to one pile in one segment.
    pub open spec fn came_together(self, a: int, b: int) -> bool {
        let (x, y) = (self.result.parcels@[a], self.result.parcels@[b]);
        x.stockpile == y.stockpile && x.receipt_interval == y.receipt_interval && x.segment == y.segment
    }

    /// What came together with a parcel is listed in order, all of it and nothing
    /// else.
    pub proof fn receipts_are_whole(self, rep: int, k: int)
        requires
            self.result.parcels@.len() <= usize::MAX,
        ensures
            forall|a: int, b: int|
                0 <= a < b < self.group(rep).len() ==> #[trigger] self.group(rep)[a] < #[trigger] self.group(rep)[b],
            forall|a: int|
                0 <= a < self.group(rep).len() ==> (#[trigger] self.group(rep)[a]) < self.result.parcels@.len()
                    && self.came_together(self.group(rep)[a] as int, rep),
            0 <= k < self.result.parcels@.len() && self.came_together(k, rep) ==> self.group(rep).contains(k as usize),
    {
        let here = self.in_receipt(rep);
        indices_rise(self.result.parcels@.len(), here);
        assert forall|a: int| 0 <= a < self.group(rep).len() implies (#[trigger] self.group(rep)[a])
            < self.result.parcels@.len() && self.came_together(self.group(rep)[a] as int, rep) by {
            assert(here(self.group(rep)[a] as int));
        }
        if 0 <= k < self.result.parcels@.len() && self.came_together(k, rep) {
            assert(here(k));
        }
    }

    /// The position of a parcel of a receipt.
    pub open spec fn position_of(self, group: Seq<usize>, q: int) -> int {
        self.result.parcels@[group[q] as int].position as int
    }

    /// Parcel `q` of a receipt stands where it should: the first at position
    /// nought, and each other at the position of the one before, for another
    /// material or source, or at the next.
    pub open spec fn stands_in_place(self, group: Seq<usize>, q: int) -> bool {
        if q == 0 {
            self.position_of(group, 0) == 0
        } else {
            ||| self.position_of(group, q) == self.position_of(group, q - 1) + 1
            ||| self.position_of(group, q) == self.position_of(group, q - 1) && forall|e: int|
                0 <= e < q ==> {
                    let (x, y) = (
                        self.result.parcels@[(#[trigger] group[e]) as int],
                        self.result.parcels@[group[q] as int],
                    );
                    x.position != y.position || x.source != y.source || x.material != y.material
                }
        }
    }

    /// A parcel is no larger than the target, the tolerance and a grain for each
    /// parcel of its receipt.
    pub open spec fn is_no_larger(self, group: Seq<usize>, q: int) -> bool {
        !self.input.horizon.parcel_target_t.plus(self.input.horizon.tolerances.tonnes_t).plus(
            N::of_whole(group.len() as u64).times(self.grain()),
        ).below(self.result.parcels@[group[q] as int].tonnes_t)
    }

    /// What each parcel of a receipt holds.
    pub open spec fn parcelled(self, group: Seq<usize>) -> spec_fn(int) -> Option<N> {
        |q: int| Some(self.result.parcels@[group[q] as int].tonnes_t)
    }

    /// What each movement brings to a destination in the segment of a receipt.
    pub open spec fn brought_with(self, rep: int, d: int) -> spec_fn(int) -> Option<N> {
        |m: int|
            {
                let (row, parcel) = (self.result.movements@[m], self.result.parcels@[rep]);
                if row.interval == parcel.receipt_interval && row.segment == parcel.segment && row.destination
                    == self.input.destinations@[d].id {
                    Some(row.tonnes_t)
                } else {
                    None
                }
            }
    }

    /// Destination `d` is the last that is a receipt's pile.
    pub open spec fn serves_last(self, rep: int, d: int) -> bool {
        let pile = DestinationKind::Stockpile(self.result.parcels@[rep].stockpile);
        &&& 0 <= d < self.input.destinations@.len()
        &&& self.input.destinations@[d].kind == pile
        &&& forall|e: int| d < e < self.input.destinations@.len() ==> (#[trigger] self.input.destinations@[e]).kind != pile
    }

    proof fn last_found(self, rep: int, d: int, n: nat)
        requires
            n <= self.input.destinations@.len(),
        ensures
            ({
                let pile = DestinationKind::Stockpile(self.result.parcels@[rep].stockpile);
                0 <= d < n && self.input.destinations@[d].kind == pile && (forall|e: int|
                    d < e < n ==> (#[trigger] self.input.destinations@[e]).kind != pile) ==> last_where(
                    n,
                    self.serves(self.parcel(rep).stockpile),
                ) == Some(d)
            }),
        decreases n,
    {
        if n > 0 && d < n - 1 {
            self.last_found(rep, d, (n - 1) as nat);
        }
    }

    /// The audit accepts a receipt of a pile that is a destination only where its
    /// parcels stand in place, none is too large, and together they hold what the
    /// movements bring to the pile in the segment, to within rounding; and it
    /// accepts one exactly where, beside that, it accepts each stream of it.
    pub proof fn receipts_are_audited(self, rep: int, d: int)
        requires
            0 <= rep < self.result.parcels@.len(),
            self.serves_last(rep, d),
        ensures
            self.receipt_issues(rep).len() == 0 <==> {
                let group = self.group(rep);
                let tolerance = self.input.horizon.tolerances.tonnes_t;
                let brought = sum_to(self.result.movements@.len(), self.brought_with(rep, d));
                let slack = tolerance.upper(brought.magnitude().times(tolerance)).upper(
                    N::of_whole(group.len() as u64).times(self.grain()),
                );
                &&& forall|q: int| 0 <= q < group.len() ==> #[trigger] self.stands_in_place(group, q)
                &&& forall|q: int| 0 <= q < group.len() ==> #[trigger] self.is_no_larger(group, q)
                &&& !slack.below(brought.minus(sum_to(group.len(), self.parcelled(group))).magnitude())
                &&& flat(self.streams(group).len(), self.streams_of(group)).len() == 0
            },
    {
        let group = self.group(rep);
        let n = group.len() as int;
        let (misplaced, oversized) = (self.misplaced(group), self.oversized(group));
        assert(self.grain() == self.dust_spec());
        first_where_finds(0, n, misplaced);
        first_where_finds(0, n, oversized);
        self.last_found(rep, d, self.input.destinations@.len());
        same_sum(
            self.result.movements@.len(),
            self.received_in(rep, self.input.destinations@[d].id),
            self.brought_with(rep, d),
        );
        same_sum(group.len(), self.group_tonnes(group), self.parcelled(group));
        assert forall|q: int|
            #![trigger misplaced(q)]
            #![trigger self.stands_in_place(group, q)]
            0 <= q < n implies misplaced(q) == !self.stands_in_place(group, q) by {
            if q > 0 && !misplaced(q) && self.position_of(group, q) == self.position_of(group, q - 1) {
                assert forall|e: int| 0 <= e < q implies {
                    let (x, y) = (
                        self.result.parcels@[(#[trigger] group[e]) as int],
                        self.result.parcels@[group[q] as int],
                    );
                    x.position != y.position || x.source != y.source || x.material != y.material
                } by {
                    assert(!self.same_place(group[e], group[q]));
                }
            }
        }
        assert forall|q: int|
            #![trigger oversized(q)]
            #![trigger self.is_no_larger(group, q)]
            0 <= q < n implies oversized(q) == !self.is_no_larger(group, q) by {}
    }

    /// How far a stream's share of the first places of a receipt is from its share
    /// of the whole is accepted exactly where it is within the target and the
    /// tolerance; and of a stream's parcels no more than one may be short of the
    /// target by more than a grain.
    pub proof fn streams_are_audited(self, group: Seq<usize>, rep: int)
        ensures
            self.stream_issues(group, rep).len() == 0 ==> {
                let ordered = self.by_position(group, rep);
                let short = |r: int|
                    self.result.parcels@[group[ordered[r] as int] as int].tonnes_t.below(
                        self.input.horizon.parcel_target_t.minus(self.grain()),
                    );
                &&& forall|a: int, b: int|
                    0 <= a < ordered.len() && 0 <= b < ordered.len() && #[trigger] short(a) && #[trigger] short(b) ==> a
                        == b
                &&& forall|p: int|
                    0 <= p < group.len() ==> !self.input.horizon.parcel_target_t.plus(
                        self.input.horizon.tolerances.tonnes_t,
                    ).below(
                        sum_to((p + 1) as nat, #[trigger] self.of_stream(group, rep, p)).minus(
                            N::of_whole((p + 1) as u64).over(N::of_whole(group.len() as u64)).times(
                                sum_to(group.len(), self.of_stream(group, rep, p)),
                            ),
                        ).magnitude(),
                    )
            },
    {
        let ordered = self.by_position(group, rep);
        let short = |r: int|
            self.result.parcels@[group[ordered[r] as int] as int].tonnes_t.below(
                self.input.horizon.parcel_target_t.minus(self.grain()),
            );
        let small = self.under_target(group, ordered);
        assert(self.grain() == self.dust_spec());
        at_most_one(ordered.len(), small);
        nothing_anywhere(group.len(), self.interleaving(group, rep));
        if self.stream_issues(group, rep).len() == 0 {
            assert forall|a: int, b: int|
                0 <= a < ordered.len() && 0 <= b < ordered.len() && #[trigger] short(a) && #[trigger] short(b) implies a
                == b by {
                assert(small(a) && small(b));
            }
            assert forall|p: int| 0 <= p < group.len() implies !self.input.horizon.parcel_target_t.plus(
                self.input.horizon.tolerances.tonnes_t,
            ).below(
                sum_to((p + 1) as nat, #[trigger] self.of_stream(group, rep, p)).minus(
                    N::of_whole((p + 1) as u64).over(N::of_whole(group.len() as u64)).times(
                        sum_to(group.len(), self.of_stream(group, rep, p)),
                    ),
                ).magnitude(),
            ) by {
                assert(self.interleaving(group, rep)(p).len() == 0);
                same_sum(group.len(), self.stream_tonnes(group, rep), self.of_stream(group, rep, p));
                same_sum((p + 1) as nat, self.stream_tonnes(group, rep), self.of_stream(group, rep, p));
            }
        }
    }

    /// What each parcel of a receipt holds of the stream of parcel `rep` of it; the
    /// place `p` that is looked at makes no difference.
    pub open spec fn of_stream(self, group: Seq<usize>, rep: int, p: int) -> spec_fn(int) -> Option<N> {
        |q: int|
            {
                let (x, y) = (self.result.parcels@[group[q] as int], self.result.parcels@[group[rep] as int]);
                if x.source == y.source && x.material == y.material {
                    Some(x.tonnes_t)
                } else {
                    None
                }
            }
    }
}

} // verus!
