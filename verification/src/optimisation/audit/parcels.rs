//! Audits of receipt parcels and of the objective, and the audit as a whole.
use vstd::prelude::*;

use crate::listing::{arrange, arranged, count_to, first_where, flat, indices_to, last_where, said, said_of_two, sum_to};
use crate::optimisation::audit::issue::{IssueKind, ValidationIssue};
use crate::optimisation::audit::totals::{audit_of, issue, only_if, Audit};
use crate::optimisation::ids::{DestinationId, DestinationKind, SourceId, StockpileId};
use crate::optimisation::input::OptimisationInput;
use crate::optimisation::result::{OptimisationResult, ReceiptParcel};
use crate::scalar::Scalar;

verus! {

/// Two parcels of one receipt: the same stockpile, interval and segment.
pub open spec fn same_receipt<N>(a: ReceiptParcel<N>, b: ReceiptParcel<N>) -> bool {
    a.stockpile == b.stockpile && a.receipt_interval == b.receipt_interval && a.segment == b.segment
}

/// The order of receipts: by stockpile, then interval, then segment.
pub open spec fn receipt_before<N>(a: ReceiptParcel<N>, b: ReceiptParcel<N>) -> bool {
    a.stockpile.0 < b.stockpile.0 || (a.stockpile.0 == b.stockpile.0 && (a.receipt_interval < b.receipt_interval || (
    a.receipt_interval == b.receipt_interval && a.segment < b.segment)))
}

/// Two parcels of one stream: the same source and material.
pub open spec fn same_stream<N>(a: ReceiptParcel<N>, b: ReceiptParcel<N>) -> bool {
    a.source == b.source && a.material == b.material
}

/// Ground before stockpiles, and each by id.
pub open spec fn source_before(a: SourceId, b: SourceId) -> bool {
    match (a, b) {
        (SourceId::Ground(x), SourceId::Ground(y)) => x.0 < y.0,
        (SourceId::Ground(_), SourceId::Stockpile(_)) => true,
        (SourceId::Stockpile(_), SourceId::Ground(_)) => false,
        (SourceId::Stockpile(x), SourceId::Stockpile(y)) => x.0 < y.0,
    }
}

/// The order of streams: by source, then material.
pub open spec fn stream_before<N>(a: ReceiptParcel<N>, b: ReceiptParcel<N>) -> bool {
    source_before(a.source, b.source) || (a.source == b.source && a.material.0 < b.material.0)
}

fn is_source_before(a: SourceId, b: SourceId) -> (r: bool)
    ensures
        r == source_before(a, b),
{
    match (a, b) {
        (SourceId::Ground(x), SourceId::Ground(y)) => x.0 < y.0,
        (SourceId::Ground(_), SourceId::Stockpile(_)) => true,
        (SourceId::Stockpile(_), SourceId::Ground(_)) => false,
        (SourceId::Stockpile(x), SourceId::Stockpile(y)) => x.0 < y.0,
    }
}

fn is_same_receipt<N>(a: &ReceiptParcel<N>, b: &ReceiptParcel<N>) -> (r: bool)
    ensures
        r == same_receipt(*a, *b),
{
    a.stockpile == b.stockpile && a.receipt_interval == b.receipt_interval && a.segment == b.segment
}

fn is_same_stream<N>(a: &ReceiptParcel<N>, b: &ReceiptParcel<N>) -> (r: bool)
    ensures
        r == same_stream(*a, *b),
{
    a.source == b.source && a.material == b.material
}

impl<'a, N: Scalar> Audit<'a, N> {
    pub open spec fn parcel(self, k: int) -> ReceiptParcel<N> {
        self.result.parcels@[k]
    }

    pub open spec fn target(self) -> N {
        self.input.horizon.parcel_target_t
    }

    /// What is wrong with a parcel by itself.
    pub open spec fn parcels_of(self) -> spec_fn(int) -> Seq<ValidationIssue<N>> {
        |p: int|
            only_if(
                self.parcel(p).tonnes_t.below(
                    self.input.horizon.tolerances.parcel_occupancy_t.times(N::of_decimal(5, 1)),
                ),
                issue(IssueKind::ParcelSize, self.parcel(p).tonnes_t),
            ) + only_if(
                self.parcel(p).release_interval != self.parcel(p).receipt_interval + 1,
                issue(IssueKind::ReleaseInterval, N::of_whole(1)),
            )
    }

    // Receipts.

    pub open spec fn fresh_receipt(self) -> spec_fn(int) -> bool {
        |k: int| !exists|j: int| 0 <= j < k && same_receipt(#[trigger] self.parcel(j), self.parcel(k))
    }

    pub open spec fn receipt_order(self) -> spec_fn(int, int) -> bool {
        |a: int, b: int| receipt_before(self.parcel(a), self.parcel(b))
    }

    /// One parcel of every receipt, in the order of receipts.
    pub open spec fn receipts(self) -> Seq<usize> {
        arranged(self.result.parcels@.len(), self.fresh_receipt(), self.receipt_order())
    }

    pub open spec fn in_receipt(self, rep: int) -> spec_fn(int) -> bool {
        |k: int| same_receipt(self.parcel(k), self.parcel(rep))
    }

    /// The parcels of a receipt.
    pub open spec fn group(self, rep: int) -> Seq<usize> {
        indices_to(self.result.parcels@.len(), self.in_receipt(rep))
    }

    /// Two parcels of one stream at one position.
    pub open spec fn same_place(self, a: usize, b: usize) -> bool {
        let (one, other) = (self.parcel(a as int), self.parcel(b as int));
        one.position == other.position && one.source == other.source && one.material == other.material
    }

    /// A parcel neither follows the one before it nor shares its position with
    /// it, as other streams that supplied one unit do.
    pub open spec fn misplaced(self, group: Seq<usize>) -> spec_fn(int) -> bool {
        |q: int|
            {
                let here = self.parcel(group[q] as int).position as int;
                if q == 0 {
                    here != 0
                } else {
                    let before = self.parcel(group[q - 1] as int).position as int;
                    !(here == before + 1 || here == before && forall|e: int|
                        0 <= e < q ==> !self.same_place(#[trigger] group[e], group[q]))
                }
            }
    }

    pub open spec fn oversized(self, group: Seq<usize>) -> spec_fn(int) -> bool {
        |q: int|
            self.target().plus(self.tolerance_spec()).plus(
                N::of_whole(group.len() as u64).times(self.dust_spec()),
            ).below(self.parcel(group[q] as int).tonnes_t)
    }

    pub open spec fn serves(self, pile: StockpileId) -> spec_fn(int) -> bool {
        |d: int| self.input.destinations@[d].kind == DestinationKind::Stockpile(pile)
    }

    pub open spec fn received_in(self, rep: int, destination: DestinationId) -> spec_fn(int) -> Option<N> {
        |m: int|
            {
                let row = self.result.movements@[m];
                if row.interval == self.parcel(rep).receipt_interval && row.segment == self.parcel(rep).segment
                    && row.destination == destination {
                    Some(row.tonnes_t)
                } else {
                    None
                }
            }
    }

    pub open spec fn group_tonnes(self, group: Seq<usize>) -> spec_fn(int) -> Option<N> {
        |q: int| Some(self.parcel(group[q] as int).tonnes_t)
    }

    // Streams.

    pub open spec fn fresh_stream(self, group: Seq<usize>) -> spec_fn(int) -> bool {
        |q: int|
            !exists|j: int|
                0 <= j < q && same_stream(#[trigger] self.parcel(group[j] as int), self.parcel(group[q] as int))
    }

    pub open spec fn stream_order(self, group: Seq<usize>) -> spec_fn(int, int) -> bool {
        |a: int, b: int| stream_before(self.parcel(group[a] as int), self.parcel(group[b] as int))
    }

    /// One member of every stream of a receipt, in the order of streams.
    pub open spec fn streams(self, group: Seq<usize>) -> Seq<usize> {
        arranged(group.len(), self.fresh_stream(group), self.stream_order(group))
    }

    pub open spec fn in_stream(self, group: Seq<usize>, rep: int) -> spec_fn(int) -> bool {
        |q: int| same_stream(self.parcel(group[q] as int), self.parcel(group[rep] as int))
    }

    pub open spec fn position_order(self, group: Seq<usize>) -> spec_fn(int, int) -> bool {
        |a: int, b: int| self.parcel(group[a] as int).position < self.parcel(group[b] as int).position
    }

    pub open spec fn by_position(self, group: Seq<usize>, rep: int) -> Seq<usize> {
        arranged(group.len(), self.in_stream(group, rep), self.position_order(group))
    }

    pub open spec fn under_target(self, group: Seq<usize>, ordered: Seq<usize>) -> spec_fn(int) -> bool {
        |r: int|
            self.parcel(group[ordered[r] as int] as int).tonnes_t.below(self.target().minus(self.dust_spec()))
    }

    pub open spec fn beyond(self, group: Seq<usize>, ordered: Seq<usize>, last: int) -> spec_fn(int) -> bool {
        |r: int|
            self.parcel(group[ordered[r] as int] as int).position > self.parcel(
                group[ordered[last] as int] as int,
            ).position
    }

    pub open spec fn stream_tonnes(self, group: Seq<usize>, rep: int) -> spec_fn(int) -> Option<N> {
        |q: int|
            if self.in_stream(group, rep)(q) {
                Some(self.parcel(group[q] as int).tonnes_t)
            } else {
                None
            }
    }

    /// What is wrong with how much of a stream the first parcels hold.
    pub open spec fn interleaving(self, group: Seq<usize>, rep: int) -> spec_fn(int) -> Seq<ValidationIssue<N>> {
        |p: int|
            {
                let total = sum_to(group.len(), self.stream_tonnes(group, rep));
                let supplied = sum_to((p + 1) as nat, self.stream_tonnes(group, rep));
                let expected = N::of_whole((p + 1) as u64).over(N::of_whole(group.len() as u64)).times(total);
                let gap = supplied.minus(expected).magnitude();
                only_if(
                    self.target().plus(self.tolerance_spec()).below(gap),
                    issue(IssueKind::Interleaving, gap.minus(self.target())),
                )
            }
    }

    pub open spec fn stream_issues(self, group: Seq<usize>, rep: int) -> Seq<ValidationIssue<N>> {
        let ordered = self.by_position(group, rep);
        let small = self.under_target(group, ordered);
        let remainders = count_to(ordered.len(), small);
        only_if(remainders > 1, issue(IssueKind::SeveralRemainders, N::of_whole(remainders as u64))) + only_if(
            match last_where(ordered.len(), small) {
                Some(last) => first_where(0, ordered.len() as int, self.beyond(group, ordered, last)) is Some,
                None => false,
            },
            issue(IssueKind::RemainderOrder, N::of_whole(1)),
        ) + flat(group.len(), self.interleaving(group, rep))
    }

    pub open spec fn streams_of(self, group: Seq<usize>) -> spec_fn(int) -> Seq<ValidationIssue<N>> {
        |t: int| self.stream_issues(group, self.streams(group)[t] as int)
    }

    /// What is wrong with a receipt.
    pub open spec fn receipt_issues(self, rep: int) -> Seq<ValidationIssue<N>> {
        let group = self.group(rep);
        let n = group.len() as int;
        let over = first_where(0, n, self.oversized(group));
        only_if(first_where(0, n, self.misplaced(group)) is Some, issue(IssueKind::Positions, N::of_whole(1))) + (
        match over {
            Some(q) => issue(IssueKind::ParcelSize, self.parcel(group[q] as int).tonnes_t),
            None => Seq::empty(),
        }) + (match last_where(self.input.destinations@.len(), self.serves(self.parcel(rep).stockpile)) {
            Some(d) => {
                let received = sum_to(
                    self.result.movements@.len(),
                    self.received_in(rep, self.input.destinations@[d].id),
                );
                let parcelled = sum_to(group.len(), self.group_tonnes(group));
                let gap = received.minus(parcelled).magnitude();
                let allowance = self.tolerance_spec().upper(received.magnitude().times(self.tolerance_spec())).upper(
                    N::of_whole(group.len() as u64).times(self.dust_spec()),
                );
                only_if(allowance.below(gap), issue(IssueKind::ParcelTotal, gap)) + flat(
                    self.streams(group).len(),
                    self.streams_of(group),
                )
            },
            None => Seq::empty(),
        })
    }

    pub open spec fn receipts_of(self) -> spec_fn(int) -> Seq<ValidationIssue<N>> {
        |t: int| self.receipt_issues(self.receipts()[t] as int)
    }

    // The objective.

    pub open spec fn values(self) -> spec_fn(int) -> Option<N> {
        |m: int| Some(self.result.movements@[m].value)
    }

    pub open spec fn objective_issues(self) -> Seq<ValidationIssue<N>> {
        let tolerances = self.input.horizon.tolerances;
        let total = sum_to(self.result.movements@.len(), self.values());
        let rows = self.result.movements@.len();
        (match self.result.summary.objective {
            Some(reported) => {
                let gap = total.minus(reported).magnitude();
                only_if(
                    tolerances.objective.upper(self.tolerance_spec().times(reported.magnitude())).below(gap),
                    issue(IssueKind::Objective, gap),
                )
            },
            None => Seq::empty(),
        }) + (match (self.result.summary.raw_solver_objective, self.result.summary.objective) {
            (Some(raw), Some(published)) => {
                let gap = raw.minus(published).magnitude();
                let scale = raw.magnitude().upper(published.magnitude());
                only_if(
                    tolerances.objective.upper(self.tolerance_spec().times(scale)).times(
                        N::of_whole(
                            if rows < 1 {
                                1
                            } else {
                                rows as u64
                            },
                        ),
                    ).below(gap),
                    issue(IssueKind::SolverObjective, gap),
                )
            },
            _ => Seq::empty(),
        })
    }

    /// Everything wrong with the result, in the order it is found.
    pub open spec fn issues(self) -> Seq<ValidationIssue<N>> {
        self.total_issues() + self.walk_issues() + flat(self.result.parcels@.len(), self.parcels_of()) + flat(
            self.receipts().len(),
            self.receipts_of(),
        ) + self.objective_issues()
    }

    fn check_parcels(&self, out: &mut Vec<ValidationIssue<N>>)
        ensures
            final(out)@ == old(out)@ + flat(self.result.parcels@.len(), self.parcels_of()),
    {
        let least = self.input.horizon.tolerances.parcel_occupancy_t.mul(N::decimal(5, 1));
        let ghost base = out@;
        let ghost found = self.parcels_of();
        assert(base + flat(0, found) =~= base);
        for p in 0..self.result.parcels.len()
            invariant
                least == self.input.horizon.tolerances.parcel_occupancy_t.times(N::of_decimal(5, 1)),
                found == self.parcels_of(),
                out@ == base + flat(p as nat, found),
        {
            let parcel = self.result.parcels[p];
            if parcel.tonnes_t.is_below(least) {
                out.push(ValidationIssue { kind: IssueKind::ParcelSize, magnitude: parcel.tonnes_t });
            }
            if parcel.release_interval == 0 || parcel.release_interval - 1 != parcel.receipt_interval {
                out.push(ValidationIssue { kind: IssueKind::ReleaseInterval, magnitude: N::whole(1) });
            }
            assert(out@ =~= base + (flat(p as nat, found) + found(p as int)));
        }
    }

    fn is_fresh_receipt(&self, k: usize) -> (r: bool)
        requires
            k < self.result.parcels@.len(),
        ensures
            r == self.fresh_receipt()(k as int),
    {
        for j in 0..k
            invariant
                k < self.result.parcels@.len(),
                forall|q: int| 0 <= q < j ==> !same_receipt(#[trigger] self.parcel(q), self.parcel(k as int)),
        {
            if is_same_receipt(&self.result.parcels[j], &self.result.parcels[k]) {
                assert(same_receipt(self.parcel(j as int), self.parcel(k as int)));
                return false;
            }
        }
        true
    }

    fn is_receipt_before(&self, a: usize, b: usize) -> (r: bool)
        requires
            a < self.result.parcels@.len(),
            b < self.result.parcels@.len(),
        ensures
            r == self.receipt_order()(a as int, b as int),
    {
        let x = &self.result.parcels[a];
        let y = &self.result.parcels[b];
        x.stockpile.0 < y.stockpile.0 || (x.stockpile.0 == y.stockpile.0 && (x.receipt_interval < y.receipt_interval || (
        x.receipt_interval == y.receipt_interval && x.segment < y.segment)))
    }

    fn find_group(&self, rep: usize) -> (r: Vec<usize>)
        requires
            rep < self.result.parcels@.len(),
        ensures
            r@ == self.group(rep as int),
            forall|q: int| 0 <= q < r@.len() ==> (#[trigger] r@[q]) < self.result.parcels@.len(),
    {
        let mut group: Vec<usize> = Vec::new();
        for k in 0..self.result.parcels.len()
            invariant
                rep < self.result.parcels@.len(),
                group@ == indices_to(k as nat, self.in_receipt(rep as int)),
                forall|q: int| 0 <= q < group@.len() ==> (#[trigger] group@[q]) < k,
        {
            if is_same_receipt(&self.result.parcels[k], &self.result.parcels[rep]) {
                group.push(k);
            }
        }
        group
    }

    fn is_fresh_stream(&self, group: &Vec<usize>, q: usize) -> (r: bool)
        requires
            q < group@.len(),
            forall|q: int| 0 <= q < group@.len() ==> (#[trigger] group@[q]) < self.result.parcels@.len(),
        ensures
            r == self.fresh_stream(group@)(q as int),
    {
        for j in 0..q
            invariant
                q < group@.len(),
                forall|q: int| 0 <= q < group@.len() ==> (#[trigger] group@[q]) < self.result.parcels@.len(),
                forall|p: int|
                    0 <= p < j ==> !same_stream(
                        #[trigger] self.parcel(group@[p] as int),
                        self.parcel(group@[q as int] as int),
                    ),
        {
            if is_same_stream(&self.result.parcels[group[j]], &self.result.parcels[group[q]]) {
                assert(same_stream(self.parcel(group@[j as int] as int), self.parcel(group@[q as int] as int)));
                return false;
            }
        }
        true
    }

    fn is_stream_before(&self, group: &Vec<usize>, a: usize, b: usize) -> (r: bool)
        requires
            a < group@.len(),
            b < group@.len(),
            forall|q: int| 0 <= q < group@.len() ==> (#[trigger] group@[q]) < self.result.parcels@.len(),
        ensures
            r == self.stream_order(group@)(a as int, b as int),
    {
        let x = &self.result.parcels[group[a]];
        let y = &self.result.parcels[group[b]];
        is_source_before(x.source, y.source) || (x.source == y.source && x.material.0 < y.material.0)
    }

    fn check_stream(&self, group: &Vec<usize>, rep: usize, out: &mut Vec<ValidationIssue<N>>)
        requires
            rep < group@.len(),
            forall|q: int| 0 <= q < group@.len() ==> (#[trigger] group@[q]) < self.result.parcels@.len(),
        ensures
            final(out)@ == old(out)@ + self.stream_issues(group@, rep as int),
    {
        let parcels = &self.result.parcels;
        let ghost base = out@;
        let ghost g = group@;
        let ordered = arrange(
            group.len(),
            |q: usize| -> (b: bool)
                requires
                    q < group@.len(),
                    rep < group@.len(),
                    forall|q: int| 0 <= q < group@.len() ==> (#[trigger] group@[q]) < parcels@.len(),
                    parcels == self.result.parcels,
                ensures
                    b == said(self.in_stream(group@, rep as int), q)
                { is_same_stream(&parcels[group[q]], &parcels[group[rep]]) },
            |a: usize, b: usize| -> (r: bool)
                requires
                    a < group@.len(),
                    b < group@.len(),
                    forall|q: int| 0 <= q < group@.len() ==> (#[trigger] group@[q]) < parcels@.len(),
                    parcels == self.result.parcels,
                ensures
                    r == said_of_two(self.position_order(group@), a, b)
                { parcels[group[a]].position < parcels[group[b]].position },
            Ghost(self.in_stream(group@, rep as int)),
            Ghost(self.position_order(group@)),
        );
        let ghost small = self.under_target(g, ordered@);
        let ghost n = ordered@.len();
        let limit = self.input.horizon.parcel_target_t.sub(self.dust());
        let mut remainders: usize = 0;
        let mut last: Option<usize> = None;
        for r in 0..ordered.len()
            invariant
                g == group@,
                parcels == self.result.parcels,
                forall|q: int| 0 <= q < group@.len() ==> (#[trigger] group@[q]) < parcels@.len(),
                forall|q: int| 0 <= q < ordered@.len() ==> (#[trigger] ordered@[q]) < group@.len(),
                limit == self.target().minus(self.dust_spec()),
                small == self.under_target(g, ordered@),
                remainders <= r,
                remainders == count_to(r as nat, small),
                last matches Some(k) ==> k < r && last_where(r as nat, small) == Some(k as int),
                last is None ==> last_where(r as nat, small) is None,
        {
            if parcels[group[ordered[r]]].tonnes_t.is_below(limit) {
                remainders = remainders + 1;
                last = Some(r);
            }
        }
        if remainders > 1 {
            out.push(ValidationIssue { kind: IssueKind::SeveralRemainders, magnitude: N::whole(remainders as u64) });
        }
        if let Some(end) = last {
            let ghost after = self.beyond(g, ordered@, end as int);
            let mut r: usize = 0;
            let mut beyond: bool = false;
            while !beyond && r < ordered.len()
                invariant
                    g == group@,
                    parcels == self.result.parcels,
                    forall|q: int| 0 <= q < group@.len() ==> (#[trigger] group@[q]) < parcels@.len(),
                    forall|q: int| 0 <= q < ordered@.len() ==> (#[trigger] ordered@[q]) < group@.len(),
                    end < ordered@.len(),
                    r <= ordered@.len(),
                    n == ordered@.len(),
                    after == self.beyond(g, ordered@, end as int),
                    !beyond ==> first_where(0, n as int, after) == first_where(r as int, n as int, after),
                    beyond ==> first_where(0, n as int, after) is Some,
                decreases n - r, !beyond as int,
            {
                if parcels[group[ordered[r]]].position > parcels[group[ordered[end]]].position {
                    assert(after(r as int));
                    beyond = true;
                } else {
                    r = r + 1;
                }
            }
            if beyond {
                out.push(ValidationIssue { kind: IssueKind::RemainderOrder, magnitude: N::whole(1) });
            }
        }
        let ghost middle = out@;
        self.check_interleaving(group, rep, out);
        assert(out@ =~= base + self.stream_issues(g, rep as int));
    }

    fn check_interleaving(&self, group: &Vec<usize>, rep: usize, out: &mut Vec<ValidationIssue<N>>)
        requires
            rep < group@.len(),
            forall|q: int| 0 <= q < group@.len() ==> (#[trigger] group@[q]) < self.result.parcels@.len(),
        ensures
            final(out)@ == old(out)@ + flat(group@.len(), self.interleaving(group@, rep as int)),
    {
        let parcels = &self.result.parcels;
        let ghost parts = self.stream_tonnes(group@, rep as int);
        let mut total = N::whole(0);
        for q in 0..group.len()
            invariant
                rep < group@.len(),
                parcels == self.result.parcels,
                forall|q: int| 0 <= q < group@.len() ==> (#[trigger] group@[q]) < parcels@.len(),
                parts == self.stream_tonnes(group@, rep as int),
                total == sum_to(q as nat, parts),
        {
            if is_same_stream(&parcels[group[q]], &parcels[group[rep]]) {
                total = total.add(parcels[group[q]].tonnes_t);
            }
        }
        let ghost base = out@;
        let ghost found = self.interleaving(group@, rep as int);
        assert(base + flat(0, found) =~= base);
        let mut supplied = N::whole(0);
        for p in 0..group.len()
            invariant
                rep < group@.len(),
                parcels == self.result.parcels,
                forall|q: int| 0 <= q < group@.len() ==> (#[trigger] group@[q]) < parcels@.len(),
                parts == self.stream_tonnes(group@, rep as int),
                total == sum_to(group@.len(), parts),
                supplied == sum_to(p as nat, parts),
                found == self.interleaving(group@, rep as int),
                out@ == base + flat(p as nat, found),
        {
            if is_same_stream(&parcels[group[p]], &parcels[group[rep]]) {
                supplied = supplied.add(parcels[group[p]].tonnes_t);
            }
            let expected = N::whole((p + 1) as u64).div(N::whole(group.len() as u64)).mul(total);
            let gap = supplied.sub(expected).abs();
            if self.input.horizon.parcel_target_t.add(self.tolerance()).is_below(gap) {
                out.push(
                    ValidationIssue {
                        kind: IssueKind::Interleaving,
                        magnitude: gap.sub(self.input.horizon.parcel_target_t),
                    },
                );
            }
            assert(out@ =~= base + (flat(p as nat, found) + found(p as int)));
        }
    }

    fn check_received(&self, rep: usize, group: &Vec<usize>, d: usize, out: &mut Vec<ValidationIssue<N>>)
        requires
            rep < self.result.parcels@.len(),
            d < self.input.destinations@.len(),
            forall|q: int| 0 <= q < group@.len() ==> (#[trigger] group@[q]) < self.result.parcels@.len(),
        ensures
            ({
                let received = sum_to(
                    self.result.movements@.len(),
                    self.received_in(rep as int, self.input.destinations@[d as int].id),
                );
                let parcelled = sum_to(group@.len(), self.group_tonnes(group@));
                let gap = received.minus(parcelled).magnitude();
                let allowance = self.tolerance_spec().upper(received.magnitude().times(self.tolerance_spec())).upper(
                    N::of_whole(group@.len() as u64).times(self.dust_spec()),
                );
                final(out)@ == old(out)@ + only_if(allowance.below(gap), issue(IssueKind::ParcelTotal, gap))
            }),
    {
        let parcel = self.result.parcels[rep];
        let destination = self.input.destinations[d].id;
        let mut received = N::whole(0);
        for m in 0..self.result.movements.len()
            invariant
                parcel == self.parcel(rep as int),
                received == sum_to(m as nat, self.received_in(rep as int, destination)),
        {
            let row = &self.result.movements[m];
            if row.interval == parcel.receipt_interval && row.segment == parcel.segment && row.destination
                == destination {
                received = received.add(row.tonnes_t);
            }
        }
        let mut parcelled = N::whole(0);
        for q in 0..group.len()
            invariant
                forall|q: int| 0 <= q < group@.len() ==> (#[trigger] group@[q]) < self.result.parcels@.len(),
                parcelled == sum_to(q as nat, self.group_tonnes(group@)),
        {
            parcelled = parcelled.add(self.result.parcels[group[q]].tonnes_t);
        }
        let gap = received.sub(parcelled).abs();
        let allowance = self.tolerance().larger(received.abs().mul(self.tolerance())).larger(
            N::whole(group.len() as u64).mul(self.dust()),
        );
        if allowance.is_below(gap) {
            out.push(ValidationIssue { kind: IssueKind::ParcelTotal, magnitude: gap });
        }
    }

    fn is_misplaced(&self, group: &Vec<usize>, q: usize) -> (r: bool)
        requires
            q < group@.len(),
            forall|x: int| 0 <= x < group@.len() ==> (#[trigger] group@[x]) < self.result.parcels@.len(),
        ensures
            r == self.misplaced(group@)(q as int),
    {
        let parcels = &self.result.parcels;
        let here = parcels[group[q]];
        if q == 0 {
            return here.position != 0;
        }
        let before: usize = parcels[group[q - 1]].position;
        if here.position > 0 && here.position - 1 == before {
            return false;
        }
        if here.position != before {
            return true;
        }
        for e in 0..q
            invariant
                0 < q < group@.len(),
                parcels == self.result.parcels,
                here == parcels@[group@[q as int] as int],
                here.position == parcels@[group@[q - 1] as int].position,
                forall|x: int| 0 <= x < group@.len() ==> (#[trigger] group@[x]) < parcels@.len(),
                forall|x: int| 0 <= x < e ==> !self.same_place(#[trigger] group@[x], group@[q as int]),
        {
            let other = parcels[group[e]];
            if other.position == here.position && other.source == here.source && other.material == here.material {
                assert(self.same_place(group@[e as int], group@[q as int]));
                return true;
            }
        }
        false
    }

    fn check_group(&self, group: &Vec<usize>, out: &mut Vec<ValidationIssue<N>>)
        requires
            forall|q: int| 0 <= q < group@.len() ==> (#[trigger] group@[q]) < self.result.parcels@.len(),
        ensures
            final(out)@ == old(out)@ + only_if(
                first_where(0, group@.len() as int, self.misplaced(group@)) is Some,
                issue(IssueKind::Positions, N::of_whole(1)),
            ) + (match first_where(0, group@.len() as int, self.oversized(group@)) {
                Some(q) => issue(IssueKind::ParcelSize, self.parcel(group@[q] as int).tonnes_t),
                None => Seq::empty(),
            }),
    {
        let parcels = &self.result.parcels;
        let ghost n = group@.len() as int;
        let ghost wrong = self.misplaced(group@);
        let ghost large = self.oversized(group@);
        let mut q: usize = 0;
        while q < group.len() && !self.is_misplaced(group, q)
            invariant
                parcels == self.result.parcels,
                forall|q: int| 0 <= q < group@.len() ==> (#[trigger] group@[q]) < parcels@.len(),
                q <= n,
                n == group@.len(),
                wrong == self.misplaced(group@),
                first_where(0, n, wrong) == first_where(q as int, n, wrong),
            decreases n - q,
        {
            q = q + 1;
        }
        if q < group.len() {
            assert(wrong(q as int));
            out.push(ValidationIssue { kind: IssueKind::Positions, magnitude: N::whole(1) });
        }
        let ceiling = self.input.horizon.parcel_target_t.add(self.tolerance()).add(
            N::whole(group.len() as u64).mul(self.dust()),
        );
        let mut p: usize = 0;
        while p < group.len() && !ceiling.is_below(parcels[group[p]].tonnes_t)
            invariant
                parcels == self.result.parcels,
                forall|q: int| 0 <= q < group@.len() ==> (#[trigger] group@[q]) < parcels@.len(),
                p <= n,
                n == group@.len(),
                ceiling == self.target().plus(self.tolerance_spec()).plus(
                    N::of_whole(group@.len() as u64).times(self.dust_spec()),
                ),
                large == self.oversized(group@),
                first_where(0, n, large) == first_where(p as int, n, large),
            decreases n - p,
        {
            p = p + 1;
        }
        if p < group.len() {
            assert(large(p as int));
            out.push(ValidationIssue { kind: IssueKind::ParcelSize, magnitude: parcels[group[p]].tonnes_t });
        }
    }

    fn find_server(&self, pile: StockpileId) -> (r: Option<usize>)
        ensures
            r matches Some(d) ==> d < self.input.destinations@.len() && last_where(
                self.input.destinations@.len(),
                self.serves(pile),
            ) == Some(d as int),
            r is None ==> last_where(self.input.destinations@.len(), self.serves(pile)) is None,
    {
        let mut last: Option<usize> = None;
        for d in 0..self.input.destinations.len()
            invariant
                last matches Some(k) ==> k < d && last_where(d as nat, self.serves(pile)) == Some(k as int),
                last is None ==> last_where(d as nat, self.serves(pile)) is None,
        {
            if self.input.destinations[d].kind == DestinationKind::Stockpile(pile) {
                last = Some(d);
            }
        }
        last
    }

    fn check_streams(&self, group: &Vec<usize>, out: &mut Vec<ValidationIssue<N>>)
        requires
            forall|q: int| 0 <= q < group@.len() ==> (#[trigger] group@[q]) < self.result.parcels@.len(),
        ensures
            final(out)@ == old(out)@ + flat(self.streams(group@).len(), self.streams_of(group@)),
    {
        let streams = arrange(
            group.len(),
            |q: usize| -> (b: bool)
                requires
                    q < group@.len(),
                    forall|q: int| 0 <= q < group@.len() ==> (#[trigger] group@[q]) < self.result.parcels@.len(),
                ensures
                    b == said(self.fresh_stream(group@), q)
                { self.is_fresh_stream(group, q) },
            |a: usize, b: usize| -> (r: bool)
                requires
                    a < group@.len(),
                    b < group@.len(),
                    forall|q: int| 0 <= q < group@.len() ==> (#[trigger] group@[q]) < self.result.parcels@.len(),
                ensures
                    r == said_of_two(self.stream_order(group@), a, b)
                { self.is_stream_before(group, a, b) },
            Ghost(self.fresh_stream(group@)),
            Ghost(self.stream_order(group@)),
        );
        let ghost base = out@;
        let ghost found = self.streams_of(group@);
        assert(base + flat(0, found) =~= base);
        for t in 0..streams.len()
            invariant
                forall|q: int| 0 <= q < group@.len() ==> (#[trigger] group@[q]) < self.result.parcels@.len(),
                forall|q: int| 0 <= q < streams@.len() ==> (#[trigger] streams@[q]) < group@.len(),
                streams@ == self.streams(group@),
                found == self.streams_of(group@),
                out@ == base + flat(t as nat, found),
        {
            self.check_stream(group, streams[t], out);
            assert(out@ =~= base + (flat(t as nat, found) + found(t as int)));
        }
    }

    fn check_receipt(&self, rep: usize, out: &mut Vec<ValidationIssue<N>>)
        requires
            rep < self.result.parcels@.len(),
        ensures
            final(out)@ == old(out)@ + self.receipt_issues(rep as int),
    {
        let ghost base = out@;
        let group = self.find_group(rep);
        self.check_group(&group, out);
        if let Some(d) = self.find_server(self.result.parcels[rep].stockpile) {
            self.check_received(rep, &group, d, out);
            self.check_streams(&group, out);
        }
        assert(out@ =~= base + self.receipt_issues(rep as int));
    }

    fn check_receipts(&self, out: &mut Vec<ValidationIssue<N>>)
        ensures
            final(out)@ == old(out)@ + flat(self.receipts().len(), self.receipts_of()),
    {
        let reps = arrange(
            self.result.parcels.len(),
            |k: usize| -> (b: bool)
                requires
                    k < self.result.parcels@.len(),
                ensures
                    b == said(self.fresh_receipt(), k)
                { self.is_fresh_receipt(k) },
            |a: usize, b: usize| -> (r: bool)
                requires
                    a < self.result.parcels@.len(),
                    b < self.result.parcels@.len(),
                ensures
                    r == said_of_two(self.receipt_order(), a, b)
                { self.is_receipt_before(a, b) },
            Ghost(self.fresh_receipt()),
            Ghost(self.receipt_order()),
        );
        let ghost base = out@;
        let ghost found = self.receipts_of();
        assert(base + flat(0, found) =~= base);
        for t in 0..reps.len()
            invariant
                forall|q: int| 0 <= q < reps@.len() ==> (#[trigger] reps@[q]) < self.result.parcels@.len(),
                reps@ == self.receipts(),
                found == self.receipts_of(),
                out@ == base + flat(t as nat, found),
        {
            self.check_receipt(reps[t], out);
            assert(out@ =~= base + (flat(t as nat, found) + found(t as int)));
        }
    }

    fn check_objective(&self, out: &mut Vec<ValidationIssue<N>>)
        ensures
            final(out)@ == old(out)@ + self.objective_issues(),
    {
        let tolerances = self.input.horizon.tolerances;
        let mut total = N::whole(0);
        for m in 0..self.result.movements.len()
            invariant
                total == sum_to(m as nat, self.values()),
        {
            total = total.add(self.result.movements[m].value);
        }
        if let Some(reported) = self.result.summary.objective {
            let gap = total.sub(reported).abs();
            if tolerances.objective.larger(self.tolerance().mul(reported.abs())).is_below(gap) {
                out.push(ValidationIssue { kind: IssueKind::Objective, magnitude: gap });
            }
        }
        if let Some(raw) = self.result.summary.raw_solver_objective {
            if let Some(published) = self.result.summary.objective {
                let gap = raw.sub(published).abs();
                let scale = raw.abs().larger(published.abs());
                let rows: u64 = if self.result.movements.len() < 1 {
                    1
                } else {
                    self.result.movements.len() as u64
                };
                if tolerances.objective.larger(self.tolerance().mul(scale)).mul(N::whole(rows)).is_below(gap) {
                    out.push(ValidationIssue { kind: IssueKind::SolverObjective, magnitude: gap });
                }
            }
        }
    }

    /// Finds everything wrong with the result.
    pub fn run(&self) -> (r: Vec<ValidationIssue<N>>)
        requires
            self.auditable(),
        ensures
            r@ == self.issues(),
    {
        let mut out = self.check_totals();
        let mut walked = self.check_walk();
        out.append(&mut walked);
        self.check_parcels(&mut out);
        self.check_receipts(&mut out);
        self.check_objective(&mut out);
        out
    }
}

/// Holds a published result against the input it was made from, without
/// looking at how it was made: loader and fleet capacity in every segment,
/// ground and composition, the authored order of tasks, destination limits,
/// the release and order of stockpile inventory, receipt parcels, reclaim
/// limits and the objective. Returns everything that is wrong.
pub fn validate_solution<N: Scalar>(input: &OptimisationInput<N>, result: &OptimisationResult<N>) -> (r: Vec<
    ValidationIssue<N>,
>)
    requires
        audit_of(input, result).auditable(),
    ensures
        r@ == audit_of(input, result).issues(),
{
    Audit { input, result }.run()
}

} // verus!
