//! The rows that split what piles receive into parcels.
use vstd::prelude::*;

use crate::ledger::Ledger;
use crate::listing::{count_to, flat};
use crate::optimisation::ids::StockpileId;
use crate::optimisation::parcel::base::{add_counts, added, as_count, to_count, Parcels};
use crate::optimisation::parcel::columns::{Group, ParcelColumn, StreamKey};
use crate::optimisation::parcel::declare::{Line, Sheet};
use crate::optimisation::parcel::lists::{in_group, is_in_group, Lists};
use crate::optimisation::parcel::select::{MoveSelector, ParcelPart, ParcelSelector};
use crate::optimisation::sheet::{
    at_least_row, at_most_row, equal_row, less_one, nil, one, terms_of, terms_of_three,
};
use crate::scalar::Scalar;

verus! {

impl<'a, N: Scalar> Parcels<'a, N> {
    pub open spec fn quantity(self, stream: StreamKey, position: int) -> ParcelColumn {
        ParcelColumn::Quantity { stream, position: position as usize }
    }

    pub open spec fn assigned(self, stream: StreamKey, position: int) -> ParcelColumn {
        ParcelColumn::Assigned { stream, position: position as usize }
    }

    pub open spec fn remainder(self, stream: StreamKey, position: int) -> ParcelColumn {
        ParcelColumn::Remainder { stream, position: position as usize }
    }

    pub open spec fn at(self, group: Group, position: int) -> ParcelSelector {
        ParcelSelector::At {
            pile: group.pile,
            interval: group.interval,
            segment: group.segment,
            position: position as usize,
        }
    }

    /// A position goes to one stream at most, and none is left out.
    pub open spec fn position_line(self, group: Group) -> spec_fn(int) -> Seq<Line<N>> {
        |p: int|
            {
                let here = self.parcel_terms(self.at(group, p), ParcelPart::Assigned, one::<N>());
                seq![at_most_row(here, one::<N>())] + (if p + 1 < group.positions {
                    seq![
                        at_most_row(
                            self.parcel_terms(self.at(group, p + 1), ParcelPart::Assigned, one::<N>())
                                + self.parcel_terms(self.at(group, p), ParcelPart::Assigned, less_one::<N>()),
                            nil::<N>(),
                        ),
                    ]
                } else {
                    Seq::empty()
                })
            }
    }

    pub open spec fn later_line(self, stream: StreamKey, p: int) -> spec_fn(int) -> Seq<Line<N>> {
        |j: int|
            seq![
                at_most_row(
                    seq![
                        (self.remainder(stream, p), one::<N>()),
                        (self.assigned(stream, p + 1 + j), one::<N>()),
                    ],
                    one::<N>(),
                ),
            ]
    }

    /// A parcel is full unless it is the last of its stream.
    pub open spec fn parcel_line(self, stream: StreamKey, positions: nat) -> spec_fn(int) -> Seq<Line<N>> {
        |p: int|
            {
                let (q, a, r) = (self.quantity(stream, p), self.assigned(stream, p), self.remainder(stream, p));
                seq![
                    at_most_row(seq![(q, one::<N>()), (a, self.target().opposite())], nil::<N>()),
                    at_least_row(seq![(q, one::<N>()), (a, self.parcel_floor().opposite())], nil::<N>()),
                    at_most_row(seq![(r, one::<N>()), (a, less_one::<N>())], nil::<N>()),
                    at_least_row(
                        seq![(q, one::<N>()), (a, self.target().opposite()), (r, self.target())],
                        nil::<N>(),
                    ),
                ] + flat((positions - p - 1) as nat, self.later_line(stream, p))
            }
    }

    pub open spec fn incoming(self, stream: StreamKey) -> MoveSelector {
        MoveSelector::Incoming {
            interval: stream.interval,
            segment: stream.segment,
            source: stream.source,
            material: stream.material,
            pile: stream.pile,
        }
    }

    /// The parcels of a stream hold what it brings.
    pub open spec fn stream_line(self, group: Group) -> spec_fn(int) -> Seq<Line<N>> {
        |y: int|
            {
                let stream = self.streams()[y].0;
                if in_group(stream, group) {
                    let of = ParcelSelector::OfStream { stream };
                    seq![
                        equal_row(
                            self.parcel_terms(of, ParcelPart::Quantity, one::<N>()) + self.move_terms(
                                self.incoming(stream),
                                less_one::<N>(),
                            ),
                            nil::<N>(),
                        ),
                        at_most_row(self.parcel_terms(of, ParcelPart::Remainder, one::<N>()), one::<N>()),
                    ] + flat(group.positions as nat, self.parcel_line(stream, group.positions as nat))
                } else {
                    Seq::empty()
                }
            }
    }

    pub open spec fn count_term(self, group: Group) -> spec_fn(int) -> Seq<(ParcelColumn, N)> {
        |count: int| seq![(self.occupied(group, count), one::<N>())]
    }

    pub open spec fn counted_term(self, group: Group) -> spec_fn(int) -> Seq<(ParcelColumn, N)> {
        |count: int| seq![(self.occupied(group, count), N::of_whole(count as u64).opposite())]
    }

    pub open spec fn filled_terms(self, group: Group) -> spec_fn(int) -> Seq<(ParcelColumn, N)> {
        |p: int| self.parcel_terms(self.at(group, p), ParcelPart::Assigned, one::<N>())
    }

    /// How many positions are filled.
    pub open spec fn count_lines(self, group: Group) -> Seq<Line<N>> {
        let n = group.positions as nat + 1;
        seq![
            equal_row(flat(n, self.count_term(group)), one::<N>()),
            equal_row(
                flat(group.positions as nat, self.filled_terms(group)) + flat(n, self.counted_term(group)),
                nil::<N>(),
            ),
        ]
    }

    /// What the first `prefix` of `count` positions hold of a stream stays near
    /// its share.
    pub open spec fn even_line(self, group: Group, stream: StreamKey, count: int) -> spec_fn(int) -> Seq<Line<N>> {
        |f: int|
            {
                let prefix = f + 1;
                let whole = N::of_whole(count as u64);
                let big = whole.times(self.group_bound(group)).upper(self.target());
                let allowance = whole.times(self.target());
                let apart = self.parcel_terms(
                    ParcelSelector::Before { stream, prefix: prefix as usize },
                    ParcelPart::Quantity,
                    whole,
                ) + self.parcel_terms(
                    ParcelSelector::OfStream { stream },
                    ParcelPart::Quantity,
                    N::of_whole(prefix as u64).opposite(),
                );
                let selector = self.occupied(group, count);
                seq![
                    at_most_row(apart.push((selector, big)), allowance.plus(big)),
                    at_least_row(apart.push((selector, big.opposite())), allowance.opposite().minus(big)),
                ]
            }
    }

    pub open spec fn even_count_lines(self, group: Group, stream: StreamKey) -> spec_fn(int) -> Seq<Line<N>> {
        |c: int| flat((c + 1) as nat, self.even_line(group, stream, c + 1))
    }

    pub open spec fn even_stream_lines(self, group: Group) -> spec_fn(int) -> Seq<Line<N>> {
        |y: int|
            {
                let stream = self.streams()[y].0;
                if in_group(stream, group) {
                    flat(group.positions as nat, self.even_count_lines(group, stream))
                } else {
                    Seq::empty()
                }
            }
    }

    pub open spec fn group_lines(self) -> spec_fn(int) -> Seq<Line<N>> {
        |x: int|
            {
                let group = self.groups()[x];
                flat(group.positions as nat, self.position_line(group)) + flat(
                    self.streams().len(),
                    self.stream_line(group),
                ) + self.count_lines(group) + flat(self.streams().len(), self.even_stream_lines(group))
            }
    }

    fn at_position(group: Group, position: usize) -> (r: ParcelSelector)
        ensures
            r == (ParcelSelector::At {
                pile: group.pile,
                interval: group.interval,
                segment: group.segment,
                position,
            }),
    {
        ParcelSelector::At { pile: group.pile, interval: group.interval, segment: group.segment, position }
    }

    fn write_positions(&self, sheet: &mut Sheet<N>, group: Group, lists: &Lists<N>)
        requires
            self.listed(*lists),
        ensures
            final(sheet)@ == old(sheet)@ + flat(group.positions as nat, self.position_line(group)),
    {
        let ghost base = sheet@;
        let ghost f = self.position_line(group);
        assert(base + flat(0, f) =~= base);
        for p in 0..group.positions
            invariant
                self.listed(*lists),
                f == self.position_line(group),
                sheet@ == base + flat(p as nat, f),
        {
            let here = Self::at_position(group, p);
            let mut terms: Vec<(ParcelColumn, N)> = Vec::new();
            self.add_parcels(&mut terms, &lists.parcels, here, ParcelPart::Assigned, N::whole(1));
            assert(terms@ =~= self.parcel_terms(here, ParcelPart::Assigned, one::<N>()));
            sheet.leq(terms, N::whole(1));
            if group.positions - p > 1 {
                let next = Self::at_position(group, p + 1);
                let mut both: Vec<(ParcelColumn, N)> = Vec::new();
                self.add_parcels(&mut both, &lists.parcels, next, ParcelPart::Assigned, N::whole(1));
                self.add_parcels(&mut both, &lists.parcels, here, ParcelPart::Assigned, N::whole(1).neg());
                assert(both@ =~= self.parcel_terms(next, ParcelPart::Assigned, one::<N>()) + self.parcel_terms(
                    here,
                    ParcelPart::Assigned,
                    less_one::<N>(),
                ));
                sheet.leq(both, N::whole(0));
            }
            assert(sheet@ =~= base + (flat(p as nat, f) + f(p as int)));
        }
    }

    fn write_parcel(&self, sheet: &mut Sheet<N>, stream: StreamKey, p: usize, positions: usize)
        requires
            p < positions,
        ensures
            final(sheet)@ == old(sheet)@ + self.parcel_line(stream, positions as nat)(p as int),
    {
        let ghost base = sheet@;
        let target = self.input.horizon.parcel_target_t;
        let floor = self.find_parcel_floor();
        let q = ParcelColumn::Quantity { stream, position: p };
        let a = ParcelColumn::Assigned { stream, position: p };
        let r = ParcelColumn::Remainder { stream, position: p };
        sheet.leq(terms_of(q, N::whole(1), a, target.neg()), N::whole(0));
        sheet.geq(terms_of(q, N::whole(1), a, floor.neg()), N::whole(0));
        sheet.leq(terms_of(r, N::whole(1), a, N::whole(1).neg()), N::whole(0));
        sheet.geq(terms_of_three(q, N::whole(1), a, target.neg(), r, target), N::whole(0));
        let ghost inner = sheet@;
        let ghost f = self.later_line(stream, p as int);
        assert(inner + flat(0, f) =~= inner);
        let later: usize = positions - p - 1;
        for j in 0..later
            invariant
                p < positions,
                later == positions - p - 1,
                r == self.remainder(stream, p as int),
                f == self.later_line(stream, p as int),
                sheet@ == inner + flat(j as nat, f),
        {
            let next = ParcelColumn::Assigned { stream, position: p + 1 + j };
            sheet.leq(terms_of(r, N::whole(1), next, N::whole(1)), N::whole(1));
            assert(sheet@ =~= inner + (flat(j as nat, f) + f(j as int)));
        }
        assert(sheet@ =~= base + self.parcel_line(stream, positions as nat)(p as int));
    }

    fn write_stream(&self, sheet: &mut Sheet<N>, group: Group, stream: StreamKey, lists: &Lists<N>)
        requires
            self.listed(*lists),
            in_group(stream, group),
        ensures
            final(sheet)@ == old(sheet)@ + (seq![
                equal_row(
                    self.parcel_terms(ParcelSelector::OfStream { stream }, ParcelPart::Quantity, one::<N>())
                        + self.move_terms(self.incoming(stream), less_one::<N>()),
                    nil::<N>(),
                ),
                at_most_row(
                    self.parcel_terms(ParcelSelector::OfStream { stream }, ParcelPart::Remainder, one::<N>()),
                    one::<N>(),
                ),
            ] + flat(group.positions as nat, self.parcel_line(stream, group.positions as nat))),
    {
        let ghost base = sheet@;
        let of = ParcelSelector::OfStream { stream };
        let incoming = MoveSelector::Incoming {
            interval: stream.interval,
            segment: stream.segment,
            source: stream.source,
            material: stream.material,
            pile: stream.pile,
        };
        let mut terms: Vec<(ParcelColumn, N)> = Vec::new();
        self.add_parcels(&mut terms, &lists.parcels, of, ParcelPart::Quantity, N::whole(1));
        self.add_moves(&mut terms, &lists.moves, incoming, N::whole(1).neg());
        assert(terms@ =~= self.parcel_terms(of, ParcelPart::Quantity, one::<N>()) + self.move_terms(
            incoming,
            less_one::<N>(),
        ));
        sheet.eq(terms, N::whole(0));
        let mut left: Vec<(ParcelColumn, N)> = Vec::new();
        self.add_parcels(&mut left, &lists.parcels, of, ParcelPart::Remainder, N::whole(1));
        assert(left@ =~= self.parcel_terms(of, ParcelPart::Remainder, one::<N>()));
        sheet.leq(left, N::whole(1));
        let ghost inner = sheet@;
        let ghost f = self.parcel_line(stream, group.positions as nat);
        assert(inner + flat(0, f) =~= inner);
        for p in 0..group.positions
            invariant
                f == self.parcel_line(stream, group.positions as nat),
                sheet@ == inner + flat(p as nat, f),
        {
            self.write_parcel(sheet, stream, p, group.positions);
            assert(sheet@ =~= inner + (flat(p as nat, f) + f(p as int)));
        }
        assert(sheet@ =~= base + (seq![
            equal_row(
                self.parcel_terms(ParcelSelector::OfStream { stream }, ParcelPart::Quantity, one::<N>())
                    + self.move_terms(self.incoming(stream), less_one::<N>()),
                nil::<N>(),
            ),
            at_most_row(
                self.parcel_terms(ParcelSelector::OfStream { stream }, ParcelPart::Remainder, one::<N>()),
                one::<N>(),
            ),
        ] + flat(group.positions as nat, self.parcel_line(stream, group.positions as nat))));
    }

    fn write_counts(&self, sheet: &mut Sheet<N>, group: Group, lists: &Lists<N>)
        requires
            self.listed(*lists),
        ensures
            final(sheet)@ == old(sheet)@ + self.count_lines(group),
    {
        let ghost base = sheet@;
        let mut counts: Vec<(ParcelColumn, N)> = Vec::new();
        let mut filled: Vec<(ParcelColumn, N)> = Vec::new();
        let ghost one_each = self.count_term(group);
        let ghost fill = self.filled_terms(group);
        for p in 0..group.positions
            invariant
                self.listed(*lists),
                one_each == self.count_term(group),
                fill == self.filled_terms(group),
                counts@ == flat(p as nat, one_each),
                filled@ == flat(p as nat, fill),
        {
            counts.push(
                (
                    ParcelColumn::OccupiedCount {
                        pile: group.pile,
                        interval: group.interval,
                        segment: group.segment,
                        count: p,
                    },
                    N::whole(1),
                ),
            );
            self.add_parcels(
                &mut filled,
                &lists.parcels,
                Self::at_position(group, p),
                ParcelPart::Assigned,
                N::whole(1),
            );
            assert(counts@ =~= flat(p as nat, one_each) + one_each(p as int));
            assert(filled@ =~= flat(p as nat, fill) + fill(p as int));
        }
        let last = ParcelColumn::OccupiedCount {
            pile: group.pile,
            interval: group.interval,
            segment: group.segment,
            count: group.positions,
        };
        counts.push((last, N::whole(1)));
        assert(counts@ =~= flat(group.positions as nat, one_each) + one_each(group.positions as int));
        sheet.eq(counts, N::whole(1));
        let ghost start = filled@;
        let ghost weighed = self.counted_term(group);
        assert(start + flat(0, weighed) =~= start);
        for p in 0..group.positions
            invariant
                weighed == self.counted_term(group),
                filled@ == start + flat(p as nat, weighed),
        {
            filled.push(
                (
                    ParcelColumn::OccupiedCount {
                        pile: group.pile,
                        interval: group.interval,
                        segment: group.segment,
                        count: p,
                    },
                    N::whole(p as u64).neg(),
                ),
            );
            assert(filled@ =~= start + (flat(p as nat, weighed) + weighed(p as int)));
        }
        filled.push((last, N::whole(group.positions as u64).neg()));
        assert(filled@ =~= start + (flat(group.positions as nat, weighed) + weighed(group.positions as int)));
        sheet.eq(filled, N::whole(0));
        assert(sheet@ =~= base + self.count_lines(group));
    }

    fn write_even(
        &self,
        sheet: &mut Sheet<N>,
        group: Group,
        stream: StreamKey,
        count: usize,
        bound: N,
        lists: &Lists<N>,
    )
        requires
            self.listed(*lists),
            bound == self.group_bound(group),
        ensures
            final(sheet)@ == old(sheet)@ + flat(count as nat, self.even_line(group, stream, count as int)),
    {
        let ghost base = sheet@;
        let ghost f = self.even_line(group, stream, count as int);
        let target = self.input.horizon.parcel_target_t;
        let whole = N::whole(count as u64);
        let big = whole.mul(bound).larger(target);
        let allowance = whole.mul(target);
        let selector = ParcelColumn::OccupiedCount {
            pile: group.pile,
            interval: group.interval,
            segment: group.segment,
            count,
        };
        assert(base + flat(0, f) =~= base);
        for at in 0..count
            invariant
                self.listed(*lists),
                whole == N::of_whole(count as u64),
                big == whole.times(self.group_bound(group)).upper(self.target()),
                allowance == whole.times(self.target()),
                selector == self.occupied(group, count as int),
                f == self.even_line(group, stream, count as int),
                sheet@ == base + flat(at as nat, f),
        {
            let prefix: usize = at + 1;
            let before = ParcelSelector::Before { stream, prefix };
            let of = ParcelSelector::OfStream { stream };
            let share = N::whole(prefix as u64).neg();
            let mut upper: Vec<(ParcelColumn, N)> = Vec::new();
            self.add_parcels(&mut upper, &lists.parcels, before, ParcelPart::Quantity, whole);
            self.add_parcels(&mut upper, &lists.parcels, of, ParcelPart::Quantity, share);
            let mut lower = crate::listing::copied(&upper);
            upper.push((selector, big));
            lower.push((selector, big.neg()));
            sheet.leq(upper, allowance.add(big));
            sheet.geq(lower, allowance.neg().sub(big));
            assert(sheet@ =~= base + (flat(at as nat, f) + f(at as int)));
        }
    }

    fn write_even_stream(
        &self,
        sheet: &mut Sheet<N>,
        group: Group,
        stream: StreamKey,
        bound: N,
        lists: &Lists<N>,
    )
        requires
            self.listed(*lists),
            bound == self.group_bound(group),
        ensures
            final(sheet)@ == old(sheet)@ + flat(group.positions as nat, self.even_count_lines(group, stream)),
    {
        let ghost base = sheet@;
        let ghost f = self.even_count_lines(group, stream);
        assert(base + flat(0, f) =~= base);
        for c in 0..group.positions
            invariant
                self.listed(*lists),
                bound == self.group_bound(group),
                f == self.even_count_lines(group, stream),
                sheet@ == base + flat(c as nat, f),
        {
            self.write_even(sheet, group, stream, c + 1, bound, lists);
            assert(sheet@ =~= base + (flat(c as nat, f) + f(c as int)));
        }
    }

    fn write_group(&self, sheet: &mut Sheet<N>, x: usize, lists: &Lists<N>)
        requires
            self.listed(*lists),
            x < lists.groups@.len(),
        ensures
            final(sheet)@ == old(sheet)@ + self.group_lines()(x as int),
    {
        let ghost base = sheet@;
        let group = lists.groups[x];
        self.write_positions(sheet, group, lists);
        let ghost first = sheet@;
        let ghost each = self.stream_line(group);
        assert(first + flat(0, each) =~= first);
        for y in 0..lists.streams.entries.len()
            invariant
                self.listed(*lists),
                each == self.stream_line(group),
                sheet@ == first + flat(y as nat, each),
        {
            let stream = lists.streams.entries[y].0;
            assert(stream == self.streams()[y as int].0);
            if is_in_group(stream, group) {
                self.write_stream(sheet, group, stream, lists);
            }
            assert(sheet@ =~= first + (flat(y as nat, each) + each(y as int)));
        }
        self.write_counts(sheet, group, lists);
        let bound = self.find_group_bound(&lists.streams, group);
        let ghost second = sheet@;
        let ghost even = self.even_stream_lines(group);
        assert(second + flat(0, even) =~= second);
        for y in 0..lists.streams.entries.len()
            invariant
                self.listed(*lists),
                bound == self.group_bound(group),
                even == self.even_stream_lines(group),
                sheet@ == second + flat(y as nat, even),
        {
            let stream = lists.streams.entries[y].0;
            assert(stream == self.streams()[y as int].0);
            if is_in_group(stream, group) {
                self.write_even_stream(sheet, group, stream, bound, lists);
            }
            assert(sheet@ =~= second + (flat(y as nat, even) + even(y as int)));
        }
        assert(sheet@ =~= base + self.group_lines()(x as int));
    }

    // All that a pile receives in an interval.

    pub open spec fn receives_in(self, pile: StockpileId, i: int) -> bool {
        exists|x: int|
            0 <= x < self.groups().len() && (#[trigger] self.groups()[x]).pile == pile && self.groups()[x].interval == i
    }

    pub open spec fn comes_in(self, y: int, pile: StockpileId, i: int) -> bool {
        self.streams()[y].0.pile == pile && self.streams()[y].0.interval == i
    }

    /// A stream is the first of its source and material in an interval.
    pub open spec fn first_of_kind(self, pile: StockpileId, i: int) -> spec_fn(int) -> bool {
        |y: int|
            self.comes_in(y, pile, i) && !exists|z: int|
                0 <= z < y && #[trigger] self.comes_in(z, pile, i) && self.streams()[z].0.source
                    == self.streams()[y].0.source && self.streams()[z].0.material == self.streams()[y].0.material
    }

    /// The most parcels that a pile receives in an interval.
    pub open spec fn parcel_cap(self, pile: StockpileId, capacity: N, i: int) -> usize {
        added(
            as_count(self.pile_dig_bound(pile, i).lower(capacity).over(self.target()).raised()),
            count_to(self.streams().len(), self.first_of_kind(pile, i)) as usize,
        )
    }

    pub open spec fn cap_line(self, p: int) -> spec_fn(int) -> Seq<Line<N>> {
        |i: int|
            {
                let pile = self.input.stockpiles@[p];
                let cap = self.parcel_cap(pile.id, pile.capacity_t, i);
                let all = self.parcel_terms(
                    ParcelSelector::OfInterval { pile: pile.id, interval: i as usize },
                    ParcelPart::Assigned,
                    one::<N>(),
                );
                if self.receives_in(pile.id, i) && all.len() > cap {
                    seq![at_most_row(all, N::of_whole(cap as u64))]
                } else {
                    Seq::empty()
                }
            }
    }

    pub open spec fn cap_lines(self) -> spec_fn(int) -> Seq<Line<N>> {
        |p: int| flat(self.horizon(), self.cap_line(p))
    }

    fn does_receive(&self, groups: &Vec<Group>, pile: StockpileId, i: usize) -> (r: bool)
        requires
            groups@ == self.groups(),
        ensures
            r == self.receives_in(pile, i as int),
    {
        for x in 0..groups.len()
            invariant
                groups@ == self.groups(),
                forall|q: int|
                    0 <= q < x ==> !((#[trigger] self.groups()[q]).pile == pile && self.groups()[q].interval == i),
        {
            if groups[x].pile == pile && groups[x].interval == i {
                assert(self.groups()[x as int].pile == pile);
                return true;
            }
        }
        false
    }

    fn is_first_of_kind(&self, streams: &Ledger<StreamKey, N>, y: usize, pile: StockpileId, i: usize) -> (r: bool)
        requires
            streams@ == self.streams(),
            y < streams@.len(),
        ensures
            r == self.first_of_kind(pile, i as int)(y as int),
    {
        let key = streams.entries[y].0;
        assert(key == self.streams()[y as int].0);
        if !(key.pile == pile && key.interval == i) {
            return false;
        }
        for z in 0..y
            invariant
                streams@ == self.streams(),
                y < streams@.len(),
                key == self.streams()[y as int].0,
                forall|q: int|
                    0 <= q < z ==> !(#[trigger] self.comes_in(q, pile, i as int) && self.streams()[q].0.source
                        == key.source && self.streams()[q].0.material == key.material),
        {
            let other = streams.entries[z].0;
            assert(other == self.streams()[z as int].0);
            if other.pile == pile && other.interval == i && other.source == key.source && other.material == key.material {
                assert(self.comes_in(z as int, pile, i as int));
                return false;
            }
        }
        true
    }

    fn write_cap(&self, sheet: &mut Sheet<N>, p: usize, i: usize, lists: &Lists<N>)
        requires
            self.listed(*lists),
            p < self.input.stockpiles@.len(),
            i < self.horizon(),
        ensures
            final(sheet)@ == old(sheet)@ + self.cap_line(p as int)(i as int),
    {
        let ghost base = sheet@;
        let pile = &self.input.stockpiles[p];
        if self.does_receive(&lists.groups, pile.id, i) {
            let mut kinds: usize = 0;
            for y in 0..lists.streams.entries.len()
                invariant
                    self.listed(*lists),
                    kinds == count_to(y as nat, self.first_of_kind(pile.id, i as int)),
                    kinds <= y,
            {
                if self.is_first_of_kind(&lists.streams, y, pile.id, i) {
                    kinds = kinds + 1;
                }
            }
            let bound = self.find_pile_dig_bound(pile.id, i).smaller(pile.capacity_t);
            let cap: usize = add_counts(to_count(bound.div(self.input.horizon.parcel_target_t).ceil()), kinds);
            let of = ParcelSelector::OfInterval { pile: pile.id, interval: i };
            let mut all: Vec<(ParcelColumn, N)> = Vec::new();
            self.add_parcels(&mut all, &lists.parcels, of, ParcelPart::Assigned, N::whole(1));
            assert(all@ =~= self.parcel_terms(of, ParcelPart::Assigned, one::<N>()));
            if all.len() > cap {
                sheet.leq(all, N::whole(cap as u64));
            }
        }
        assert(sheet@ =~= base + self.cap_line(p as int)(i as int));
    }

    /// The rows that split what piles receive.
    pub open spec fn receipt_lines(self) -> Seq<Line<N>> {
        flat(self.groups().len(), self.group_lines()) + flat(self.input.stockpiles@.len(), self.cap_lines())
    }

    /// Writes the rows that split what piles receive.
    pub fn write_receipts(&self, sheet: &mut Sheet<N>, lists: &Lists<N>)
        requires
            self.listed(*lists),
        ensures
            final(sheet)@ == old(sheet)@ + self.receipt_lines(),
    {
        let ghost base = sheet@;
        let ghost groups = self.group_lines();
        assert(base + flat(0, groups) =~= base);
        for x in 0..lists.groups.len()
            invariant
                self.listed(*lists),
                groups == self.group_lines(),
                sheet@ == base + flat(x as nat, groups),
        {
            self.write_group(sheet, x, lists);
            assert(sheet@ =~= base + (flat(x as nat, groups) + groups(x as int)));
        }
        let ghost middle = sheet@;
        let ghost caps = self.cap_lines();
        assert(middle + flat(0, caps) =~= middle);
        for p in 0..self.input.stockpiles.len()
            invariant
                self.listed(*lists),
                caps == self.cap_lines(),
                sheet@ == middle + flat(p as nat, caps),
        {
            let ghost inner = sheet@;
            let ghost f = self.cap_line(p as int);
            assert(inner + flat(0, f) =~= inner);
            for i in 0..self.input.intervals.len()
                invariant
                    self.listed(*lists),
                    p < self.input.stockpiles@.len(),
                    f == self.cap_line(p as int),
                    sheet@ == inner + flat(i as nat, f),
            {
                self.write_cap(sheet, p, i, lists);
                assert(sheet@ =~= inner + (flat(i as nat, f) + f(i as int)));
            }
            assert(sheet@ =~= middle + (flat(p as nat, caps) + caps(p as int)));
        }
        assert(sheet@ =~= base + self.receipt_lines());
    }
}

} // verus!
