//! The rows that have piles give up their units in order.
use vstd::prelude::*;

use crate::listing::flat;
use crate::optimisation::ids::ReclaimOrder;
use crate::optimisation::input::{opening_total, total_opening};
use crate::optimisation::parcel::base::{inventory_dust, unit_dust, Parcels};
use crate::optimisation::parcel::columns::{ParcelColumn, ReclaimVariable, UnitKey};
use crate::optimisation::parcel::declare::{Line, Sheet};
use crate::optimisation::parcel::lists::Lists;
use crate::optimisation::parcel::select::{
    is_reclaim_chosen, reclaim_chosen, ParcelPart, ParcelSelector, ReclaimSelector,
};
use crate::optimisation::sheet::{
    at_least_row, at_most_row, equal_row, less_one, nil, one, term, terms_of, terms_of_three,
};
use crate::scalar::Scalar;

verus! {

impl<'a, N: Scalar> Parcels<'a, N> {
    pub open spec fn live_unit(self, p: int, i: int) -> spec_fn(int) -> Seq<UnitKey> {
        |u: int|
            if self.released(self.units(p)[u], i) {
                seq![self.units(p)[u]]
            } else {
                Seq::empty()
            }
    }

    /// The units of a pile that can be reclaimed in an interval, oldest first.
    pub open spec fn live(self, p: int, i: int) -> Seq<UnitKey> {
        if self.reclaimable(self.input.stockpiles@[p].id) {
            flat(self.units(p).len(), self.live_unit(p, i))
        } else {
            Seq::empty()
        }
    }

    /// The units of a pile in the order it gives them up.
    pub open spec fn given_up(self, p: int, i: int) -> Seq<UnitKey> {
        match self.input.stockpiles@[p].order {
            ReclaimOrder::Fifo => self.live(p, i),
            ReclaimOrder::Lifo => self.live(p, i).reverse(),
        }
    }

    pub open spec fn start_terms(self, live: Seq<UnitKey>, i: int, s: int) -> Seq<(ParcelColumn, N)> {
        Seq::new(live.len(), |j: int| (self.unit_start(live[j], i, s), one::<N>()))
    }

    /// A pile is available while its units hold anything.
    pub open spec fn available_lines(self, p: int, i: int, s: int) -> Seq<Line<N>> {
        let pile = self.input.stockpiles@[p];
        let available = self.pile_available(pile.id, i, s);
        let starts = self.start_terms(self.live(p, i), i, s);
        if self.reclaimable(pile.id) {
            seq![
                at_most_row(starts.push((available, pile.capacity_t.opposite())), nil::<N>()),
                at_least_row(starts.push((available, unit_dust(*self.input).opposite())), nil::<N>()),
            ]
        } else {
            Seq::empty()
        }
    }

    /// Both of two flags are set exactly where a third is.
    pub open spec fn both_lines(self, both: ParcelColumn, a: ParcelColumn, b: ParcelColumn) -> Seq<Line<N>> {
        seq![
            at_most_row(seq![(both, one::<N>()), (a, less_one::<N>())], nil::<N>()),
            at_most_row(seq![(both, one::<N>()), (b, less_one::<N>())], nil::<N>()),
            at_least_row(seq![(both, one::<N>()), (a, less_one::<N>()), (b, less_one::<N>())], less_one::<N>()),
        ]
    }

    /// A unit's turn has come where every unit before it is empty.
    pub open spec fn chain_line(self, order: Seq<UnitKey>, end: ParcelColumn, i: int, s: int) -> spec_fn(int) -> Seq<
        Line<N>,
    > {
        |j: int|
            {
                let chain = self.unit_chain(order[j], i, s);
                (if j == 0 {
                    seq![equal_row(seq![(chain, one::<N>())], one::<N>())]
                } else {
                    self.both_lines(chain, self.unit_chain(order[j - 1], i, s), self.unit_empty(order[j - 1], i, s))
                }) + (if j + 1 == order.len() {
                    self.both_lines(end, chain, self.unit_empty(order[j], i, s))
                } else {
                    Seq::empty()
                })
            }
    }

    pub open spec fn chain_lines(self, p: int, i: int, s: int) -> Seq<Line<N>> {
        let order = self.given_up(p, i);
        let end = self.chain_end(self.input.stockpiles@[p].id, i, s);
        flat(order.len(), self.chain_line(order, end, i, s)) + (if order.len() == 0 {
            seq![equal_row(seq![(end, one::<N>())], one::<N>())]
        } else {
            Seq::empty()
        })
    }

    /// The flag that a unit's turn is over: the next unit's has come, or every
    /// unit is empty.
    pub open spec fn next_flag(self, p: int, i: int, s: int, j: int) -> ParcelColumn {
        let live = self.live(p, i);
        let end = self.chain_end(self.input.stockpiles@[p].id, i, s);
        match self.input.stockpiles@[p].order {
            ReclaimOrder::Fifo => if j + 1 < live.len() {
                self.unit_chain(live[j + 1], i, s)
            } else {
                end
            },
            ReclaimOrder::Lifo => if j > 0 {
                self.unit_chain(live[j - 1], i, s)
            } else {
                end
            },
        }
    }

    /// The cell before a cell in which a unit could already be reclaimed.
    pub open spec fn unit_cell_before(self, unit: UnitKey, i: int, s: int) -> Option<(int, int)> {
        if s > 0 {
            Some((i, s - 1))
        } else if i > 0 && self.released(unit, i - 1) {
            Some((i - 1, self.segments(i - 1) - 1))
        } else {
            None
        }
    }

    pub open spec fn of_unit(self, unit: UnitKey, i: int, s: int) -> ReclaimSelector {
        ReclaimSelector::OfUnit { unit, interval: i as usize, segment: s as usize }
    }

    /// A unit is reclaimed only in its turn.
    pub open spec fn turn_line(self, unit: UnitKey, i: int, s: int, next: ParcelColumn, bound: N) -> spec_fn(int) -> Seq<
        Line<N>,
    > {
        |x: int|
            {
                let reclaim = self.reclaims()[x];
                if reclaim_chosen(self.of_unit(unit, i, s), reclaim) {
                    seq![
                        at_most_row(
                            seq![
                                (reclaim.column, one::<N>()),
                                (self.unit_chain(unit, i, s), bound.opposite()),
                                (next, bound),
                            ],
                            nil::<N>(),
                        ),
                    ]
                } else {
                    Seq::empty()
                }
            }
    }

    /// What a unit holds carries over from a cell.
    pub open spec fn carried_line(self, unit: UnitKey, i: int, s: int, from: int, to: int) -> Line<N> {
        equal_row(
            seq![(self.unit_start(unit, i, s), one::<N>()), (self.unit_start(unit, from, to), less_one::<N>())]
                + self.reclaim_terms(self.of_unit(unit, from, to), one::<N>()),
            nil::<N>(),
        )
    }

    /// What a unit holds at the start of a cell.
    pub open spec fn unit_opening(self, p: int, unit: UnitKey, i: int, s: int) -> Line<N> {
        let start = self.unit_start(unit, i, s);
        let before = self.cell_before(i, s);
        match unit {
            UnitKey::Opening { opening, .. } => match before {
                None => equal_row(
                    seq![(start, one::<N>())],
                    self.input.stockpiles@[p].opening@[opening as int].tonnes_t,
                ),
                Some(cell) => self.carried_line(unit, i, s, cell.0, cell.1),
            },
            UnitKey::Receipt { pile, receipt_interval, segment, position } => match before {
                Some(cell) => if i == receipt_interval + 1 && s == 0 {
                    equal_row(
                        seq![(start, one::<N>())] + self.parcel_terms(
                            ParcelSelector::At {
                                pile: self.input.stockpiles@[p].id,
                                interval: receipt_interval,
                                segment,
                                position,
                            },
                            ParcelPart::Quantity,
                            less_one::<N>(),
                        ),
                        nil::<N>(),
                    )
                } else {
                    self.carried_line(unit, i, s, cell.0, cell.1)
                },
                None => equal_row(seq![(start, one::<N>())], nil::<N>()),
            },
        }
    }

    pub open spec fn unit_line(self, p: int, i: int, s: int) -> spec_fn(int) -> Seq<Line<N>> {
        |j: int|
            {
                let unit = self.live(p, i)[j];
                let (start, empty) = (self.unit_start(unit, i, s), self.unit_empty(unit, i, s));
                let bound = self.unit_bound(p, unit);
                let dust = unit_dust(*self.input);
                seq![
                    at_most_row(seq![(start, one::<N>()), (empty, bound)], dust.plus(bound)),
                    at_least_row(seq![(start, one::<N>()), (empty, dust)], dust),
                ] + (match self.unit_cell_before(unit, i, s) {
                    Some(cell) => seq![
                        at_least_row(
                            seq![(empty, one::<N>()), (self.unit_empty(unit, cell.0, cell.1), less_one::<N>())],
                            nil::<N>(),
                        ),
                        at_least_row(
                            seq![
                                (self.unit_chain(unit, i, s), one::<N>()),
                                (self.unit_chain(unit, cell.0, cell.1), less_one::<N>()),
                            ],
                            nil::<N>(),
                        ),
                    ],
                    None => Seq::empty(),
                }) + flat(
                    self.reclaims().len(),
                    self.turn_line(unit, i, s, self.next_flag(p, i, s, j), bound),
                ) + (if i + 1 == self.horizon() && s + 1 == self.segments(i) {
                    seq![
                        at_least_row(
                            seq![(start, one::<N>())] + self.reclaim_terms(self.of_unit(unit, i, s), less_one::<N>()),
                            nil::<N>(),
                        ),
                    ]
                } else {
                    Seq::empty()
                }) + seq![self.unit_opening(p, unit, i, s)]
            }
    }

    /// What is on a pile after a cell.
    pub open spec fn closing_line(self, p: int, i: int, s: int) -> Line<N> {
        let pile = self.input.stockpiles@[p];
        let closing = self.closing(pile.id, i, s);
        let moved = self.parcel_terms(
            ParcelSelector::OfCell { pile: pile.id, interval: i as usize, segment: s as usize },
            ParcelPart::Quantity,
            less_one::<N>(),
        ) + self.reclaim_terms(
            ReclaimSelector::OfPile { pile: pile.id, interval: i as usize, segment: s as usize },
            one::<N>(),
        );
        match self.cell_before(i, s) {
            None => equal_row(seq![(closing, one::<N>())] + moved, opening_total(pile.opening@)),
            Some(cell) => equal_row(
                seq![(closing, one::<N>()), (self.closing(pile.id, cell.0, cell.1), less_one::<N>())] + moved,
                nil::<N>(),
            ),
        }
    }

    pub open spec fn pile_cell_lines(self, p: int, i: int) -> spec_fn(int) -> Seq<Line<N>> {
        |s: int|
            self.available_lines(p, i, s) + self.chain_lines(p, i, s) + flat(
                self.live(p, i).len(),
                self.unit_line(p, i, s),
            ) + seq![self.closing_line(p, i, s)]
    }

    pub open spec fn pile_interval_lines(self, p: int) -> spec_fn(int) -> Seq<Line<N>> {
        |i: int| flat(self.segments(i), self.pile_cell_lines(p, i))
    }

    pub open spec fn pile_lines(self) -> spec_fn(int) -> Seq<Line<N>> {
        |p: int| flat(self.horizon(), self.pile_interval_lines(p))
    }

    fn find_live(&self, units: &Vec<UnitKey>, p: usize, i: usize, reclaimable: bool) -> (r: Vec<UnitKey>)
        requires
            p < self.input.stockpiles@.len(),
            units@ == self.units(p as int),
            forall|x: int| 0 <= x < units@.len() ==> self.unit_stands(p as int, #[trigger] units@[x]),
            reclaimable == self.reclaimable(self.input.stockpiles@[p as int].id),
        ensures
            r@ == self.live(p as int, i as int),
            forall|x: int| 0 <= x < r@.len() ==> self.unit_stands(p as int, #[trigger] r@[x]),
    {
        let mut live: Vec<UnitKey> = Vec::new();
        if reclaimable {
            let ghost f = self.live_unit(p as int, i as int);
            for u in 0..units.len()
                invariant
                    units@ == self.units(p as int),
                    forall|x: int| 0 <= x < units@.len() ==> self.unit_stands(p as int, #[trigger] units@[x]),
                    f == self.live_unit(p as int, i as int),
                    live@ == flat(u as nat, f),
                    forall|x: int| 0 <= x < live@.len() ==> self.unit_stands(p as int, #[trigger] live@[x]),
            {
                if self.is_released(units[u], i) {
                    live.push(units[u]);
                }
                assert(live@ =~= flat(u as nat, f) + f(u as int));
            }
        }
        live
    }

    fn find_given_up(&self, live: &Vec<UnitKey>, p: usize, i: usize) -> (r: Vec<UnitKey>)
        requires
            p < self.input.stockpiles@.len(),
            live@ == self.live(p as int, i as int),
        ensures
            r@ == self.given_up(p as int, i as int),
    {
        match self.input.stockpiles[p].order {
            ReclaimOrder::Fifo => crate::listing::copied(live),
            ReclaimOrder::Lifo => {
                let mut order: Vec<UnitKey> = Vec::new();
                let count: usize = live.len();
                for j in 0..count
                    invariant
                        count == live@.len(),
                        order@ =~= live@.reverse().take(j as int),
                {
                    order.push(live[count - 1 - j]);
                }
                assert(order@ =~= live@.reverse());
                order
            },
        }
    }

    fn write_available(
        &self,
        sheet: &mut Sheet<N>,
        p: usize,
        i: usize,
        s: usize,
        live: &Vec<UnitKey>,
        reclaimable: bool,
    )
        requires
            p < self.input.stockpiles@.len(),
            live@ == self.live(p as int, i as int),
            reclaimable == self.reclaimable(self.input.stockpiles@[p as int].id),
        ensures
            final(sheet)@ == old(sheet)@ + self.available_lines(p as int, i as int, s as int),
    {
        let ghost base = sheet@;
        if reclaimable {
            let pile = &self.input.stockpiles[p];
            let available = ParcelColumn::PileAvailable { pile: pile.id, interval: i, segment: s };
            let ghost all = self.start_terms(live@, i as int, s as int);
            let mut upper: Vec<(ParcelColumn, N)> = Vec::new();
            for j in 0..live.len()
                invariant
                    all == self.start_terms(live@, i as int, s as int),
                    upper@ =~= all.take(j as int),
            {
                upper.push((ParcelColumn::UnitStart { unit: live[j], interval: i, segment: s }, N::whole(1)));
            }
            assert(upper@ =~= all);
            let mut lower = crate::listing::copied(&upper);
            upper.push((available, pile.capacity_t.neg()));
            lower.push((available, inventory_dust(self.input).neg()));
            sheet.leq(upper, N::whole(0));
            sheet.geq(lower, N::whole(0));
        }
        assert(sheet@ =~= base + self.available_lines(p as int, i as int, s as int));
    }

    fn write_both(&self, sheet: &mut Sheet<N>, both: ParcelColumn, a: ParcelColumn, b: ParcelColumn)
        ensures
            final(sheet)@ == old(sheet)@ + self.both_lines(both, a, b),
    {
        let ghost base = sheet@;
        sheet.leq(terms_of(both, N::whole(1), a, N::whole(1).neg()), N::whole(0));
        sheet.leq(terms_of(both, N::whole(1), b, N::whole(1).neg()), N::whole(0));
        sheet.geq(
            terms_of_three(both, N::whole(1), a, N::whole(1).neg(), b, N::whole(1).neg()),
            N::whole(1).neg(),
        );
        assert(sheet@ =~= base + self.both_lines(both, a, b));
    }

    fn write_chain(&self, sheet: &mut Sheet<N>, p: usize, i: usize, s: usize, order: &Vec<UnitKey>)
        requires
            p < self.input.stockpiles@.len(),
            order@ == self.given_up(p as int, i as int),
        ensures
            final(sheet)@ == old(sheet)@ + self.chain_lines(p as int, i as int, s as int),
    {
        let ghost base = sheet@;
        let end = ParcelColumn::ChainEnd { pile: self.input.stockpiles[p].id, interval: i, segment: s };
        let ghost f = self.chain_line(order@, end, i as int, s as int);
        let count: usize = order.len();
        assert(base + flat(0, f) =~= base);
        for j in 0..count
            invariant
                count == order@.len(),
                f == self.chain_line(order@, end, i as int, s as int),
                sheet@ == base + flat(j as nat, f),
        {
            let chain = ParcelColumn::UnitChain { unit: order[j], interval: i, segment: s };
            if j == 0 {
                sheet.eq(term(chain, N::whole(1)), N::whole(1));
            } else {
                let ahead = order[j - 1];
                self.write_both(
                    sheet,
                    chain,
                    ParcelColumn::UnitChain { unit: ahead, interval: i, segment: s },
                    ParcelColumn::UnitEmpty { unit: ahead, interval: i, segment: s },
                );
            }
            if count - j == 1 {
                self.write_both(
                    sheet,
                    end,
                    chain,
                    ParcelColumn::UnitEmpty { unit: order[j], interval: i, segment: s },
                );
            }
            assert(sheet@ =~= base + (flat(j as nat, f) + f(j as int)));
        }
        if count == 0 {
            sheet.eq(term(end, N::whole(1)), N::whole(1));
        }
        assert(sheet@ =~= base + self.chain_lines(p as int, i as int, s as int));
    }

    fn find_next_flag(&self, p: usize, i: usize, s: usize, j: usize, live: &Vec<UnitKey>) -> (r: ParcelColumn)
        requires
            p < self.input.stockpiles@.len(),
            live@ == self.live(p as int, i as int),
            j < live@.len(),
        ensures
            r == self.next_flag(p as int, i as int, s as int, j as int),
    {
        let end = ParcelColumn::ChainEnd { pile: self.input.stockpiles[p].id, interval: i, segment: s };
        let count: usize = live.len();
        match self.input.stockpiles[p].order {
            ReclaimOrder::Fifo => if count - j > 1 {
                ParcelColumn::UnitChain { unit: live[j + 1], interval: i, segment: s }
            } else {
                end
            },
            ReclaimOrder::Lifo => if j > 0 {
                ParcelColumn::UnitChain { unit: live[j - 1], interval: i, segment: s }
            } else {
                end
            },
        }
    }

    fn find_unit_cell_before(&self, unit: UnitKey, i: usize, s: usize) -> (r: Option<(usize, usize)>)
        requires
            self.ready(),
            i < self.horizon(),
            s < self.segments(i as int),
        ensures
            match r {
                Some(cell) => self.unit_cell_before(unit, i as int, s as int) == Some((cell.0 as int, cell.1 as int)),
                None => self.unit_cell_before(unit, i as int, s as int) is None,
            },
    {
        if s > 0 {
            Some((i, s - 1))
        } else if i > 0 && self.is_released(unit, i - 1) {
            Some((i - 1, self.budgets[i - 1] - 1))
        } else {
            None
        }
    }

    fn write_turns(
        &self,
        sheet: &mut Sheet<N>,
        unit: UnitKey,
        i: usize,
        s: usize,
        next: ParcelColumn,
        bound: N,
        reclaims: &Vec<ReclaimVariable<N>>,
    )
        requires
            reclaims@ == self.reclaims(),
        ensures
            final(sheet)@ == old(sheet)@ + flat(
                self.reclaims().len(),
                self.turn_line(unit, i as int, s as int, next, bound),
            ),
    {
        let ghost base = sheet@;
        let ghost f = self.turn_line(unit, i as int, s as int, next, bound);
        let sel = ReclaimSelector::OfUnit { unit, interval: i, segment: s };
        let chain = ParcelColumn::UnitChain { unit, interval: i, segment: s };
        assert(base + flat(0, f) =~= base);
        for x in 0..reclaims.len()
            invariant
                reclaims@ == self.reclaims(),
                sel == self.of_unit(unit, i as int, s as int),
                chain == self.unit_chain(unit, i as int, s as int),
                f == self.turn_line(unit, i as int, s as int, next, bound),
                sheet@ == base + flat(x as nat, f),
        {
            if is_reclaim_chosen(sel, &reclaims[x]) {
                sheet.leq(
                    terms_of_three(reclaims[x].column, N::whole(1), chain, bound.neg(), next, bound),
                    N::whole(0),
                );
            }
            assert(sheet@ =~= base + (flat(x as nat, f) + f(x as int)));
        }
    }

    fn write_carried(&self, sheet: &mut Sheet<N>, unit: UnitKey, i: usize, s: usize, cell: (usize, usize), lists: &Lists<N>)
        requires
            self.listed(*lists),
        ensures
            final(sheet)@ == old(sheet)@.push(
                self.carried_line(unit, i as int, s as int, cell.0 as int, cell.1 as int),
            ),
    {
        let start = ParcelColumn::UnitStart { unit, interval: i, segment: s };
        let before = ParcelColumn::UnitStart { unit, interval: cell.0, segment: cell.1 };
        let mut terms = terms_of(start, N::whole(1), before, N::whole(1).neg());
        let sel = ReclaimSelector::OfUnit { unit, interval: cell.0, segment: cell.1 };
        self.add_reclaims(&mut terms, &lists.reclaims, sel, N::whole(1));
        sheet.eq(terms, N::whole(0));
    }

    fn write_unit_opening(&self, sheet: &mut Sheet<N>, p: usize, unit: UnitKey, i: usize, s: usize, lists: &Lists<N>)
        requires
            self.ready(),
            self.listed(*lists),
            p < self.input.stockpiles@.len(),
            self.unit_stands(p as int, unit),
            i < self.horizon(),
            s < self.segments(i as int),
        ensures
            final(sheet)@ == old(sheet)@.push(self.unit_opening(p as int, unit, i as int, s as int)),
    {
        let start = ParcelColumn::UnitStart { unit, interval: i, segment: s };
        let pile = &self.input.stockpiles[p];
        match self.find_cell_before(i, s) {
            Some(cell) => match unit {
                UnitKey::Opening { .. } => {
                    self.write_carried(sheet, unit, i, s, cell, lists);
                },
                UnitKey::Receipt { pile: _, receipt_interval, segment, position } => {
                    if i > 0 && i - 1 == receipt_interval && s == 0 {
                        let sel = ParcelSelector::At { pile: pile.id, interval: receipt_interval, segment, position };
                        let mut terms = term(start, N::whole(1));
                        self.add_parcels(
                            &mut terms,
                            &lists.parcels,
                            sel,
                            ParcelPart::Quantity,
                            N::whole(1).neg(),
                        );
                        sheet.eq(terms, N::whole(0));
                    } else {
                        self.write_carried(sheet, unit, i, s, cell, lists);
                    }
                },
            },
            None => match unit {
                UnitKey::Opening { pile: _, opening } => {
                    sheet.eq(term(start, N::whole(1)), pile.opening[opening].tonnes_t);
                },
                UnitKey::Receipt { .. } => {
                    sheet.eq(term(start, N::whole(1)), N::whole(0));
                },
            },
        }
    }

    fn write_unit(
        &self,
        sheet: &mut Sheet<N>,
        p: usize,
        i: usize,
        s: usize,
        j: usize,
        live: &Vec<UnitKey>,
        lists: &Lists<N>,
    )
        requires
            self.ready(),
            self.listed(*lists),
            p < self.input.stockpiles@.len(),
            i < self.horizon(),
            s < self.segments(i as int),
            live@ == self.live(p as int, i as int),
            j < live@.len(),
            self.unit_stands(p as int, live@[j as int]),
        ensures
            final(sheet)@ == old(sheet)@ + self.unit_line(p as int, i as int, s as int)(j as int),
    {
        let ghost base = sheet@;
        let unit = live[j];
        let start = ParcelColumn::UnitStart { unit, interval: i, segment: s };
        let empty = ParcelColumn::UnitEmpty { unit, interval: i, segment: s };
        let chain = ParcelColumn::UnitChain { unit, interval: i, segment: s };
        let bound = self.find_unit_bound(p, unit);
        let dust = inventory_dust(self.input);
        sheet.leq(terms_of(start, N::whole(1), empty, bound), dust.add(bound));
        sheet.geq(terms_of(start, N::whole(1), empty, dust), dust);
        if let Some(cell) = self.find_unit_cell_before(unit, i, s) {
            let was_empty = ParcelColumn::UnitEmpty { unit, interval: cell.0, segment: cell.1 };
            let was_chain = ParcelColumn::UnitChain { unit, interval: cell.0, segment: cell.1 };
            sheet.geq(terms_of(empty, N::whole(1), was_empty, N::whole(1).neg()), N::whole(0));
            sheet.geq(terms_of(chain, N::whole(1), was_chain, N::whole(1).neg()), N::whole(0));
        }
        let next = self.find_next_flag(p, i, s, j, live);
        self.write_turns(sheet, unit, i, s, next, bound, &lists.reclaims);
        if self.input.intervals.len() - i == 1 && self.budgets[i] - s == 1 {
            let mut terms = term(start, N::whole(1));
            let sel = ReclaimSelector::OfUnit { unit, interval: i, segment: s };
            self.add_reclaims(&mut terms, &lists.reclaims, sel, N::whole(1).neg());
            sheet.geq(terms, N::whole(0));
        }
        self.write_unit_opening(sheet, p, unit, i, s, lists);
        assert(sheet@ =~= base + self.unit_line(p as int, i as int, s as int)(j as int));
    }

    fn write_closing(&self, sheet: &mut Sheet<N>, p: usize, i: usize, s: usize, lists: &Lists<N>)
        requires
            self.ready(),
            self.listed(*lists),
            p < self.input.stockpiles@.len(),
            i < self.horizon(),
            s < self.segments(i as int),
        ensures
            final(sheet)@ == old(sheet)@.push(self.closing_line(p as int, i as int, s as int)),
    {
        let pile = &self.input.stockpiles[p];
        let closing = ParcelColumn::PileClosing { pile: pile.id, interval: i, segment: s };
        let received = ParcelSelector::OfCell { pile: pile.id, interval: i, segment: s };
        let reclaimed = ReclaimSelector::OfPile { pile: pile.id, interval: i, segment: s };
        let before = self.find_cell_before(i, s);
        let mut terms = match before {
            None => term(closing, N::whole(1)),
            Some(cell) => terms_of(
                closing,
                N::whole(1),
                ParcelColumn::PileClosing { pile: pile.id, interval: cell.0, segment: cell.1 },
                N::whole(1).neg(),
            ),
        };
        let ghost start = terms@;
        self.add_parcels(&mut terms, &lists.parcels, received, ParcelPart::Quantity, N::whole(1).neg());
        self.add_reclaims(&mut terms, &lists.reclaims, reclaimed, N::whole(1));
        assert(terms@ =~= start + (self.parcel_terms(received, ParcelPart::Quantity, less_one::<N>())
            + self.reclaim_terms(reclaimed, one::<N>())));
        match before {
            None => {
                sheet.eq(terms, total_opening(&pile.opening));
            },
            Some(_) => {
                sheet.eq(terms, N::whole(0));
            },
        }
    }

    fn write_pile_cell(
        &self,
        sheet: &mut Sheet<N>,
        p: usize,
        i: usize,
        s: usize,
        live: &Vec<UnitKey>,
        reclaimable: bool,
        lists: &Lists<N>,
    )
        requires
            self.ready(),
            self.listed(*lists),
            p < self.input.stockpiles@.len(),
            i < self.horizon(),
            s < self.segments(i as int),
            live@ == self.live(p as int, i as int),
            forall|x: int| 0 <= x < live@.len() ==> self.unit_stands(p as int, #[trigger] live@[x]),
            reclaimable == self.reclaimable(self.input.stockpiles@[p as int].id),
        ensures
            final(sheet)@ == old(sheet)@ + self.pile_cell_lines(p as int, i as int)(s as int),
    {
        let ghost base = sheet@;
        self.write_available(sheet, p, i, s, live, reclaimable);
        let order = self.find_given_up(live, p, i);
        self.write_chain(sheet, p, i, s, &order);
        let ghost inner = sheet@;
        let ghost f = self.unit_line(p as int, i as int, s as int);
        assert(inner + flat(0, f) =~= inner);
        for j in 0..live.len()
            invariant
                self.ready(),
                self.listed(*lists),
                p < self.input.stockpiles@.len(),
                i < self.horizon(),
                s < self.segments(i as int),
                live@ == self.live(p as int, i as int),
                forall|x: int| 0 <= x < live@.len() ==> self.unit_stands(p as int, #[trigger] live@[x]),
                f == self.unit_line(p as int, i as int, s as int),
                sheet@ == inner + flat(j as nat, f),
        {
            self.write_unit(sheet, p, i, s, j, live, lists);
            assert(sheet@ =~= inner + (flat(j as nat, f) + f(j as int)));
        }
        self.write_closing(sheet, p, i, s, lists);
        assert(sheet@ =~= base + self.pile_cell_lines(p as int, i as int)(s as int));
    }

    fn write_pile(&self, sheet: &mut Sheet<N>, p: usize, lists: &Lists<N>)
        requires
            self.ready(),
            self.listed(*lists),
            p < self.input.stockpiles@.len(),
        ensures
            final(sheet)@ == old(sheet)@ + self.pile_lines()(p as int),
    {
        let units = self.find_units(&lists.groups, p);
        let reclaimable: bool = self.is_reclaimable(&lists.reclaims, self.input.stockpiles[p].id);
        let ghost base = sheet@;
        let ghost each = self.pile_interval_lines(p as int);
        assert(base + flat(0, each) =~= base);
        for i in 0..self.input.intervals.len()
            invariant
                self.ready(),
                self.listed(*lists),
                p < self.input.stockpiles@.len(),
                units@ == self.units(p as int),
                forall|x: int| 0 <= x < units@.len() ==> self.unit_stands(p as int, #[trigger] units@[x]),
                reclaimable == self.reclaimable(self.input.stockpiles@[p as int].id),
                each == self.pile_interval_lines(p as int),
                sheet@ == base + flat(i as nat, each),
        {
            let live = self.find_live(&units, p, i, reclaimable);
            let segments: usize = self.budgets[i];
            let ghost inner = sheet@;
            let ghost f = self.pile_cell_lines(p as int, i as int);
            assert(inner + flat(0, f) =~= inner);
            for s in 0..segments
                invariant
                    self.ready(),
                    self.listed(*lists),
                    p < self.input.stockpiles@.len(),
                    i < self.horizon(),
                    segments == self.segments(i as int),
                    live@ == self.live(p as int, i as int),
                    forall|x: int| 0 <= x < live@.len() ==> self.unit_stands(p as int, #[trigger] live@[x]),
                    reclaimable == self.reclaimable(self.input.stockpiles@[p as int].id),
                    f == self.pile_cell_lines(p as int, i as int),
                    sheet@ == inner + flat(s as nat, f),
            {
                self.write_pile_cell(sheet, p, i, s, &live, reclaimable, lists);
                assert(sheet@ =~= inner + (flat(s as nat, f) + f(s as int)));
            }
            assert(sheet@ =~= base + (flat(i as nat, each) + each(i as int)));
        }
    }

    /// Writes the rows of every pile.
    pub fn write_piles(&self, sheet: &mut Sheet<N>, lists: &Lists<N>)
        requires
            self.ready(),
            self.listed(*lists),
        ensures
            final(sheet)@ == old(sheet)@ + flat(self.input.stockpiles@.len(), self.pile_lines()),
    {
        let ghost base = sheet@;
        let ghost all = self.pile_lines();
        assert(base + flat(0, all) =~= base);
        for p in 0..self.input.stockpiles.len()
            invariant
                self.ready(),
                self.listed(*lists),
                all == self.pile_lines(),
                sheet@ == base + flat(p as nat, all),
        {
            self.write_pile(sheet, p, lists);
            assert(sheet@ =~= base + (flat(p as nat, all) + all(p as int)));
        }
    }
}

} // verus!
