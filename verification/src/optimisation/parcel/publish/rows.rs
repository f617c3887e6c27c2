//! Digging and reclaiming, as published.
use vstd::prelude::*;

use crate::ledger::{held_under, put_under, raised_by, Ledger, Pair};
use crate::listing::{arrange, arranged, find_key, flat, folded, keyed, said, said_of_two};
use crate::optimisation::blended::report::{bump, one_more};
use crate::optimisation::ids::{Activity, GroundId, LotId, SourceId, StockpileId};
use crate::optimisation::parcel::base::{dust, find_dust, inventory_dust, unit_dust, Parcels};
use crate::optimisation::parcel::columns::{is_source_before, source_before, ReclaimVariable, UnitKey};
use crate::optimisation::parcel::lists::Lists;
use crate::optimisation::parcel::publish::receipts::{every, take_in, taken_in, PositionKey, Reading};
use crate::optimisation::result::{ActivityRecord, HeldUnit, InventoryUnit, ReceiptParcel, ReclaimRecord};
use crate::scalar::Scalar;

verus! {

/// How many rows were moved, by how much at most and in all.
#[derive(Clone, Copy, Debug)]
pub struct Shifts<N> {
    pub count: usize,
    pub most: N,
    pub total: N,
}

pub open spec fn no_shifts<N: Scalar>() -> Shifts<N> {
    Shifts { count: 0, most: N::of_whole(0), total: N::of_whole(0) }
}

pub open spec fn shifted<N: Scalar>(shifts: Shifts<N>, by: N) -> Shifts<N> {
    Shifts { count: one_more(shifts.count), most: shifts.most.upper(by), total: shifts.total.plus(by) }
}

impl<N: Scalar> Shifts<N> {
    /// No row moved yet.
    pub fn none() -> (r: Self)
        ensures
            r == no_shifts::<N>(),
    {
        Shifts { count: 0, most: N::whole(0), total: N::whole(0) }
    }

    /// Records a move.
    pub fn shift(&mut self, by: N)
        ensures
            *final(self) == shifted(*old(self), by),
    {
        self.count = bump(self.count);
        self.most = self.most.larger(by);
        self.total = self.total.add(by);
    }
}

/// By interval, segment, loader and task.
pub open spec fn work_before(
    a: (usize, usize, u32, u32),
    b: (usize, usize, u32, u32),
) -> bool {
    a.0 < b.0 || (a.0 == b.0 && (a.1 < b.1 || (a.1 == b.1 && (a.2 < b.2 || (a.2 == b.2 && a.3 < b.3)))))
}

fn is_work_before(a: (usize, usize, u32, u32), b: (usize, usize, u32, u32)) -> (r: bool)
    ensures
        r == work_before(a, b),
{
    a.0 < b.0 || (a.0 == b.0 && (a.1 < b.1 || (a.1 == b.1 && (a.2 < b.2 || (a.2 == b.2 && a.3 < b.3)))))
}

pub open spec fn activity_key<N>(row: ActivityRecord<N>) -> (usize, usize, u32, u32) {
    (row.interval, row.segment, row.loader.0, row.task.0)
}

pub open spec fn reclaim_key<N>(row: ReclaimRecord<N>) -> (usize, usize, u32, u32) {
    (row.interval, row.segment, row.loader.0, row.task.0)
}

pub open spec fn activities_before<N>(rows: Seq<ActivityRecord<N>>) -> spec_fn(int, int) -> bool {
    |a: int, b: int| work_before(activity_key(rows[a]), activity_key(rows[b]))
}

pub open spec fn reclaims_before<N>(rows: Seq<ReclaimRecord<N>>) -> spec_fn(int, int) -> bool {
    |a: int, b: int| work_before(reclaim_key(rows[a]), reclaim_key(rows[b]))
}

/// By work, then by source.
pub open spec fn listed_before<N>(a: ActivityRecord<N>, b: ActivityRecord<N>) -> bool {
    work_before(activity_key(a), activity_key(b)) || (activity_key(a) == activity_key(b) && source_before(
        a.source,
        b.source,
    ))
}

pub open spec fn rows_before<N>(rows: Seq<ActivityRecord<N>>) -> spec_fn(int, int) -> bool {
    |a: int, b: int| listed_before(rows[a], rows[b])
}

pub open spec fn activities_sorted<N>(rows: Seq<ActivityRecord<N>>) -> Seq<ActivityRecord<N>> {
    taken_in(rows, arranged(rows.len(), every(), activities_before(rows)))
}

pub open spec fn reclaims_sorted<N>(rows: Seq<ReclaimRecord<N>>) -> Seq<ReclaimRecord<N>> {
    taken_in(rows, arranged(rows.len(), every(), reclaims_before(rows)))
}

pub open spec fn rows_sorted<N>(rows: Seq<ActivityRecord<N>>) -> Seq<ActivityRecord<N>> {
    taken_in(rows, arranged(rows.len(), every(), rows_before(rows)))
}

fn sort_activities<N: Scalar>(rows: &Vec<ActivityRecord<N>>) -> (r: Vec<ActivityRecord<N>>)
    ensures
        r@ == activities_sorted(rows@),
{
    let order = arrange(
        rows.len(),
        |i: usize| -> (b: bool)
            ensures
                b == said(every(), i)
            { true },
        |i: usize, j: usize| -> (b: bool)
            requires
                rows@.len() > i,
                rows@.len() > j,
            ensures
                b == said_of_two(activities_before(rows@), i, j)
            {
                is_work_before(
                    (rows[i].interval, rows[i].segment, rows[i].loader.0, rows[i].task.0),
                    (rows[j].interval, rows[j].segment, rows[j].loader.0, rows[j].task.0),
                )
            },
        Ghost(every()),
        Ghost(activities_before(rows@)),
    );
    take_in(rows, &order)
}

fn sort_reclaims<N: Scalar>(rows: &Vec<ReclaimRecord<N>>) -> (r: Vec<ReclaimRecord<N>>)
    ensures
        r@ == reclaims_sorted(rows@),
{
    let order = arrange(
        rows.len(),
        |i: usize| -> (b: bool)
            ensures
                b == said(every(), i)
            { true },
        |i: usize, j: usize| -> (b: bool)
            requires
                rows@.len() > i,
                rows@.len() > j,
            ensures
                b == said_of_two(reclaims_before(rows@), i, j)
            {
                is_work_before(
                    (rows[i].interval, rows[i].segment, rows[i].loader.0, rows[i].task.0),
                    (rows[j].interval, rows[j].segment, rows[j].loader.0, rows[j].task.0),
                )
            },
        Ghost(every()),
        Ghost(reclaims_before(rows@)),
    );
    take_in(rows, &order)
}

fn is_listed_before<N>(a: &ActivityRecord<N>, b: &ActivityRecord<N>) -> (r: bool)
    ensures
        r == listed_before(*a, *b),
{
    let left = (a.interval, a.segment, a.loader.0, a.task.0);
    let right = (b.interval, b.segment, b.loader.0, b.task.0);
    is_work_before(left, right) || (a.interval == b.interval && a.segment == b.segment && a.loader == b.loader && a.task
        == b.task && is_source_before(a.source, b.source))
}

fn sort_rows<N: Scalar>(rows: &Vec<ActivityRecord<N>>) -> (r: Vec<ActivityRecord<N>>)
    ensures
        r@ == rows_sorted(rows@),
{
    let order = arrange(
        rows.len(),
        |i: usize| -> (b: bool)
            ensures
                b == said(every(), i)
            { true },
        |i: usize, j: usize| -> (b: bool)
            requires
                rows@.len() > i,
                rows@.len() > j,
            ensures
                b == said_of_two(rows_before(rows@), i, j)
            { is_listed_before(&rows[i], &rows[j]) },
        Ghost(every()),
        Ghost(rows_before(rows@)),
    );
    take_in(rows, &order)
}

/// Digging while it is fitted to what blocks hold.
pub struct DigBooks<N> {
    pub rows: Seq<ActivityRecord<N>>,
    pub balance: Seq<(GroundId, N)>,
    pub shifts: Shifts<N>,
}

/// Reclaiming while it is fitted to what units hold.
pub struct ReclaimBooks<N> {
    pub rows: Seq<ReclaimRecord<N>>,
    pub balance: Seq<(HeldUnit, N)>,
    pub shifts: Shifts<N>,
}

/// Reclaiming while it is read off.
pub struct DrawBooks<N> {
    pub rows: Seq<ReclaimRecord<N>>,
    pub shifts: Shifts<N>,
}

impl<'a, N: Scalar> Parcels<'a, N> {
    // Digging.

    pub open spec fn dig_row(self, reading: Reading<N>) -> spec_fn(int) -> Seq<ActivityRecord<N>> {
        |x: int|
            {
                let dig = self.digs()[x];
                let task = self.task(dig.task as int);
                if self.negligible().below(reading.digs@[x]) {
                    seq![
                        ActivityRecord {
                            interval: dig.interval,
                            segment: dig.segment,
                            loader: task.loader,
                            task: task.id,
                            activity: Activity::Dig,
                            source: SourceId::Ground(dig.source),
                            tonnes_t: reading.digs@[x],
                        },
                    ]
                } else {
                    Seq::empty()
                }
            }
    }

    /// Digging as it was read.
    pub open spec fn dig_rows(self, reading: Reading<N>) -> Seq<ActivityRecord<N>> {
        activities_sorted(flat(self.digs().len(), self.dig_row(reading)))
    }

    pub open spec fn block_step(self) -> spec_fn(Seq<(GroundId, N)>, int) -> Seq<(GroundId, N)> {
        |held: Seq<(GroundId, N)>, g: int| put_under(held, self.input.ground@[g].id, self.input.ground@[g].tonnes_t)
    }

    /// What every block holds.
    pub open spec fn block_balance(self) -> Seq<(GroundId, N)> {
        folded(self.input.ground@.len(), Seq::empty(), self.block_step())
    }

    /// A row that leaves next to nothing takes all that is left.
    pub open spec fn dig_step(self, rows: Seq<ActivityRecord<N>>) -> spec_fn(DigBooks<N>, int) -> DigBooks<N> {
        |books: DigBooks<N>, j: int|
            {
                let row = rows[j];
                match row.source {
                    SourceId::Ground(ground) => match held_under(books.balance, ground) {
                        Some(left) => {
                            let fills = left.at_most(
                                row.tonnes_t.plus(N::of_whole(3).times(dust(*self.input))),
                            );
                            let tonnes = if fills {
                                left.upper(N::of_whole(0))
                            } else {
                                row.tonnes_t
                            };
                            let by = row.tonnes_t.minus(tonnes).magnitude();
                            DigBooks {
                                rows: books.rows.push(ActivityRecord { tonnes_t: tonnes, ..row }),
                                balance: put_under(books.balance, ground, left.minus(tonnes)),
                                shifts: if fills && N::of_whole(0).below(by) {
                                    shifted(books.shifts, by)
                                } else {
                                    books.shifts
                                },
                            }
                        },
                        None => DigBooks { rows: books.rows.push(row), ..books },
                    },
                    SourceId::Stockpile(_) => DigBooks { rows: books.rows.push(row), ..books },
                }
            }
    }

    pub open spec fn dig_books(self, reading: Reading<N>) -> DigBooks<N> {
        let rows = self.dig_rows(reading);
        folded(
            rows.len(),
            DigBooks { rows: Seq::empty(), balance: self.block_balance(), shifts: no_shifts() },
            self.dig_step(rows),
        )
    }

    pub open spec fn kept_row(self, rows: Seq<ActivityRecord<N>>) -> spec_fn(int) -> Seq<ActivityRecord<N>> {
        |j: int|
            if self.negligible().below(rows[j].tonnes_t) {
                seq![rows[j]]
            } else {
                Seq::empty()
            }
    }

    /// Digging as published.
    pub open spec fn published_digs(self, reading: Reading<N>) -> Seq<ActivityRecord<N>> {
        let rows = self.dig_books(reading).rows;
        flat(rows.len(), self.kept_row(rows))
    }

    fn read_digs(&self, lists: &Lists<N>, reading: &Reading<N>) -> (rows: Vec<ActivityRecord<N>>)
        requires
            self.listed(*lists),
            self.read(*reading),
        ensures
            rows@ == self.dig_rows(*reading),
    {
        let least = self.find_negligible();
        let mut rows: Vec<ActivityRecord<N>> = Vec::new();
        let ghost f = self.dig_row(*reading);
        for x in 0..lists.digs.len()
            invariant
                self.listed(*lists),
                self.read(*reading),
                least == self.negligible(),
                f == self.dig_row(*reading),
                rows@ == flat(x as nat, f),
        {
            let dig = lists.digs[x];
            if least.is_below(reading.digs[x]) {
                let task = &self.input.tasks[dig.task];
                rows.push(
                    ActivityRecord {
                        interval: dig.interval,
                        segment: dig.segment,
                        loader: task.loader,
                        task: task.id,
                        activity: Activity::Dig,
                        source: SourceId::Ground(dig.source),
                        tonnes_t: reading.digs[x],
                    },
                );
            }
            assert(rows@ =~= flat(x as nat, f) + f(x as int));
        }
        sort_activities(&rows)
    }

    fn open_blocks(&self) -> (held: Ledger<GroundId, N>)
        ensures
            held@ == self.block_balance(),
    {
        let mut held: Ledger<GroundId, N> = Ledger::new();
        let ghost step = self.block_step();
        for g in 0..self.input.ground.len()
            invariant
                step == self.block_step(),
                held@ == folded(g as nat, Seq::empty(), step),
        {
            held.put(self.input.ground[g].id, self.input.ground[g].tonnes_t);
        }
        held
    }

    /// Publishes digging: gives the rows and how far they were moved.
    pub fn publish_digs(&self, lists: &Lists<N>, reading: &Reading<N>) -> (r: (Vec<ActivityRecord<N>>, Shifts<N>))
        requires
            self.listed(*lists),
            self.read(*reading),
        ensures
            r.0@ == self.published_digs(*reading),
            r.1 == self.dig_books(*reading).shifts,
    {
        let sorted = self.read_digs(lists, reading);
        let mut balance = self.open_blocks();
        let mut shifts: Shifts<N> = Shifts::none();
        let mut rows: Vec<ActivityRecord<N>> = Vec::new();
        let slack = N::whole(3).mul(find_dust(self.input));
        let ghost blank = DigBooks::<N> { rows: Seq::empty(), balance: self.block_balance(), shifts: no_shifts() };
        let ghost step = self.dig_step(sorted@);
        for j in 0..sorted.len()
            invariant
                slack == N::of_whole(3).times(dust(*self.input)),
                step == self.dig_step(sorted@),
                ({
                    let books = folded(j as nat, blank, step);
                    &&& rows@ == books.rows
                    &&& balance@ == books.balance
                    &&& shifts == books.shifts
                }),
        {
            let mut row = sorted[j];
            if let SourceId::Ground(ground) = row.source {
                if let Some(left) = balance.get(ground) {
                    if left.is_at_most(row.tonnes_t.add(slack)) {
                        let snapped = left.larger(N::whole(0));
                        let by = row.tonnes_t.sub(snapped).abs();
                        if N::whole(0).is_below(by) {
                            shifts.shift(by);
                        }
                        row.tonnes_t = snapped;
                    }
                    balance.put(ground, left.sub(row.tonnes_t));
                }
            }
            rows.push(row);
        }
        let least = self.find_negligible();
        let mut kept: Vec<ActivityRecord<N>> = Vec::new();
        let ghost f = self.kept_row(rows@);
        for j in 0..rows.len()
            invariant
                least == self.negligible(),
                f == self.kept_row(rows@),
                kept@ == flat(j as nat, f),
        {
            if least.is_below(rows[j].tonnes_t) {
                kept.push(rows[j]);
            }
            assert(kept@ =~= flat(j as nat, f) + f(j as int));
        }
        (kept, shifts)
    }

    // Reclaiming.

    /// The lot at a place of a pile.
    pub open spec fn lot_at(self, pile: StockpileId, opening: usize) -> Option<LotId> {
        match keyed(self.input.stockpiles@, pile.0) {
            Some(p) => if opening < self.input.stockpiles@[p].opening@.len() {
                Some(self.input.stockpiles@[p].opening@[opening as int].id)
            } else {
                None
            },
            None => None,
        }
    }

    /// A unit as published, where it is.
    pub open spec fn published_unit(self, reclaim: ReclaimVariable<N>, table: Seq<(PositionKey, usize)>) -> Option<
        InventoryUnit,
    > {
        match reclaim.unit {
            UnitKey::Opening { pile, opening } => match self.lot_at(reclaim.source, opening) {
                Some(lot) => Some(InventoryUnit::Opening(lot)),
                None => None,
            },
            UnitKey::Receipt { pile, receipt_interval, segment, position } => match held_under(
                table,
                Pair(reclaim.source, Pair(receipt_interval, Pair(segment, position))),
            ) {
                Some(published) => Some(
                    InventoryUnit::Receipt { interval: receipt_interval, segment, position: published },
                ),
                None => None,
            },
        }
    }

    pub open spec fn draw_step(self, reading: Reading<N>, table: Seq<(PositionKey, usize)>) -> spec_fn(
        DrawBooks<N>,
        int,
    ) -> DrawBooks<N> {
        |books: DrawBooks<N>, x: int|
            {
                let reclaim = self.reclaims()[x];
                let tonnes = reading.reclaims@[x];
                let task = self.task(reclaim.task as int);
                if reclaim.share != 0 || tonnes.at_most(N::of_whole(0)) {
                    books
                } else {
                    match self.published_unit(reclaim, table) {
                        Some(unit) => DrawBooks {
                            rows: books.rows.push(
                                ReclaimRecord {
                                    interval: reclaim.interval,
                                    segment: reclaim.segment,
                                    loader: task.loader,
                                    task: task.id,
                                    stockpile: reclaim.source,
                                    unit,
                                    tonnes_t: tonnes,
                                },
                            ),
                            ..books
                        },
                        None => DrawBooks { shifts: shifted(books.shifts, tonnes), ..books },
                    }
                }
            }
    }

    /// Reclaiming as it was read; what comes from a unit that is not published
    /// is dropped.
    pub open spec fn draws(self, reading: Reading<N>, table: Seq<(PositionKey, usize)>) -> DrawBooks<N> {
        folded(
            self.reclaims().len(),
            DrawBooks { rows: Seq::empty(), shifts: no_shifts() },
            self.draw_step(reading, table),
        )
    }

    pub open spec fn lot_held(self, p: int) -> spec_fn(Seq<(HeldUnit, N)>, int) -> Seq<(HeldUnit, N)> {
        |held: Seq<(HeldUnit, N)>, o: int|
            {
                let lot = self.input.stockpiles@[p].opening@[o];
                put_under(held, Pair(self.input.stockpiles@[p].id, InventoryUnit::Opening(lot.id)), lot.tonnes_t)
            }
    }

    pub open spec fn lots_held(self) -> spec_fn(Seq<(HeldUnit, N)>, int) -> Seq<(HeldUnit, N)> {
        |held: Seq<(HeldUnit, N)>, p: int|
            folded(self.input.stockpiles@[p].opening@.len(), held, self.lot_held(p))
    }

    pub open spec fn parcel_held(self, parcels: Seq<ReceiptParcel<N>>) -> spec_fn(
        Seq<(HeldUnit, N)>,
        int,
    ) -> Seq<(HeldUnit, N)> {
        |held: Seq<(HeldUnit, N)>, j: int|
            raised_by(
                held,
                Pair(
                    parcels[j].stockpile,
                    InventoryUnit::Receipt {
                        interval: parcels[j].receipt_interval,
                        segment: parcels[j].segment,
                        position: parcels[j].position,
                    },
                ),
                parcels[j].tonnes_t,
            )
    }

    /// What every unit holds, as published.
    pub open spec fn unit_balance(self, parcels: Seq<ReceiptParcel<N>>) -> Seq<(HeldUnit, N)> {
        folded(
            parcels.len(),
            folded(self.input.stockpiles@.len(), Seq::empty(), self.lots_held()),
            self.parcel_held(parcels),
        )
    }

    /// What may be left of a unit that is taken for empty.
    pub open spec fn empty_limit(self) -> N {
        unit_dust(*self.input).plus(N::of_decimal(1, 9))
    }

    /// A row that empties a unit takes all that is left; one that moves next to
    /// nothing otherwise is dropped.
    pub open spec fn reclaim_step(self, rows: Seq<ReclaimRecord<N>>) -> spec_fn(ReclaimBooks<N>, int) -> ReclaimBooks<N> {
        |books: ReclaimBooks<N>, j: int|
            {
                let row = rows[j];
                let moves = self.negligible().below(row.tonnes_t);
                match held_under(books.balance, Pair(row.stockpile, row.unit)) {
                    None => if moves && N::of_whole(0).below(row.tonnes_t) {
                        ReclaimBooks { rows: books.rows.push(row), ..books }
                    } else {
                        books
                    },
                    Some(left) => {
                        let retires = N::of_whole(0).below(row.tonnes_t) && left.minus(row.tonnes_t).at_most(
                            self.empty_limit(),
                        );
                        if !(moves || retires) {
                            ReclaimBooks { shifts: shifted(books.shifts, row.tonnes_t), ..books }
                        } else {
                            let fills = retires || left.at_most(
                                row.tonnes_t.plus(N::of_whole(3).times(unit_dust(*self.input))),
                            );
                            let tonnes = if fills {
                                left.upper(N::of_whole(0))
                            } else {
                                row.tonnes_t
                            };
                            let by = row.tonnes_t.minus(tonnes).magnitude();
                            ReclaimBooks {
                                rows: if N::of_whole(0).below(tonnes) {
                                    books.rows.push(ReclaimRecord { tonnes_t: tonnes, ..row })
                                } else {
                                    books.rows
                                },
                                balance: put_under(books.balance, Pair(row.stockpile, row.unit), left.minus(tonnes)),
                                shifts: if fills && N::of_whole(0).below(by) {
                                    shifted(books.shifts, by)
                                } else {
                                    books.shifts
                                },
                            }
                        }
                    },
                }
            }
    }

    /// Reclaiming as published.
    pub open spec fn published_reclaims(
        self,
        reading: Reading<N>,
        parcels: Seq<ReceiptParcel<N>>,
        table: Seq<(PositionKey, usize)>,
    ) -> ReclaimBooks<N> {
        let drawn = self.draws(reading, table);
        let rows = reclaims_sorted(drawn.rows);
        folded(
            rows.len(),
            ReclaimBooks { rows: Seq::empty(), balance: self.unit_balance(parcels), shifts: drawn.shifts },
            self.reclaim_step(rows),
        )
    }

    fn find_lot_at(&self, pile: StockpileId, opening: usize) -> (r: Option<LotId>)
        ensures
            r == self.lot_at(pile, opening),
    {
        match find_key(&self.input.stockpiles, pile.0) {
            Some(p) => if opening < self.input.stockpiles[p].opening.len() {
                Some(self.input.stockpiles[p].opening[opening].id)
            } else {
                None
            },
            None => None,
        }
    }

    fn find_published_unit(&self, reclaim: &ReclaimVariable<N>, table: &Ledger<PositionKey, usize>) -> (r: Option<
        InventoryUnit,
    >)
        ensures
            r == self.published_unit(*reclaim, table@),
    {
        match reclaim.unit {
            UnitKey::Opening { pile: _, opening } => match self.find_lot_at(reclaim.source, opening) {
                Some(lot) => Some(InventoryUnit::Opening(lot)),
                None => None,
            },
            UnitKey::Receipt { pile: _, receipt_interval, segment, position } => {
                let key = Pair(reclaim.source, Pair(receipt_interval, Pair(segment, position)));
                match table.find(key) {
                    Some(published) => Some(
                        InventoryUnit::Receipt { interval: receipt_interval, segment, position: *published },
                    ),
                    None => None,
                }
            },
        }
    }

    fn read_reclaims(&self, lists: &Lists<N>, reading: &Reading<N>, table: &Ledger<PositionKey, usize>) -> (r: (
        Vec<ReclaimRecord<N>>,
        Shifts<N>,
    ))
        requires
            self.listed(*lists),
            self.read(*reading),
        ensures
            r.0@ == self.draws(*reading, table@).rows,
            r.1 == self.draws(*reading, table@).shifts,
    {
        let mut rows: Vec<ReclaimRecord<N>> = Vec::new();
        let mut shifts: Shifts<N> = Shifts::none();
        let ghost blank = DrawBooks::<N> { rows: Seq::empty(), shifts: no_shifts() };
        let ghost step = self.draw_step(*reading, table@);
        for x in 0..lists.reclaims.len()
            invariant
                self.listed(*lists),
                self.read(*reading),
                step == self.draw_step(*reading, table@),
                ({
                    let books = folded(x as nat, blank, step);
                    &&& rows@ == books.rows
                    &&& shifts == books.shifts
                }),
        {
            let reclaim = lists.reclaims[x];
            let tonnes = reading.reclaims[x];
            if !(reclaim.share != 0 || tonnes.is_at_most(N::whole(0))) {
                match self.find_published_unit(&reclaim, table) {
                    Some(unit) => {
                        let task = &self.input.tasks[reclaim.task];
                        rows.push(
                            ReclaimRecord {
                                interval: reclaim.interval,
                                segment: reclaim.segment,
                                loader: task.loader,
                                task: task.id,
                                stockpile: reclaim.source,
                                unit,
                                tonnes_t: tonnes,
                            },
                        );
                    },
                    None => {
                        shifts.shift(tonnes);
                    },
                }
            }
        }
        (rows, shifts)
    }

    fn open_units(&self, parcels: &Vec<ReceiptParcel<N>>) -> (held: Ledger<HeldUnit, N>)
        ensures
            held@ == self.unit_balance(parcels@),
    {
        let mut held: Ledger<HeldUnit, N> = Ledger::new();
        let ghost step = self.lots_held();
        for p in 0..self.input.stockpiles.len()
            invariant
                step == self.lots_held(),
                held@ == folded(p as nat, Seq::empty(), step),
        {
            let ghost before = held@;
            let ghost inner = self.lot_held(p as int);
            let lots = &self.input.stockpiles[p].opening;
            for o in 0..lots.len()
                invariant
                    p < self.input.stockpiles@.len(),
                    *lots == self.input.stockpiles@[p as int].opening,
                    inner == self.lot_held(p as int),
                    held@ == folded(o as nat, before, inner),
            {
                held.put(Pair(self.input.stockpiles[p].id, InventoryUnit::Opening(lots[o].id)), lots[o].tonnes_t);
            }
            assert(held@ == step(before, p as int));
        }
        let ghost start = held@;
        let ghost next = self.parcel_held(parcels@);
        for j in 0..parcels.len()
            invariant
                next == self.parcel_held(parcels@),
                held@ == folded(j as nat, start, next),
        {
            let parcel = parcels[j];
            held.raise(
                Pair(
                    parcel.stockpile,
                    InventoryUnit::Receipt {
                        interval: parcel.receipt_interval,
                        segment: parcel.segment,
                        position: parcel.position,
                    },
                ),
                parcel.tonnes_t,
            );
        }
        held
    }

    /// Publishes reclaiming: gives the rows and how far they were moved.
    pub fn publish_reclaims(
        &self,
        lists: &Lists<N>,
        reading: &Reading<N>,
        parcels: &Vec<ReceiptParcel<N>>,
        table: &Ledger<PositionKey, usize>,
    ) -> (r: (Vec<ReclaimRecord<N>>, Shifts<N>))
        requires
            self.listed(*lists),
            self.read(*reading),
        ensures
            r.0@ == self.published_reclaims(*reading, parcels@, table@).rows,
            r.1 == self.published_reclaims(*reading, parcels@, table@).shifts,
    {
        let (drawn, mut shifts) = self.read_reclaims(lists, reading, table);
        let sorted = sort_reclaims(&drawn);
        let mut balance = self.open_units(parcels);
        let mut rows: Vec<ReclaimRecord<N>> = Vec::new();
        let least = self.find_negligible();
        let dust = inventory_dust(self.input);
        let limit = dust.add(N::decimal(1, 9));
        let slack = N::whole(3).mul(dust);
        let ghost blank = ReclaimBooks::<N> {
            rows: Seq::empty(),
            balance: self.unit_balance(parcels@),
            shifts: self.draws(*reading, table@).shifts,
        };
        let ghost step = self.reclaim_step(sorted@);
        for j in 0..sorted.len()
            invariant
                least == self.negligible(),
                limit == self.empty_limit(),
                slack == N::of_whole(3).times(unit_dust(*self.input)),
                step == self.reclaim_step(sorted@),
                ({
                    let books = folded(j as nat, blank, step);
                    &&& rows@ == books.rows
                    &&& balance@ == books.balance
                    &&& shifts == books.shifts
                }),
        {
            let mut row = sorted[j];
            let moves: bool = least.is_below(row.tonnes_t);
            match balance.get(Pair(row.stockpile, row.unit)) {
                None => {
                    if moves && N::whole(0).is_below(row.tonnes_t) {
                        rows.push(row);
                    }
                },
                Some(left) => {
                    let retires: bool = N::whole(0).is_below(row.tonnes_t) && left.sub(row.tonnes_t).is_at_most(limit);
                    if !(moves || retires) {
                        shifts.shift(row.tonnes_t);
                    } else {
                        if retires || left.is_at_most(row.tonnes_t.add(slack)) {
                            let snapped = left.larger(N::whole(0));
                            let by = row.tonnes_t.sub(snapped).abs();
                            if N::whole(0).is_below(by) {
                                shifts.shift(by);
                            }
                            row.tonnes_t = snapped;
                        }
                        balance.put(Pair(row.stockpile, row.unit), left.sub(row.tonnes_t));
                        if N::whole(0).is_below(row.tonnes_t) {
                            rows.push(row);
                        }
                    }
                },
            }
        }
        (rows, shifts)
    }

    // All work.

    pub open spec fn reclaim_activity(self, row: ReclaimRecord<N>) -> ActivityRecord<N> {
        ActivityRecord {
            interval: row.interval,
            segment: row.segment,
            loader: row.loader,
            task: row.task,
            activity: Activity::Reclaim,
            source: SourceId::Stockpile(row.stockpile),
            tonnes_t: row.tonnes_t,
        }
    }

    /// Digging and reclaiming together, in order.
    pub open spec fn published_activities(self, digs: Seq<ActivityRecord<N>>, reclaims: Seq<ReclaimRecord<N>>) -> Seq<
        ActivityRecord<N>,
    > {
        rows_sorted(digs + Seq::new(reclaims.len(), |j: int| self.reclaim_activity(reclaims[j])))
    }

    pub fn publish_activities(&self, digs: &Vec<ActivityRecord<N>>, reclaims: &Vec<ReclaimRecord<N>>) -> (r: Vec<
        ActivityRecord<N>,
    >)
        ensures
            r@ == self.published_activities(digs@, reclaims@),
    {
        let mut rows = crate::listing::copied(digs);
        let ghost all = Seq::new(reclaims@.len(), |j: int| self.reclaim_activity(reclaims@[j]));
        for j in 0..reclaims.len()
            invariant
                all == Seq::new(reclaims@.len(), |j: int| self.reclaim_activity(reclaims@[j])),
                rows@ =~= digs@ + all.take(j as int),
        {
            let row = reclaims[j];
            rows.push(
                ActivityRecord {
                    interval: row.interval,
                    segment: row.segment,
                    loader: row.loader,
                    task: row.task,
                    activity: Activity::Reclaim,
                    source: SourceId::Stockpile(row.stockpile),
                    tonnes_t: row.tonnes_t,
                },
            );
        }
        assert(all.take(reclaims@.len() as int) =~= all);
        sort_rows(&rows)
    }
}

} // verus!
