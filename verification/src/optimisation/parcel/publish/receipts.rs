//! Movements and received parcels, as published.
use vstd::prelude::*;

use crate::ledger::{held_under, put_under, raised_by, Ledger, Pair};
use crate::listing::{arrange, arranged, folded, indices_to, last_where, said, said_of_two, sum_to};
use crate::optimisation::blended::report::{bump, one_more};
use crate::optimisation::ids::StockpileId;
use crate::optimisation::input::{value_to, MovementCandidate};
use crate::optimisation::parcel::base::{dust, find_dust, Parcels};
use crate::optimisation::parcel::columns::StreamKey;
use crate::optimisation::parcel::lists::Lists;
use crate::optimisation::result::{MovementRecord, ReceiptParcel};
use crate::scalar::Scalar;

verus! {

/// What was read off a solved model, beside the lists it was written from.
#[derive(Clone, Debug)]
pub struct Reading<N> {
    /// By interval and segment.
    pub durations: Vec<Vec<N>>,
    pub digs: Vec<N>,
    pub moves: Vec<N>,
    /// Tonnes of each parcel.
    pub quantities: Vec<N>,
    pub reclaims: Vec<N>,
}

/// A position of a cell of a pile.
pub type PositionKey = Pair<StockpileId, Pair<usize, Pair<usize, usize>>>;

/// What a tonne of a candidate is worth, zero where that is not finite.
pub open spec fn worth<N: Scalar>(candidate: MovementCandidate<N>) -> N {
    match value_to(candidate.cashflow@, candidate.cashflow@.len()) {
        Some(value) => value,
        None => N::of_whole(0),
    }
}

pub fn find_worth<N: Scalar>(candidate: &MovementCandidate<N>) -> (r: N)
    ensures
        r == worth(*candidate),
{
    match candidate.value_per_tonne() {
        Ok(value) => value,
        Err(_) => N::whole(0),
    }
}

/// A parcel came by a stream.
pub open spec fn by_stream<N>(parcel: ReceiptParcel<N>, stream: StreamKey) -> bool {
    parcel.stockpile == stream.pile && parcel.receipt_interval == stream.interval && parcel.segment == stream.segment
        && parcel.source == stream.source && parcel.material == stream.material
}

fn is_by_stream<N>(parcel: &ReceiptParcel<N>, stream: StreamKey) -> (r: bool)
    ensures
        r == by_stream(*parcel, stream),
{
    parcel.stockpile == stream.pile && parcel.receipt_interval == stream.interval && parcel.segment == stream.segment
        && parcel.source == stream.source && parcel.material == stream.material
}

/// A parcel as published: released after the interval it came in.
pub open spec fn receipt<N>(stream: StreamKey, position: usize, tonnes: N) -> ReceiptParcel<N> {
    ReceiptParcel {
        stockpile: stream.pile,
        receipt_interval: stream.interval,
        segment: stream.segment,
        release_interval: one_more(stream.interval),
        position,
        source: stream.source,
        material: stream.material,
        tonnes_t: tonnes,
    }
}

fn make_receipt<N>(stream: StreamKey, position: usize, tonnes: N) -> (r: ReceiptParcel<N>)
    ensures
        r == receipt(stream, position, tonnes),
{
    ReceiptParcel {
        stockpile: stream.pile,
        receipt_interval: stream.interval,
        segment: stream.segment,
        release_interval: bump(stream.interval),
        position,
        source: stream.source,
        material: stream.material,
        tonnes_t: tonnes,
    }
}

/// Parcels while they are read off: those published, what is dropped by
/// stream and the position last dropped, and how far numbers were moved.
pub struct ParcelBooks<N> {
    pub parcels: Seq<ReceiptParcel<N>>,
    pub dropped: Seq<(StreamKey, N)>,
    pub places: Seq<(StreamKey, usize)>,
    pub most: N,
    pub total: N,
}

/// Positions while parcels are renumbered cell by cell.
pub struct Numbering<N> {
    pub parcels: Seq<ReceiptParcel<N>>,
    pub cell: Option<(StockpileId, usize, usize)>,
    pub next: usize,
    pub table: Seq<(PositionKey, usize)>,
}

pub open spec fn position_key<N>(parcel: ReceiptParcel<N>) -> PositionKey {
    Pair(parcel.stockpile, Pair(parcel.receipt_interval, Pair(parcel.segment, parcel.position)))
}

pub open spec fn cell_key<N>(parcel: ReceiptParcel<N>) -> (StockpileId, usize, usize) {
    (parcel.stockpile, parcel.receipt_interval, parcel.segment)
}

/// By pile, interval, segment and position.
pub open spec fn parcel_before<N>(a: ReceiptParcel<N>, b: ReceiptParcel<N>) -> bool {
    a.stockpile.0 < b.stockpile.0 || (a.stockpile == b.stockpile && (a.receipt_interval < b.receipt_interval || (
    a.receipt_interval == b.receipt_interval && (a.segment < b.segment || (a.segment == b.segment && a.position
        < b.position)))))
}

fn is_parcel_before<N>(a: &ReceiptParcel<N>, b: &ReceiptParcel<N>) -> (r: bool)
    ensures
        r == parcel_before(*a, *b),
{
    a.stockpile.0 < b.stockpile.0 || (a.stockpile == b.stockpile && (a.receipt_interval < b.receipt_interval || (
    a.receipt_interval == b.receipt_interval && (a.segment < b.segment || (a.segment == b.segment && a.position
        < b.position)))))
}

/// Every index.
pub open spec fn every() -> spec_fn(int) -> bool {
    |i: int| true
}

pub open spec fn parcels_before<N>(parcels: Seq<ReceiptParcel<N>>) -> spec_fn(int, int) -> bool {
    |a: int, b: int| parcel_before(parcels[a], parcels[b])
}

pub open spec fn taken_in<T>(rows: Seq<T>, order: Seq<usize>) -> Seq<T> {
    Seq::new(order.len(), |j: int| rows[order[j] as int])
}

pub open spec fn parcels_sorted<N>(parcels: Seq<ReceiptParcel<N>>) -> Seq<ReceiptParcel<N>> {
    taken_in(parcels, arranged(parcels.len(), every(), parcels_before(parcels)))
}

/// Takes rows in an order.
pub fn take_in<T: Copy>(rows: &Vec<T>, order: &Vec<usize>) -> (r: Vec<T>)
    requires
        forall|q: int| 0 <= q < order@.len() ==> (#[trigger] order@[q]) < rows@.len(),
    ensures
        r@ == taken_in(rows@, order@),
{
    let mut out: Vec<T> = Vec::new();
    for j in 0..order.len()
        invariant
            forall|q: int| 0 <= q < order@.len() ==> (#[trigger] order@[q]) < rows@.len(),
            out@ =~= taken_in(rows@, order@).take(j as int),
    {
        out.push(rows[order[j]]);
    }
    assert(out@ =~= taken_in(rows@, order@));
    out
}

pub open spec fn number_step<N>(sorted: Seq<ReceiptParcel<N>>) -> spec_fn(Numbering<N>, int) -> Numbering<N> {
    |state: Numbering<N>, j: int|
        {
            let parcel = sorted[j];
            let next = if state.cell == Some(cell_key(parcel)) {
                state.next
            } else {
                0
            };
            let key = position_key(parcel);
            match held_under(state.table, key) {
                Some(position) => Numbering {
                    parcels: state.parcels.push(ReceiptParcel { position, ..parcel }),
                    cell: Some(cell_key(parcel)),
                    next,
                    table: state.table,
                },
                None => Numbering {
                    parcels: state.parcels.push(ReceiptParcel { position: next, ..parcel }),
                    cell: Some(cell_key(parcel)),
                    next: one_more(next),
                    table: put_under(state.table, key, next),
                },
            }
        }
}

/// Parcels with the positions of each cell counted from zero.
pub open spec fn numbered<N>(sorted: Seq<ReceiptParcel<N>>) -> Numbering<N> {
    folded(
        sorted.len(),
        Numbering { parcels: Seq::empty(), cell: None, next: 0, table: Seq::empty() },
        number_step(sorted),
    )
}

impl<'a, N: Scalar> Parcels<'a, N> {
    /// There is a value for everything listed.
    pub open spec fn read(self, reading: Reading<N>) -> bool {
        &&& reading.digs@.len() == self.digs().len()
        &&& reading.moves@.len() == self.moves().len()
        &&& reading.quantities@.len() == self.parcels().len()
        &&& reading.reclaims@.len() == self.reclaims().len()
        &&& reading.durations@.len() == self.horizon()
        &&& forall|i: int|
            0 <= i < reading.durations@.len() ==> (#[trigger] reading.durations@[i])@.len() == self.segments(i)
    }

    /// What is too little to be published.
    pub open spec fn negligible(self) -> N {
        self.input.horizon.tolerances.tonnes_t.upper(dust(*self.input))
    }

    pub fn find_negligible(&self) -> (r: N)
        ensures
            r == self.negligible(),
    {
        self.input.horizon.tolerances.tonnes_t.larger(find_dust(self.input))
    }

    // Movements.

    pub open spec fn raw_part(self, reading: Reading<N>) -> spec_fn(int) -> Option<N> {
        |x: int| Some(reading.moves@[x].times(worth(self.candidate(self.moves()[x].candidate as int))))
    }

    /// What everything that is moved is worth.
    pub open spec fn raw_objective(self, reading: Reading<N>) -> N {
        sum_to(self.moves().len(), self.raw_part(reading))
    }

    pub fn find_raw_objective(&self, lists: &Lists<N>, reading: &Reading<N>) -> (r: N)
        requires
            self.listed(*lists),
            self.read(*reading),
        ensures
            r == self.raw_objective(*reading),
    {
        let mut total = N::whole(0);
        for x in 0..lists.moves.len()
            invariant
                self.listed(*lists),
                self.read(*reading),
                total == sum_to(x as nat, self.raw_part(*reading)),
        {
            let candidate = &self.input.movements[lists.moves[x].candidate];
            total = total.add(reading.moves[x].mul(find_worth(candidate)));
        }
        total
    }

    pub open spec fn moved(self, reading: Reading<N>) -> spec_fn(int) -> bool {
        |x: int| !reading.moves@[x].at_most(self.negligible())
    }

    /// The routes that carry enough to be published.
    pub open spec fn published_moves(self, reading: Reading<N>) -> Seq<usize> {
        indices_to(self.moves().len(), self.moved(reading))
    }

    /// A record says what a route carries.
    pub open spec fn move_record(self, x: int, tonnes: N, record: MovementRecord<N>) -> bool {
        let movement = self.moves()[x];
        let candidate = self.candidate(movement.candidate as int);
        &&& record.interval == movement.interval
        &&& record.segment == movement.segment
        &&& record.loader == candidate.loader
        &&& record.task == self.task(movement.task as int).id
        &&& record.source == movement.source
        &&& record.material == movement.material
        &&& record.destination == candidate.destination
        &&& record.truck == candidate.truck
        &&& record.tonnes_t == tonnes
        &&& record.truck_hours == tonnes.times(candidate.truck_hours_per_tonne)
        &&& record.routing_rule == candidate.routing_rule
        &&& record.cashflow@ == candidate.cashflow@
        &&& record.value == tonnes.times(worth(candidate))
    }

    /// Records say what every published route carries.
    pub open spec fn moves_published(self, reading: Reading<N>, records: Seq<MovementRecord<N>>) -> bool {
        let kept = self.published_moves(reading);
        &&& records.len() == kept.len()
        &&& forall|j: int|
            0 <= j < records.len() ==> self.move_record(
                kept[j] as int,
                reading.moves@[kept[j] as int],
                #[trigger] records[j],
            )
    }

    pub fn publish_moves(&self, lists: &Lists<N>, reading: &Reading<N>) -> (records: Vec<MovementRecord<N>>)
        requires
            self.listed(*lists),
            self.read(*reading),
        ensures
            self.moves_published(*reading, records@),
            forall|j: int| 0 <= j < records@.len() ==> (#[trigger] records@[j]).interval < self.horizon(),
    {
        let least = self.find_negligible();
        let mut records: Vec<MovementRecord<N>> = Vec::new();
        for x in 0..lists.moves.len()
            invariant
                self.listed(*lists),
                self.read(*reading),
                least == self.negligible(),
                records@.len() == indices_to(x as nat, self.moved(*reading)).len(),
                forall|j: int|
                    0 <= j < records@.len() ==> self.move_record(
                        indices_to(x as nat, self.moved(*reading))[j] as int,
                        reading.moves@[indices_to(x as nat, self.moved(*reading))[j] as int],
                        #[trigger] records@[j],
                    ),
                forall|j: int| 0 <= j < records@.len() ==> (#[trigger] records@[j]).interval < self.horizon(),
        {
            let movement = lists.moves[x];
            let tonnes = reading.moves[x];
            if !tonnes.is_at_most(least) {
                let candidate = &self.input.movements[movement.candidate];
                let record = MovementRecord {
                    interval: movement.interval,
                    segment: movement.segment,
                    loader: candidate.loader,
                    task: self.input.tasks[movement.task].id,
                    source: movement.source,
                    material: movement.material,
                    destination: candidate.destination,
                    truck: candidate.truck,
                    tonnes_t: tonnes,
                    truck_hours: tonnes.mul(candidate.truck_hours_per_tonne),
                    routing_rule: candidate.routing_rule,
                    cashflow: crate::listing::copied(&candidate.cashflow),
                    value: tonnes.mul(find_worth(candidate)),
                };
                records.push(record);
            }
        }
        records
    }

    // Parcels.

    /// What a parcel is published to hold: all of it, nothing, or what was
    /// read.
    pub open spec fn snapped(self, raw: N) -> N {
        let target = self.target();
        let snap = dust(*self.input);
        if raw.minus(target).magnitude().at_most(snap) {
            target
        } else if raw.at_most(snap) || raw.below(
            self.input.horizon.tolerances.parcel_occupancy_t.times(N::of_decimal(5, 1)),
        ) {
            N::of_whole(0)
        } else {
            raw
        }
    }

    pub open spec fn parcel_step(self, reading: Reading<N>) -> spec_fn(ParcelBooks<N>, int) -> ParcelBooks<N> {
        |books: ParcelBooks<N>, x: int|
            {
                let parcel = self.parcels()[x];
                let raw = reading.quantities@[x];
                let tonnes = self.snapped(raw);
                let shift = raw.minus(tonnes).magnitude();
                let moved = ParcelBooks { most: books.most.upper(shift), total: books.total.plus(shift), ..books };
                if tonnes.same(N::of_whole(0)) {
                    ParcelBooks {
                        dropped: raised_by(books.dropped, parcel.stream, raw),
                        places: put_under(books.places, parcel.stream, parcel.position),
                        ..moved
                    }
                } else {
                    ParcelBooks { parcels: books.parcels.push(receipt(parcel.stream, parcel.position, tonnes)), ..moved }
                }
            }
    }

    pub open spec fn parcel_books(self, reading: Reading<N>) -> ParcelBooks<N> {
        folded(
            self.parcels().len(),
            ParcelBooks {
                parcels: Seq::empty(),
                dropped: Seq::empty(),
                places: Seq::empty(),
                most: N::of_whole(0),
                total: N::of_whole(0),
            },
            self.parcel_step(reading),
        )
    }

    pub open spec fn of_stream(self, parcels: Seq<ReceiptParcel<N>>, stream: StreamKey) -> spec_fn(int) -> bool {
        |i: int| by_stream(parcels[i], stream)
    }

    /// What was dropped of a stream goes to its last parcel, or makes one.
    pub open spec fn regain_step(self, dropped: Seq<(StreamKey, N)>, places: Seq<(StreamKey, usize)>) -> spec_fn(
        Seq<ReceiptParcel<N>>,
        int,
    ) -> Seq<ReceiptParcel<N>> {
        |parcels: Seq<ReceiptParcel<N>>, k: int|
            {
                let (stream, tonnes) = dropped[k];
                if tonnes.at_most(self.negligible()) {
                    parcels
                } else {
                    match last_where(parcels.len(), self.of_stream(parcels, stream)) {
                        Some(i) => parcels.update(
                            i,
                            ReceiptParcel { tonnes_t: parcels[i].tonnes_t.plus(tonnes), ..parcels[i] },
                        ),
                        None => parcels.push(
                            receipt(
                                stream,
                                match held_under(places, stream) {
                                    Some(position) => position,
                                    None => 0,
                                },
                                tonnes,
                            ),
                        ),
                    }
                }
            }
    }

    pub open spec fn regained(self, books: ParcelBooks<N>) -> Seq<ReceiptParcel<N>> {
        folded(books.dropped.len(), books.parcels, self.regain_step(books.dropped, books.places))
    }

    /// Parcels as published, with the table from the positions of the model to
    /// those published.
    pub open spec fn published_parcels(self, reading: Reading<N>) -> Numbering<N> {
        numbered(parcels_sorted(self.regained(self.parcel_books(reading))))
    }

    fn snap(&self, raw: N) -> (r: N)
        ensures
            r == self.snapped(raw),
    {
        let target = self.input.horizon.parcel_target_t;
        let snap = find_dust(self.input);
        if raw.sub(target).abs().is_at_most(snap) {
            target
        } else if raw.is_at_most(snap) || raw.is_below(
            self.input.horizon.tolerances.parcel_occupancy_t.mul(N::decimal(5, 1)),
        ) {
            N::whole(0)
        } else {
            raw
        }
    }

    fn find_last_of(&self, parcels: &Vec<ReceiptParcel<N>>, stream: StreamKey) -> (r: Option<usize>)
        ensures
            match r {
                Some(i) => last_where(parcels@.len(), self.of_stream(parcels@, stream)) == Some(i as int) && i
                    < parcels@.len(),
                None => last_where(parcels@.len(), self.of_stream(parcels@, stream)) is None,
            },
    {
        let mut i: usize = parcels.len();
        while i > 0
            invariant
                i <= parcels@.len(),
                last_where(parcels@.len(), self.of_stream(parcels@, stream)) == last_where(
                    i as nat,
                    self.of_stream(parcels@, stream),
                ),
            decreases i,
        {
            if is_by_stream(&parcels[i - 1], stream) {
                return Some(i - 1);
            }
            i = i - 1;
        }
        None
    }

    fn regain(
        &self,
        parcels: &mut Vec<ReceiptParcel<N>>,
        dropped: &Ledger<StreamKey, N>,
        places: &Ledger<StreamKey, usize>,
    )
        ensures
            final(parcels)@ == folded(dropped@.len(), old(parcels)@, self.regain_step(dropped@, places@)),
    {
        let least = self.find_negligible();
        let ghost start = parcels@;
        let ghost step = self.regain_step(dropped@, places@);
        for k in 0..dropped.entries.len()
            invariant
                least == self.negligible(),
                step == self.regain_step(dropped@, places@),
                parcels@ == folded(k as nat, start, step),
        {
            let (stream, tonnes) = dropped.entries[k];
            assert((stream, tonnes) == dropped@[k as int]);
            if !tonnes.is_at_most(least) {
                match self.find_last_of(parcels, stream) {
                    Some(i) => {
                        let mut parcel = parcels[i];
                        parcel.tonnes_t = parcel.tonnes_t.add(tonnes);
                        parcels.set(i, parcel);
                    },
                    None => {
                        let position: usize = match places.find(stream) {
                            Some(position) => *position,
                            None => 0,
                        };
                        parcels.push(make_receipt(stream, position, tonnes));
                    },
                }
            }
        }
    }

    /// Publishes parcels: gives the parcels, the table from the positions of
    /// the model to those published, and the largest and the total move.
    pub fn publish_parcels(&self, lists: &Lists<N>, reading: &Reading<N>) -> (r: (
        Vec<ReceiptParcel<N>>,
        Ledger<PositionKey, usize>,
        N,
        N,
    ))
        requires
            self.listed(*lists),
            self.read(*reading),
        ensures
            r.0@ == self.published_parcels(*reading).parcels,
            r.1@ == self.published_parcels(*reading).table,
            r.2 == self.parcel_books(*reading).most,
            r.3 == self.parcel_books(*reading).total,
    {
        let mut parcels: Vec<ReceiptParcel<N>> = Vec::new();
        let mut dropped: Ledger<StreamKey, N> = Ledger::new();
        let mut places: Ledger<StreamKey, usize> = Ledger::new();
        let mut most = N::whole(0);
        let mut total = N::whole(0);
        let ghost blank = ParcelBooks::<N> {
            parcels: Seq::empty(),
            dropped: Seq::empty(),
            places: Seq::empty(),
            most: N::of_whole(0),
            total: N::of_whole(0),
        };
        let ghost step = self.parcel_step(*reading);
        for x in 0..lists.parcels.len()
            invariant
                self.listed(*lists),
                self.read(*reading),
                step == self.parcel_step(*reading),
                ({
                    let books = folded(x as nat, blank, step);
                    &&& parcels@ == books.parcels
                    &&& dropped@ == books.dropped
                    &&& places@ == books.places
                    &&& most == books.most
                    &&& total == books.total
                }),
        {
            let parcel = lists.parcels[x];
            let raw = reading.quantities[x];
            let tonnes = self.snap(raw);
            let shift = raw.sub(tonnes).abs();
            most = most.larger(shift);
            total = total.add(shift);
            if tonnes.is_same(N::whole(0)) {
                dropped.raise(parcel.stream, raw);
                places.put(parcel.stream, parcel.position);
            } else {
                parcels.push(make_receipt(parcel.stream, parcel.position, tonnes));
            }
        }
        self.regain(&mut parcels, &dropped, &places);
        assert(parcels@ == self.regained(self.parcel_books(*reading)));
        let order = arrange(
            parcels.len(),
            |i: usize| -> (b: bool)
                ensures
                    b == said(every(), i)
                { true },
            |i: usize, j: usize| -> (b: bool)
                requires
                    parcels@.len() > i,
                    parcels@.len() > j,
                ensures
                    b == said_of_two(parcels_before(parcels@), i, j)
                { is_parcel_before(&parcels[i], &parcels[j]) },
            Ghost(every()),
            Ghost(parcels_before(parcels@)),
        );
        let sorted = take_in(&parcels, &order);
        assert(sorted@ == parcels_sorted(parcels@));
        let (out, table) = number(&sorted);
        (out, table, most, total)
    }
}

fn number<N: Scalar>(sorted: &Vec<ReceiptParcel<N>>) -> (r: (Vec<ReceiptParcel<N>>, Ledger<PositionKey, usize>))
    ensures
        r.0@ == numbered(sorted@).parcels,
        r.1@ == numbered(sorted@).table,
{
    let mut out: Vec<ReceiptParcel<N>> = Vec::new();
    let mut table: Ledger<PositionKey, usize> = Ledger::new();
    let mut cell: Option<(StockpileId, usize, usize)> = None;
    let mut next: usize = 0;
    let ghost blank = Numbering::<N> { parcels: Seq::empty(), cell: None, next: 0, table: Seq::empty() };
    let ghost step = number_step(sorted@);
    for j in 0..sorted.len()
        invariant
            step == number_step(sorted@),
            ({
                let state = folded(j as nat, blank, step);
                &&& out@ == state.parcels
                &&& table@ == state.table
                &&& cell == state.cell
                &&& next == state.next
            }),
    {
        let mut parcel = sorted[j];
        let same: bool = match cell {
            Some(held) => held.0 == parcel.stockpile && held.1 == parcel.receipt_interval && held.2 == parcel.segment,
            None => false,
        };
        if !same {
            next = 0;
        }
        cell = Some((parcel.stockpile, parcel.receipt_interval, parcel.segment));
        let key = Pair(parcel.stockpile, Pair(parcel.receipt_interval, Pair(parcel.segment, parcel.position)));
        let known: Option<usize> = match table.find(key) {
            Some(position) => Some(*position),
            None => None,
        };
        match known {
            Some(position) => {
                parcel.position = position;
            },
            None => {
                parcel.position = next;
                table.put(key, next);
                next = bump(next);
            },
        }
        out.push(parcel);
    }
    (out, table)
}

} // verus!
