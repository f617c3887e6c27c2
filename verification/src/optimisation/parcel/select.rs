//! Sums over what is dug, moved, received and reclaimed.
use vstd::prelude::*;

use crate::listing::flat;
use crate::optimisation::ids::{DestinationId, GroundId, MaterialId, SourceId, StockpileId, TruckClassId};
use crate::optimisation::parcel::base::Parcels;
use crate::optimisation::parcel::columns::{
    DigVariable, MoveVariable, ParcelColumn, ParcelVariable, ReclaimVariable, StreamKey, UnitKey,
};
use crate::scalar::Scalar;

verus! {

/// Which digging a sum takes.
#[derive(Clone, Copy, Debug, PartialEq, Eq, Structural)]
pub enum DigSelector {
    OfCell { ground: GroundId, interval: usize, segment: usize },
    OfGround { ground: GroundId },
}

/// Which routes a sum takes.
#[derive(Clone, Copy, Debug, PartialEq, Eq, Structural)]
pub enum MoveSelector {
    /// To a destination in a cell.
    To { destination: DestinationId, interval: usize, segment: usize },
    /// Of a material from a source that a task takes in a cell.
    Routed { task: usize, interval: usize, segment: usize, source: SourceId, material: MaterialId },
    /// Of a material from a source to a pile in a cell.
    Incoming { interval: usize, segment: usize, source: SourceId, material: MaterialId, pile: StockpileId },
    /// Of a material from a unit that a task takes in a cell.
    OfUnit { task: usize, interval: usize, segment: usize, unit: UnitKey, material: MaterialId },
    /// By a truck class in a cell, in hours.
    Truck { truck: TruckClassId, interval: usize, segment: usize },
    /// To a destination on a day.
    OnDay { destination: DestinationId, day: usize },
    /// To a destination.
    Ever { destination: DestinationId },
}

/// Which parcels a sum takes.
#[derive(Clone, Copy, Debug, PartialEq, Eq, Structural)]
pub enum ParcelSelector {
    At { pile: StockpileId, interval: usize, segment: usize, position: usize },
    AtMaterial { pile: StockpileId, interval: usize, segment: usize, position: usize, material: MaterialId },
    OfStream { stream: StreamKey },
    /// Of a stream at a position before `prefix`.
    Before { stream: StreamKey, prefix: usize },
    OfInterval { pile: StockpileId, interval: usize },
    OfCell { pile: StockpileId, interval: usize, segment: usize },
}

/// Which column of a parcel a sum takes.
#[derive(Clone, Copy, Debug, PartialEq, Eq, Structural)]
pub enum ParcelPart {
    Quantity,
    Assigned,
    Remainder,
}

/// Which reclaiming a sum takes, each column once.
#[derive(Clone, Copy, Debug, PartialEq, Eq, Structural)]
pub enum ReclaimSelector {
    OfUnit { unit: UnitKey, interval: usize, segment: usize },
    OfPile { pile: StockpileId, interval: usize, segment: usize },
    OfTask { task: usize, interval: usize, segment: usize },
    OfTaskEver { task: usize },
}

pub open spec fn dig_column(dig: DigVariable) -> ParcelColumn {
    ParcelColumn::Dig { task: dig.task, interval: dig.interval, segment: dig.segment, stage: dig.stage }
}

pub open spec fn parcel_part(parcel: ParcelVariable, part: ParcelPart) -> ParcelColumn {
    match part {
        ParcelPart::Quantity => ParcelColumn::Quantity { stream: parcel.stream, position: parcel.position },
        ParcelPart::Assigned => ParcelColumn::Assigned { stream: parcel.stream, position: parcel.position },
        ParcelPart::Remainder => ParcelColumn::Remainder { stream: parcel.stream, position: parcel.position },
    }
}

pub open spec fn dig_chosen(sel: DigSelector, dig: DigVariable) -> bool {
    match sel {
        DigSelector::OfCell { ground, interval, segment } => dig.source == ground && dig.interval == interval
            && dig.segment == segment,
        DigSelector::OfGround { ground } => dig.source == ground,
    }
}

pub open spec fn parcel_chosen(sel: ParcelSelector, parcel: ParcelVariable) -> bool {
    let stream = parcel.stream;
    match sel {
        ParcelSelector::At { pile, interval, segment, position } => stream.pile == pile && stream.interval == interval
            && stream.segment == segment && parcel.position == position,
        ParcelSelector::AtMaterial { pile, interval, segment, position, material } => stream.pile == pile
            && stream.interval == interval && stream.segment == segment && parcel.position == position
            && stream.material == material,
        ParcelSelector::OfStream { stream: other } => stream == other,
        ParcelSelector::Before { stream: other, prefix } => stream == other && parcel.position < prefix,
        ParcelSelector::OfInterval { pile, interval } => stream.pile == pile && stream.interval == interval,
        ParcelSelector::OfCell { pile, interval, segment } => stream.pile == pile && stream.interval == interval
            && stream.segment == segment,
    }
}

pub open spec fn reclaim_chosen<N>(sel: ReclaimSelector, reclaim: ReclaimVariable<N>) -> bool {
    match sel {
        ReclaimSelector::OfUnit { unit, interval, segment } => reclaim.unit == unit && reclaim.interval == interval
            && reclaim.segment == segment,
        ReclaimSelector::OfPile { pile, interval, segment } => reclaim.source == pile && reclaim.interval == interval
            && reclaim.segment == segment,
        ReclaimSelector::OfTask { task, interval, segment } => reclaim.task == task && reclaim.interval == interval
            && reclaim.segment == segment,
        ReclaimSelector::OfTaskEver { task } => reclaim.task == task,
    }
}

fn is_dig_chosen(sel: DigSelector, dig: DigVariable) -> (r: bool)
    ensures
        r == dig_chosen(sel, dig),
{
    match sel {
        DigSelector::OfCell { ground, interval, segment } => dig.source == ground && dig.interval == interval
            && dig.segment == segment,
        DigSelector::OfGround { ground } => dig.source == ground,
    }
}

pub fn is_parcel_chosen(sel: ParcelSelector, parcel: ParcelVariable) -> (r: bool)
    ensures
        r == parcel_chosen(sel, parcel),
{
    let stream = parcel.stream;
    match sel {
        ParcelSelector::At { pile, interval, segment, position } => stream.pile == pile && stream.interval == interval
            && stream.segment == segment && parcel.position == position,
        ParcelSelector::AtMaterial { pile, interval, segment, position, material } => stream.pile == pile
            && stream.interval == interval && stream.segment == segment && parcel.position == position
            && stream.material == material,
        ParcelSelector::OfStream { stream: other } => stream == other,
        ParcelSelector::Before { stream: other, prefix } => stream == other && parcel.position < prefix,
        ParcelSelector::OfInterval { pile, interval } => stream.pile == pile && stream.interval == interval,
        ParcelSelector::OfCell { pile, interval, segment } => stream.pile == pile && stream.interval == interval
            && stream.segment == segment,
    }
}

pub fn is_reclaim_chosen<N>(sel: ReclaimSelector, reclaim: &ReclaimVariable<N>) -> (r: bool)
    ensures
        r == reclaim_chosen(sel, *reclaim),
{
    match sel {
        ReclaimSelector::OfUnit { unit, interval, segment } => reclaim.unit == unit && reclaim.interval == interval
            && reclaim.segment == segment,
        ReclaimSelector::OfPile { pile, interval, segment } => reclaim.source == pile && reclaim.interval == interval
            && reclaim.segment == segment,
        ReclaimSelector::OfTask { task, interval, segment } => reclaim.task == task && reclaim.interval == interval
            && reclaim.segment == segment,
        ReclaimSelector::OfTaskEver { task } => reclaim.task == task,
    }
}

pub open spec fn dig_term<N>(digs: Seq<DigVariable>, sel: DigSelector, weight: N) -> spec_fn(int) -> Seq<
    (ParcelColumn, N),
> {
    |x: int|
        if dig_chosen(sel, digs[x]) {
            seq![(dig_column(digs[x]), weight)]
        } else {
            Seq::empty()
        }
}

pub open spec fn parcel_term<N>(parcels: Seq<ParcelVariable>, sel: ParcelSelector, part: ParcelPart, weight: N) -> spec_fn(
    int,
) -> Seq<(ParcelColumn, N)> {
    |x: int|
        if parcel_chosen(sel, parcels[x]) {
            seq![(parcel_part(parcels[x], part), weight)]
        } else {
            Seq::empty()
        }
}

pub open spec fn reclaim_term<N>(reclaims: Seq<ReclaimVariable<N>>, sel: ReclaimSelector, weight: N) -> spec_fn(
    int,
) -> Seq<(ParcelColumn, N)> {
    |x: int|
        if reclaims[x].share == 0 && reclaim_chosen(sel, reclaims[x]) {
            seq![(reclaims[x].column, weight)]
        } else {
            Seq::empty()
        }
}

impl<'a, N: Scalar> Parcels<'a, N> {
    pub open spec fn dig_terms(self, sel: DigSelector, weight: N) -> Seq<(ParcelColumn, N)> {
        flat(self.digs().len(), dig_term(self.digs(), sel, weight))
    }

    pub open spec fn parcel_terms(self, sel: ParcelSelector, part: ParcelPart, weight: N) -> Seq<(ParcelColumn, N)> {
        flat(self.parcels().len(), parcel_term(self.parcels(), sel, part, weight))
    }

    pub open spec fn reclaim_terms(self, sel: ReclaimSelector, weight: N) -> Seq<(ParcelColumn, N)> {
        flat(self.reclaims().len(), reclaim_term(self.reclaims(), sel, weight))
    }

    pub open spec fn move_chosen(self, sel: MoveSelector, m: MoveVariable) -> bool {
        let candidate = self.candidate(m.candidate as int);
        match sel {
            MoveSelector::To { destination, interval, segment } => candidate.destination == destination && m.interval
                == interval && m.segment == segment,
            MoveSelector::Routed { task, interval, segment, source, material } => m.task == task && m.interval
                == interval && m.segment == segment && m.source == source && m.material == material,
            MoveSelector::Incoming { interval, segment, source, material, pile } => m.interval == interval && m.segment
                == segment && m.source == source && m.material == material && self.ends_on(
                candidate.destination,
                pile,
            ),
            MoveSelector::OfUnit { task, interval, segment, unit, material } => m.task == task && m.interval == interval
                && m.segment == segment && m.unit == Some(unit) && m.material == material,
            MoveSelector::Truck { truck, interval, segment } => m.interval == interval && m.segment == segment
                && candidate.truck == truck,
            MoveSelector::OnDay { destination, day } => candidate.destination == destination && self.interval(
                m.interval as int,
            ).calendar_day() == day,
            MoveSelector::Ever { destination } => candidate.destination == destination,
        }
    }

    pub open spec fn move_weight(self, sel: MoveSelector, m: MoveVariable, weight: N) -> N {
        match sel {
            MoveSelector::Truck { .. } => self.candidate(m.candidate as int).truck_hours_per_tonne,
            _ => weight,
        }
    }

    pub open spec fn move_term(self, sel: MoveSelector, weight: N) -> spec_fn(int) -> Seq<(ParcelColumn, N)> {
        |x: int|
            if self.move_chosen(sel, self.moves()[x]) {
                seq![(self.moves()[x].column, self.move_weight(sel, self.moves()[x], weight))]
            } else {
                Seq::empty()
            }
    }

    pub open spec fn move_terms(self, sel: MoveSelector, weight: N) -> Seq<(ParcelColumn, N)> {
        flat(self.moves().len(), self.move_term(sel, weight))
    }

    pub fn is_move_chosen(&self, sel: MoveSelector, m: MoveVariable) -> (r: bool)
        requires
            self.move_stands(m),
        ensures
            r == self.move_chosen(sel, m),
    {
        let candidate = &self.input.movements[m.candidate];
        match sel {
            MoveSelector::To { destination, interval, segment } => candidate.destination == destination && m.interval
                == interval && m.segment == segment,
            MoveSelector::Routed { task, interval, segment, source, material } => m.task == task && m.interval
                == interval && m.segment == segment && m.source == source && m.material == material,
            MoveSelector::Incoming { interval, segment, source, material, pile } => m.interval == interval && m.segment
                == segment && m.source == source && m.material == material && self.does_end_on(
                candidate.destination,
                pile,
            ),
            MoveSelector::OfUnit { task, interval, segment, unit, material } => m.task == task && m.interval == interval
                && m.segment == segment && m.unit == Some(unit) && m.material == material,
            MoveSelector::Truck { truck, interval, segment } => m.interval == interval && m.segment == segment
                && candidate.truck == truck,
            MoveSelector::OnDay { destination, day } => candidate.destination == destination
                && self.input.intervals[m.interval].day() as u64 == day as u64,
            MoveSelector::Ever { destination } => candidate.destination == destination,
        }
    }

    pub fn add_digs(&self, terms: &mut Vec<(ParcelColumn, N)>, digs: &Vec<DigVariable>, sel: DigSelector, weight: N)
        requires
            digs@ == self.digs(),
        ensures
            final(terms)@ == old(terms)@ + self.dig_terms(sel, weight),
    {
        let ghost base = terms@;
        let ghost f = dig_term(self.digs(), sel, weight);
        assert(base + flat(0, f) =~= base);
        for x in 0..digs.len()
            invariant
                digs@ == self.digs(),
                f == dig_term(self.digs(), sel, weight),
                terms@ == base + flat(x as nat, f),
        {
            let dig = digs[x];
            if is_dig_chosen(sel, dig) {
                terms.push(
                    (
                        ParcelColumn::Dig {
                            task: dig.task,
                            interval: dig.interval,
                            segment: dig.segment,
                            stage: dig.stage,
                        },
                        weight,
                    ),
                );
            }
            assert(terms@ =~= base + (flat(x as nat, f) + f(x as int)));
        }
    }

    pub fn add_parcels(
        &self,
        terms: &mut Vec<(ParcelColumn, N)>,
        parcels: &Vec<ParcelVariable>,
        sel: ParcelSelector,
        part: ParcelPart,
        weight: N,
    )
        requires
            parcels@ == self.parcels(),
        ensures
            final(terms)@ == old(terms)@ + self.parcel_terms(sel, part, weight),
    {
        let ghost base = terms@;
        let ghost f = parcel_term(self.parcels(), sel, part, weight);
        assert(base + flat(0, f) =~= base);
        for x in 0..parcels.len()
            invariant
                parcels@ == self.parcels(),
                f == parcel_term(self.parcels(), sel, part, weight),
                terms@ == base + flat(x as nat, f),
        {
            let parcel = parcels[x];
            if is_parcel_chosen(sel, parcel) {
                let column = match part {
                    ParcelPart::Quantity => ParcelColumn::Quantity { stream: parcel.stream, position: parcel.position },
                    ParcelPart::Assigned => ParcelColumn::Assigned { stream: parcel.stream, position: parcel.position },
                    ParcelPart::Remainder => ParcelColumn::Remainder { stream: parcel.stream, position: parcel.position },
                };
                terms.push((column, weight));
            }
            assert(terms@ =~= base + (flat(x as nat, f) + f(x as int)));
        }
    }

    pub fn add_reclaims(
        &self,
        terms: &mut Vec<(ParcelColumn, N)>,
        reclaims: &Vec<ReclaimVariable<N>>,
        sel: ReclaimSelector,
        weight: N,
    )
        requires
            reclaims@ == self.reclaims(),
        ensures
            final(terms)@ == old(terms)@ + self.reclaim_terms(sel, weight),
    {
        let ghost base = terms@;
        let ghost f = reclaim_term(self.reclaims(), sel, weight);
        assert(base + flat(0, f) =~= base);
        for x in 0..reclaims.len()
            invariant
                reclaims@ == self.reclaims(),
                f == reclaim_term(self.reclaims(), sel, weight),
                terms@ == base + flat(x as nat, f),
        {
            if reclaims[x].share == 0 && is_reclaim_chosen(sel, &reclaims[x]) {
                terms.push((reclaims[x].column, weight));
            }
            assert(terms@ =~= base + (flat(x as nat, f) + f(x as int)));
        }
    }

    pub fn add_moves(&self, terms: &mut Vec<(ParcelColumn, N)>, moves: &Vec<MoveVariable>, sel: MoveSelector, weight: N)
        requires
            moves@ == self.moves(),
            forall|x: int| 0 <= x < moves@.len() ==> self.move_stands(#[trigger] moves@[x]),
        ensures
            final(terms)@ == old(terms)@ + self.move_terms(sel, weight),
    {
        let ghost base = terms@;
        let ghost f = self.move_term(sel, weight);
        assert(base + flat(0, f) =~= base);
        for x in 0..moves.len()
            invariant
                moves@ == self.moves(),
                forall|x: int| 0 <= x < moves@.len() ==> self.move_stands(#[trigger] moves@[x]),
                f == self.move_term(sel, weight),
                terms@ == base + flat(x as nat, f),
        {
            let m = moves[x];
            if self.is_move_chosen(sel, m) {
                let share = match sel {
                    MoveSelector::Truck { .. } => self.input.movements[m.candidate].truck_hours_per_tonne,
                    _ => weight,
                };
                terms.push((m.column, share));
            }
            assert(terms@ =~= base + (flat(x as nat, f) + f(x as int)));
        }
    }
}

} // verus!
