//! What columns are worth: first in money, then in preference.
use vstd::prelude::*;

use crate::listing::{folded, sum_to};
use crate::optimisation::blended::report::{bump, one_more};
use crate::optimisation::parcel::base::Parcels;
use crate::optimisation::parcel::columns::{Group, ParcelColumn, StreamKey};
use crate::optimisation::parcel::lists::{in_group, is_in_group, Lists};
use crate::optimisation::parcel::publish::receipts::{find_worth, worth};
use crate::scalar::Scalar;

verus! {

/// Costs and values multiplied and added up.
pub open spec fn dot_part<N: Scalar>(costs: Seq<N>, values: Seq<N>) -> spec_fn(int) -> Option<N> {
    |x: int| Some(costs[x].times(values[x]))
}

/// What values are worth at given costs.
pub fn dot<N: Scalar>(costs: &Vec<N>, values: &Vec<N>) -> (r: N)
    requires
        costs@.len() == values@.len(),
    ensures
        r == sum_to(costs@.len(), dot_part(costs@, values@)),
{
    let mut total = N::whole(0);
    for x in 0..costs.len()
        invariant
            costs@.len() == values@.len(),
            total == sum_to(x as nat, dot_part(costs@, values@)),
    {
        total = total.add(costs[x].mul(values[x]));
    }
    total
}

impl<'a, N: Scalar> Parcels<'a, N> {
    pub open spec fn worth_step(self, column: ParcelColumn) -> spec_fn(N, int) -> N {
        |total: N, x: int|
            if self.moves()[x].column == column {
                total.plus(worth(self.candidate(self.moves()[x].candidate as int)))
            } else {
                total
            }
    }

    /// What a unit of a column is worth.
    pub open spec fn primary_cost(self, column: ParcelColumn) -> N {
        folded(self.moves().len(), N::of_whole(0), self.worth_step(column))
    }

    pub open spec fn preference_step(self, column: ParcelColumn) -> spec_fn(N, int) -> N {
        |total: N, x: int|
            {
                let candidate = self.candidate(self.moves()[x].candidate as int);
                if self.moves()[x].column == column {
                    total.plus(
                        N::of_whole(1).minus(N::of_whole(candidate.routing_preference as u64)).minus(
                            candidate.truck_hours_per_tonne,
                        ),
                    )
                } else {
                    total
                }
            }
    }

    pub open spec fn positions_step(self, stream: StreamKey) -> spec_fn(usize, int) -> usize {
        |found: usize, x: int|
            if in_group(stream, self.groups()[x]) {
                self.groups()[x].positions
            } else {
                found
            }
    }

    /// How many positions the cell of a stream has.
    pub open spec fn positions_of(self, stream: StreamKey) -> usize {
        folded(self.groups().len(), 0usize, self.positions_step(stream))
    }

    /// The number of a parcel among those of its pile and interval.
    pub open spec fn parcel_number(self, stream: StreamKey, position: usize) -> N {
        N::of_whole(stream.segment as u64).times(N::of_whole(one_more(self.positions_of(stream)) as u64)).plus(
            N::of_whole(position as u64),
        )
    }

    pub open spec fn cycle_step(self, stream: StreamKey) -> spec_fn(Option<N>, int) -> Option<N> {
        |least: Option<N>, c: int|
            {
                let candidate = self.candidate(c);
                if candidate.source == stream.source && candidate.material == stream.material && self.ends_on(
                    candidate.destination,
                    stream.pile,
                ) {
                    Some(
                        match least {
                            Some(hours) => hours.lower(candidate.truck_hours_per_tonne),
                            None => candidate.truck_hours_per_tonne,
                        },
                    )
                } else {
                    least
                }
            }
    }

    /// The fewest hours that a tonne of a stream takes.
    pub open spec fn shortest_cycle(self, stream: StreamKey) -> N {
        match folded(self.input.movements@.len(), None, self.cycle_step(stream)) {
            Some(hours) => hours,
            None => N::of_whole(0),
        }
    }

    pub open spec fn delay_step(self, column: ParcelColumn) -> spec_fn(N, int) -> N {
        |total: N, x: int|
            {
                let parcel = self.parcels()[x];
                if column == (ParcelColumn::Quantity { stream: parcel.stream, position: parcel.position }) {
                    total.minus(
                        self.parcel_number(parcel.stream, parcel.position).plus(N::of_whole(1)).times(
                            self.shortest_cycle(parcel.stream),
                        ),
                    )
                } else {
                    total
                }
            }
    }

    /// How much a unit of a column is preferred: routes by preference and short
    /// hauls, parcels by coming early.
    pub open spec fn secondary_cost(self, column: ParcelColumn) -> N {
        folded(
            self.parcels().len(),
            folded(self.moves().len(), N::of_whole(0), self.preference_step(column)),
            self.delay_step(column),
        )
    }

    fn find_positions_of(&self, groups: &Vec<Group>, stream: StreamKey) -> (r: usize)
        requires
            groups@ == self.groups(),
        ensures
            r == self.positions_of(stream),
    {
        let mut found: usize = 0;
        let ghost step = self.positions_step(stream);
        for x in 0..groups.len()
            invariant
                groups@ == self.groups(),
                step == self.positions_step(stream),
                found == folded(x as nat, 0usize, step),
        {
            if is_in_group(stream, groups[x]) {
                found = groups[x].positions;
            }
        }
        found
    }

    fn find_shortest_cycle(&self, stream: StreamKey) -> (r: N)
        ensures
            r == self.shortest_cycle(stream),
    {
        let mut least: Option<N> = None;
        let ghost step = self.cycle_step(stream);
        for c in 0..self.input.movements.len()
            invariant
                step == self.cycle_step(stream),
                least == folded(c as nat, None, step),
        {
            let candidate = &self.input.movements[c];
            if candidate.source == stream.source && candidate.material == stream.material && self.does_end_on(
                candidate.destination,
                stream.pile,
            ) {
                least = Some(
                    match least {
                        Some(hours) => hours.smaller(candidate.truck_hours_per_tonne),
                        None => candidate.truck_hours_per_tonne,
                    },
                );
            }
        }
        match least {
            Some(hours) => hours,
            None => N::whole(0),
        }
    }

    fn find_primary(&self, lists: &Lists<N>, column: ParcelColumn) -> (r: N)
        requires
            self.listed(*lists),
        ensures
            r == self.primary_cost(column),
    {
        let mut total = N::whole(0);
        let ghost step = self.worth_step(column);
        for x in 0..lists.moves.len()
            invariant
                self.listed(*lists),
                step == self.worth_step(column),
                total == folded(x as nat, N::of_whole(0), step),
        {
            if lists.moves[x].column == column {
                total = total.add(find_worth(&self.input.movements[lists.moves[x].candidate]));
            }
        }
        total
    }

    fn find_secondary(&self, lists: &Lists<N>, column: ParcelColumn) -> (r: N)
        requires
            self.listed(*lists),
        ensures
            r == self.secondary_cost(column),
    {
        let mut total = N::whole(0);
        let ghost step = self.preference_step(column);
        for x in 0..lists.moves.len()
            invariant
                self.listed(*lists),
                step == self.preference_step(column),
                total == folded(x as nat, N::of_whole(0), step),
        {
            if lists.moves[x].column == column {
                let candidate = &self.input.movements[lists.moves[x].candidate];
                total = total.add(
                    N::whole(1).sub(N::whole(candidate.routing_preference as u64)).sub(
                        candidate.truck_hours_per_tonne,
                    ),
                );
            }
        }
        let ghost start = total;
        let ghost next = self.delay_step(column);
        for x in 0..lists.parcels.len()
            invariant
                self.listed(*lists),
                next == self.delay_step(column),
                total == folded(x as nat, start, next),
        {
            let parcel = lists.parcels[x];
            if column == (ParcelColumn::Quantity { stream: parcel.stream, position: parcel.position }) {
                let positions: usize = bump(self.find_positions_of(&lists.groups, parcel.stream));
                let number = N::whole(parcel.stream.segment as u64).mul(N::whole(positions as u64)).add(
                    N::whole(parcel.position as u64),
                );
                total = total.sub(number.add(N::whole(1)).mul(self.find_shortest_cycle(parcel.stream)));
            }
        }
        total
    }

    /// What every column is worth, and how much it is preferred.
    pub fn costs(&self, lists: &Lists<N>, columns: &Vec<ParcelColumn>) -> (r: (Vec<N>, Vec<N>))
        requires
            self.listed(*lists),
        ensures
            r.0@ == Seq::new(columns@.len(), |k: int| self.primary_cost(columns@[k])),
            r.1@ == Seq::new(columns@.len(), |k: int| self.secondary_cost(columns@[k])),
    {
        let mut primary: Vec<N> = Vec::new();
        let mut secondary: Vec<N> = Vec::new();
        for k in 0..columns.len()
            invariant
                self.listed(*lists),
                primary@ =~= Seq::new(k as nat, |k: int| self.primary_cost(columns@[k])),
                secondary@ =~= Seq::new(k as nat, |k: int| self.secondary_cost(columns@[k])),
        {
            primary.push(self.find_primary(lists, columns[k]));
            secondary.push(self.find_secondary(lists, columns[k]));
        }
        (primary, secondary)
    }
}

} // verus!
