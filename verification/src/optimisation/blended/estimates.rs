//! What is supposed of the grades that piles deliver, so that a model without
//! products of columns can be solved.
use vstd::prelude::*;

use crate::ledger::{held_under, put_under, Ledger, Pair};
use crate::listing::{find_key, folded, keyed, sum_to};
use crate::optimisation::blended::chunks::{chunk_key, chunk_number, chunks_fit, key_of, number_fits};
use crate::optimisation::blended::formulation::model::{Entry, Line, Sheet};
use crate::optimisation::blended::input::{delivers, delivers_to_pile, entry_or_zero, BlendInput, BlendPile};
use crate::optimisation::blended::report::BlendKey;
use crate::optimisation::ids::{DestinationId, DestinationKind, MaterialId, SourceId, StockpileId};
use crate::optimisation::input::{Destination, GroundSource};
use crate::optimisation::sheet::{equal_row, nil, one, terms_of};
use crate::scalar::Scalar;

verus! {

/// The grade that each pile, or chunk of it, is supposed to deliver in each
/// interval, and what is supposed where nothing is held.
#[derive(Clone, Debug)]
pub struct Estimates<N> {
    pub values: Ledger<BlendKey, N>,
    /// By grade.
    pub fallback: Vec<N>,
}

/// How finely estimates are told apart.
pub open spec fn cycle_resolution<N: Scalar>() -> N {
    N::of_decimal(1, 4)
}

/// An estimate to the resolution at which estimates are told apart.
#[derive(Clone, Copy, Debug, PartialEq, Eq, Structural)]
pub struct Mark {
    pub pile: StockpileId,
    pub key: usize,
    pub grade: usize,
    pub steps: i64,
}

/// The estimate held under a key, or the fallback of its grade.
pub open spec fn estimate<N: Scalar>(values: Seq<(BlendKey, N)>, fallback: Seq<N>, key: BlendKey) -> N {
    match held_under(values, key) {
        Some(value) => value,
        None => entry_or_zero(fallback, key.1.1 as int),
    }
}

/// How far a value is from what is held under its key; nothing held is no
/// distance.
pub open spec fn apart<N: Scalar>(values: Seq<(BlendKey, N)>, key: BlendKey, value: N) -> N {
    value.minus(
        match held_under(values, key) {
            Some(other) => other,
            None => value,
        },
    ).magnitude()
}

pub open spec fn drift_step<N: Scalar>(values: Seq<(BlendKey, N)>, others: Seq<(BlendKey, N)>) -> spec_fn(N, int) -> N {
    |worst: N, i: int| worst.upper(apart(others, values[i].0, values[i].1))
}

pub open spec fn added_step<N: Scalar>(values: Seq<(BlendKey, N)>, others: Seq<(BlendKey, N)>) -> spec_fn(N, int) -> N {
    |worst: N, i: int|
        if held_under(values, others[i].0) is None {
            worst.upper(apart(values, others[i].0, others[i].1))
        } else {
            worst
        }
}

/// The largest change of an estimate.
pub open spec fn drifted<N: Scalar>(values: Seq<(BlendKey, N)>, others: Seq<(BlendKey, N)>) -> N {
    folded(others.len(), folded(values.len(), N::of_whole(0), drift_step(values, others)), added_step(values, others))
}

pub open spec fn mark_of<N: Scalar>(entry: (BlendKey, N)) -> Mark {
    Mark {
        pile: entry.0.0,
        key: entry.0.1.0,
        grade: entry.0.1.1,
        steps: entry.1.over(cycle_resolution()).nearest(),
    }
}

pub open spec fn marks<N: Scalar>(values: Seq<(BlendKey, N)>) -> Seq<Mark> {
    Seq::new(values.len(), |i: int| mark_of(values[i]))
}

/// An estimate after part of the way to what was found.
pub open spec fn damped<N: Scalar>(previous: N, actual: N) -> N {
    previous.plus(N::of_decimal(5, 1).times(actual.minus(previous)))
}

pub open spec fn damp_step<N: Scalar>(
    values: Seq<(BlendKey, N)>,
    fallback: Seq<N>,
    blends: Seq<(BlendKey, N)>,
) -> spec_fn(Seq<(BlendKey, N)>, int) -> Seq<(BlendKey, N)> {
    |after: Seq<(BlendKey, N)>, i: int|
        put_under(after, blends[i].0, damped(estimate(values, fallback, blends[i].0), blends[i].1))
}

/// Every estimate taken part of the way to what was found.
pub open spec fn updated<N: Scalar>(
    values: Seq<(BlendKey, N)>,
    fallback: Seq<N>,
    blends: Seq<(BlendKey, N)>,
) -> Seq<(BlendKey, N)> {
    folded(blends.len(), values, damp_step(values, fallback, blends))
}

/// A line with the grade that is taken set to its estimate.
pub open spec fn fixed_line<N: Scalar>(values: Seq<(BlendKey, N)>, fallback: Seq<N>, line: Line<N>) -> Line<N> {
    match line {
        Line::Mix { pile, key, grade, recl_q, open_t, recl_t, open_q } => equal_row(
            seq![
                (recl_q, one::<N>()),
                (recl_t, estimate(values, fallback, Pair(pile, Pair(key, grade))).opposite()),
            ],
            nil::<N>(),
        ),
        _ => line,
    }
}

impl<N: Scalar> Estimates<N> {
    /// What is supposed of a grade.
    pub fn get(&self, pile: StockpileId, key: usize, grade: usize) -> (r: N)
        ensures
            r == estimate(self.values@, self.fallback@, Pair(pile, Pair(key, grade))),
    {
        match self.values.get(Pair(pile, Pair(key, grade))) {
            Some(value) => value,
            None => if grade < self.fallback.len() {
                self.fallback[grade]
            } else {
                N::whole(0)
            },
        }
    }

    /// The largest change from these estimates to others.
    pub fn drift(&self, other: &Self) -> (r: N)
        ensures
            r == drifted(self.values@, other.values@),
    {
        let mut worst = N::whole(0);
        let ghost first = drift_step(self.values@, other.values@);
        for i in 0..self.values.entries.len()
            invariant
                first == drift_step(self.values@, other.values@),
                worst == folded(i as nat, N::of_whole(0), first),
        {
            let (key, value) = self.values.entries[i];
            assert((key, value) == self.values@[i as int]);
            let held = match other.values.get(key) {
                Some(held) => held,
                None => value,
            };
            worst = worst.larger(value.sub(held).abs());
        }
        let ghost start = worst;
        let ghost second = added_step(self.values@, other.values@);
        for i in 0..other.values.entries.len()
            invariant
                second == added_step(self.values@, other.values@),
                worst == folded(i as nat, start, second),
        {
            let (key, value) = other.values.entries[i];
            assert((key, value) == other.values@[i as int]);
            if self.values.get(key).is_none() {
                worst = worst.larger(value.sub(value).abs());
            }
        }
        worst
    }

    /// The estimates as marks.
    pub fn fingerprint(&self) -> (r: Vec<Mark>)
        ensures
            r@ == marks(self.values@),
    {
        let mut out: Vec<Mark> = Vec::new();
        for i in 0..self.values.entries.len()
            invariant
                out@ =~= marks(self.values@).take(i as int),
        {
            let (key, value) = self.values.entries[i];
            assert((key, value) == self.values@[i as int]);
            out.push(
                Mark { pile: key.0, key: key.1.0, grade: key.1.1, steps: value.div(N::decimal(1, 4)).round() },
            );
        }
        assert(out@ =~= marks(self.values@));
        out
    }

    /// These estimates taken part of the way to what was found.
    pub fn toward(&self, blends: &Ledger<BlendKey, N>) -> (r: Self)
        ensures
            r.values@ == updated(self.values@, self.fallback@, blends@),
            r.fallback@ == self.fallback@,
    {
        let mut values = self.values.copy();
        let ghost step = damp_step(self.values@, self.fallback@, blends@);
        for i in 0..blends.entries.len()
            invariant
                step == damp_step(self.values@, self.fallback@, blends@),
                values@ == folded(i as nat, self.values@, step),
        {
            let (key, actual) = blends.entries[i];
            assert((key, actual) == blends@[i as int]);
            let previous = self.get(key.0, key.1.0, key.1.1);
            values.put(key, previous.add(N::decimal(5, 1).mul(actual.sub(previous))));
        }
        Estimates { values, fallback: crate::listing::copied(&self.fallback) }
    }

    /// A model with the grades that are taken set to their estimates.
    pub fn fix(&self, sheet: &Sheet<N>) -> (r: Sheet<N>)
        ensures
            r@ == Seq::new(sheet@.len(), |i: int| fixed_line(self.values@, self.fallback@, sheet@[i])),
    {
        let mut out: Sheet<N> = Sheet::new();
        for i in 0..sheet.entries.len()
            invariant
                out@ =~= Seq::new(i as nat, |i: int| fixed_line(self.values@, self.fallback@, sheet@[i])),
        {
            assert(sheet@[i as int] == sheet.entries@[i as int]@);
            match &sheet.entries[i] {
                Entry::Continuous { column, upper, value } => {
                    out.valued(*column, *upper, *value);
                },
                Entry::Binary { column } => {
                    out.binary(*column);
                },
                Entry::Row { terms, lower, upper } => {
                    out.row(crate::listing::copied(terms), *lower, *upper);
                },
                Entry::Mix { pile, key, grade, recl_q, open_t: _, recl_t, open_q: _ } => {
                    let share = self.get(*pile, *key, *grade);
                    out.eq(terms_of(*recl_q, N::whole(1), *recl_t, share.neg()), N::whole(0));
                },
            }
        }
        out
    }
}

/// What a search first supposes.
#[derive(Clone, Copy, Debug, PartialEq, Eq, Structural)]
pub enum StartPolicy {
    /// What a pile holds, or else the average of what can be brought to it.
    OpeningThenSupply,
    /// The least that can be brought to a pile.
    PhysicalFloor,
    /// The most that can be brought to a pile.
    PhysicalCeiling,
}

/// Whether a movement goes to some pile.
pub open spec fn brings<N>(destinations: Seq<Destination<N>>, id: DestinationId) -> bool {
    exists|d: int|
        0 <= d < destinations.len() && (#[trigger] destinations[d]).id == id && destinations[d].kind is Stockpile
}

fn does_bring<N>(destinations: &Vec<Destination<N>>, id: DestinationId) -> (r: bool)
    ensures
        r == brings(destinations@, id),
{
    for d in 0..destinations.len()
        invariant
            forall|q: int|
                0 <= q < d ==> !((#[trigger] destinations@[q]).id == id && destinations@[q].kind is Stockpile),
    {
        if destinations[d].id == id {
            if let DestinationKind::Stockpile(_) = destinations[d].kind {
                assert(destinations@[d as int].id == id);
                return true;
            }
        }
    }
    false
}

/// Whether a movement goes to a pile, or to any where none is named.
pub open spec fn supplies<N>(input: BlendInput<N>, to: Option<StockpileId>, c: int) -> bool {
    match to {
        Some(pile) => delivers(input.movements@[c], pile, input.destinations@),
        None => brings(input.destinations@, input.movements@[c].destination),
    }
}

fn does_supply<N>(input: &BlendInput<N>, to: Option<StockpileId>, c: usize) -> (r: bool)
    requires
        c < input.movements@.len(),
    ensures
        r == supplies(*input, to, c as int),
{
    match to {
        Some(pile) => delivers_to_pile(&input.movements[c], pile, &input.destinations),
        None => does_bring(&input.destinations, input.movements[c].destination),
    }
}

/// Two movements take the same material from the same place.
pub open spec fn same_load<N>(input: BlendInput<N>, b: int, c: int) -> bool {
    input.movements@[b].source == input.movements@[c].source && input.movements@[b].material
        == input.movements@[c].material
}

/// A movement is the first to a pile of what it carries.
pub open spec fn first_supply<N>(input: BlendInput<N>, to: Option<StockpileId>, c: int) -> bool {
    supplies(input, to, c) && forall|b: int|
        0 <= b < c && #[trigger] supplies(input, to, b) ==> !same_load(input, b, c)
}

fn is_first_supply<N>(input: &BlendInput<N>, to: Option<StockpileId>, c: usize) -> (r: bool)
    requires
        c < input.movements@.len(),
    ensures
        r == first_supply(*input, to, c as int),
{
    if !does_supply(input, to, c) {
        return false;
    }
    for b in 0..c
        invariant
            c < input.movements@.len(),
            forall|q: int| 0 <= q < b && #[trigger] supplies(*input, to, q) ==> !same_load(*input, q, c as int),
    {
        if does_supply(input, to, b) && input.movements[b].source == input.movements[c].source
            && input.movements[b].material == input.movements[c].material {
            assert(supplies(*input, to, b as int) && same_load(*input, b as int, c as int));
            return false;
        }
    }
    true
}

pub open spec fn material_share<N: Scalar>(block: GroundSource<N>, material: MaterialId) -> spec_fn(int) -> Option<N> {
    |i: int|
        if block.material@[i].material == material {
            Some(block.material@[i].fraction)
        } else {
            None
        }
}

/// The tonnes of a material in a block. A block that is not told apart by
/// material is all of one.
pub open spec fn tonnes_in_block<N: Scalar>(block: GroundSource<N>, material: MaterialId) -> N {
    if block.material@.len() < 2 {
        block.tonnes_t
    } else {
        block.tonnes_t.times(sum_to(block.material@.len(), material_share(block, material)))
    }
}

fn find_tonnes_in_block<N: Scalar>(block: &GroundSource<N>, material: MaterialId) -> (r: N)
    ensures
        r == tonnes_in_block(*block, material),
{
    if block.material.len() < 2 {
        return block.tonnes_t;
    }
    let mut share = N::whole(0);
    for i in 0..block.material.len()
        invariant
            share == sum_to(i as nat, material_share(*block, material)),
    {
        if block.material[i].material == material {
            share = share.add(block.material[i].fraction);
        }
    }
    block.tonnes_t.mul(share)
}

/// The tonnes that a movement could bring: those of its material in its block,
/// or what its pile holds at the start.
pub open spec fn supply_tonnes<N: Scalar>(input: BlendInput<N>, c: int) -> N {
    match input.movements@[c].source {
        SourceId::Ground(id) => match keyed(input.ground@, id.0) {
            Some(b) => tonnes_in_block(input.ground@[b], input.movements@[c].material),
            None => N::of_whole(0),
        },
        SourceId::Stockpile(id) => match keyed(input.piles@, id.0) {
            Some(p) => input.piles@[p].opening_tonnes(),
            None => N::of_whole(0),
        },
    }
}

/// The share of a grade that a movement brings.
pub open spec fn supply_fraction<N: Scalar>(input: BlendInput<N>, c: int, g: int) -> N {
    match input.grades.fraction_at(input.movements@[c].material, g) {
        Some(fraction) => fraction,
        None => N::of_whole(0),
    }
}

pub open spec fn supply_part<N: Scalar>(input: BlendInput<N>, to: Option<StockpileId>) -> spec_fn(int) -> Option<N> {
    |c: int|
        if first_supply(input, to, c) {
            Some(supply_tonnes(input, c))
        } else {
            None
        }
}

pub open spec fn supply_contained<N: Scalar>(input: BlendInput<N>, to: Option<StockpileId>, g: int) -> spec_fn(
    int,
) -> Option<N> {
    |c: int|
        if first_supply(input, to, c) {
            Some(supply_tonnes(input, c).times(supply_fraction(input, c, g)))
        } else {
            None
        }
}

/// The average of what can be brought to a pile, or to all piles, by tonnes.
pub open spec fn supply_average<N: Scalar>(input: BlendInput<N>, to: Option<StockpileId>, g: int) -> Option<N> {
    let total = sum_to(input.movements@.len(), supply_part(input, to));
    if total.at_most(N::of_whole(0)) {
        None
    } else {
        Some(sum_to(input.movements@.len(), supply_contained(input, to, g)).over(total))
    }
}

pub open spec fn floor_step<N: Scalar>(input: BlendInput<N>, g: int) -> spec_fn(N, int) -> N {
    |least: N, c: int|
        if brings(input.destinations@, input.movements@[c].destination) {
            least.lower(supply_fraction(input, c, g))
        } else {
            least
        }
}

/// The least that can be brought to piles.
pub open spec fn supply_floor<N: Scalar>(input: BlendInput<N>, g: int) -> N {
    let least = folded(input.movements@.len(), N::of_infinity(), floor_step(input, g));
    if least.finite() {
        least
    } else {
        N::of_whole(0)
    }
}

pub open spec fn peak_step<N: Scalar>(input: BlendInput<N>, g: int) -> spec_fn(N, int) -> N {
    |most: N, c: int|
        if brings(input.destinations@, input.movements@[c].destination) {
            most.upper(supply_fraction(input, c, g))
        } else {
            most
        }
}

/// The most that can be brought to piles.
pub open spec fn supply_ceiling<N: Scalar>(input: BlendInput<N>, g: int) -> N {
    folded(input.movements@.len(), N::of_whole(0), peak_step(input, g))
}

/// What is first supposed of a grade where nothing is known.
pub open spec fn first_guess<N: Scalar>(policy: StartPolicy, input: BlendInput<N>, g: int) -> N {
    match policy {
        StartPolicy::OpeningThenSupply => match supply_average(input, None, g) {
            Some(average) => average,
            None => N::of_whole(0),
        },
        StartPolicy::PhysicalFloor => supply_floor(input, g),
        StartPolicy::PhysicalCeiling => supply_ceiling(input, g),
    }
}

/// What is first supposed of a pile, or chunk of it, that holds nothing.
pub open spec fn empty_guess<N: Scalar>(policy: StartPolicy, input: BlendInput<N>, p: int, g: int) -> N {
    if policy is OpeningThenSupply {
        match supply_average(input, Some(input.piles@[p].id), g) {
            Some(average) => average,
            None => first_guess(policy, input, g),
        }
    } else {
        first_guess(policy, input, g)
    }
}

/// What is first supposed of a pile.
pub open spec fn pile_seed<N: Scalar>(policy: StartPolicy, input: BlendInput<N>, p: int, g: int) -> N {
    let pile = input.piles@[p];
    if N::of_whole(0).below(pile.opening_tonnes()) && policy is OpeningThenSupply {
        pile.opening_contained(g).over(pile.opening_tonnes())
    } else {
        empty_guess(policy, input, p, g)
    }
}

/// What is first supposed of a chunk.
pub open spec fn chunk_seed<N: Scalar>(policy: StartPolicy, input: BlendInput<N>, p: int, c: int, g: int) -> N {
    let pile = input.piles@[p];
    match pile.opening_in(c) {
        Some(tonnes) => if N::of_whole(0).below(tonnes) && policy is OpeningThenSupply {
            pile.opening_in_of(c, g).over(tonnes)
        } else {
            empty_guess(policy, input, p, g)
        },
        None => empty_guess(policy, input, p, g),
    }
}

pub open spec fn seed_interval<N: Scalar>(pile: BlendPile<N>, g: int, seed: N) -> spec_fn(Seq<(BlendKey, N)>, int) -> Seq<
    (BlendKey, N),
> {
    |values: Seq<(BlendKey, N)>, k: int| put_under(values, key_of(pile, k, g), seed)
}

pub open spec fn seed_chunk_interval<N: Scalar>(
    pile: BlendPile<N>,
    c: int,
    horizon: nat,
    g: int,
    seed: N,
) -> spec_fn(Seq<(BlendKey, N)>, int) -> Seq<(BlendKey, N)> {
    |values: Seq<(BlendKey, N)>, k: int| put_under(values, key_of(pile, chunk_number(c, k, horizon as int), g), seed)
}

pub open spec fn seed_chunk<N: Scalar>(policy: StartPolicy, input: BlendInput<N>, p: int, g: int) -> spec_fn(
    Seq<(BlendKey, N)>,
    int,
) -> Seq<(BlendKey, N)> {
    |values: Seq<(BlendKey, N)>, c: int|
        folded(
            input.intervals@.len(),
            values,
            seed_chunk_interval(
                input.piles@[p],
                c,
                input.intervals@.len(),
                g,
                chunk_seed(policy, input, p, c, g),
            ),
        )
}

pub open spec fn seed_grade<N: Scalar>(policy: StartPolicy, input: BlendInput<N>, p: int) -> spec_fn(
    Seq<(BlendKey, N)>,
    int,
) -> Seq<(BlendKey, N)> {
    |values: Seq<(BlendKey, N)>, g: int|
        if input.piles@[p].chunks@.len() == 0 {
            folded(
                input.intervals@.len(),
                values,
                seed_interval(input.piles@[p], g, pile_seed(policy, input, p, g)),
            )
        } else {
            folded(input.piles@[p].chunks@.len(), values, seed_chunk(policy, input, p, g))
        }
}

pub open spec fn seed_pile<N: Scalar>(policy: StartPolicy, input: BlendInput<N>) -> spec_fn(Seq<(BlendKey, N)>, int) -> Seq<
    (BlendKey, N),
> {
    |values: Seq<(BlendKey, N)>, p: int|
        folded(input.grades.fields@.len(), values, seed_grade(policy, input, p))
}

/// What is first supposed of every pile, chunk, interval and grade.
pub open spec fn first_values<N: Scalar>(policy: StartPolicy, input: BlendInput<N>) -> Seq<(BlendKey, N)> {
    folded(input.piles@.len(), Seq::empty(), seed_pile(policy, input))
}

pub open spec fn chunks_numbered<N>(input: BlendInput<N>) -> bool {
    forall|p: int|
        0 <= p < input.piles@.len() ==> chunks_fit((#[trigger] input.piles@[p]).chunks@.len(), input.intervals@.len())
}

fn find_fraction<N: Scalar>(input: &BlendInput<N>, c: usize, g: usize) -> (r: N)
    requires
        c < input.movements@.len(),
    ensures
        r == supply_fraction(*input, c as int, g as int),
{
    match input.grades.fraction(input.movements[c].material, g) {
        Some(fraction) => fraction,
        None => N::whole(0),
    }
}

fn find_supply_tonnes<N: Scalar>(input: &BlendInput<N>, c: usize) -> (r: N)
    requires
        c < input.movements@.len(),
    ensures
        r == supply_tonnes(*input, c as int),
{
    match input.movements[c].source {
        SourceId::Ground(id) => match find_key(&input.ground, id.0) {
            Some(b) => find_tonnes_in_block(&input.ground[b], input.movements[c].material),
            None => N::whole(0),
        },
        SourceId::Stockpile(id) => match find_key(&input.piles, id.0) {
            Some(p) => input.piles[p].total_opening(0).0,
            None => N::whole(0),
        },
    }
}

fn find_average<N: Scalar>(input: &BlendInput<N>, to: Option<StockpileId>, g: usize) -> (r: Option<N>)
    ensures
        r == supply_average(*input, to, g as int),
{
    let mut total = N::whole(0);
    let mut held = N::whole(0);
    for c in 0..input.movements.len()
        invariant
            total == sum_to(c as nat, supply_part(*input, to)),
            held == sum_to(c as nat, supply_contained(*input, to, g as int)),
    {
        if is_first_supply(input, to, c) {
            let tonnes = find_supply_tonnes(input, c);
            total = total.add(tonnes);
            held = held.add(tonnes.mul(find_fraction(input, c, g)));
        }
    }
    if total.is_at_most(N::whole(0)) {
        None
    } else {
        Some(held.div(total))
    }
}

fn find_ceiling<N: Scalar>(input: &BlendInput<N>, g: usize) -> (r: N)
    ensures
        r == supply_ceiling(*input, g as int),
{
    let mut most = N::whole(0);
    let ghost step = peak_step(*input, g as int);
    for c in 0..input.movements.len()
        invariant
            step == peak_step(*input, g as int),
            most == folded(c as nat, N::of_whole(0), step),
    {
        if does_bring(&input.destinations, input.movements[c].destination) {
            most = most.larger(find_fraction(input, c, g));
        }
    }
    most
}

fn find_floor<N: Scalar>(input: &BlendInput<N>, g: usize) -> (r: N)
    ensures
        r == supply_floor(*input, g as int),
{
    let mut least = N::infinity();
    let ghost step = floor_step(*input, g as int);
    for c in 0..input.movements.len()
        invariant
            step == floor_step(*input, g as int),
            least == folded(c as nat, N::of_infinity(), step),
    {
        if does_bring(&input.destinations, input.movements[c].destination) {
            least = least.smaller(find_fraction(input, c, g));
        }
    }
    if least.is_finite() {
        least
    } else {
        N::whole(0)
    }
}

impl StartPolicy {
    fn guess<N: Scalar>(self, input: &BlendInput<N>, g: usize) -> (r: N)
        ensures
            r == first_guess(self, *input, g as int),
    {
        match self {
            StartPolicy::OpeningThenSupply => match find_average(input, None, g) {
                Some(average) => average,
                None => N::whole(0),
            },
            StartPolicy::PhysicalFloor => find_floor(input, g),
            StartPolicy::PhysicalCeiling => find_ceiling(input, g),
        }
    }

    fn guess_empty<N: Scalar>(self, input: &BlendInput<N>, p: usize, g: usize, guess: N) -> (r: N)
        requires
            p < input.piles@.len(),
            guess == first_guess(self, *input, g as int),
        ensures
            r == empty_guess(self, *input, p as int, g as int),
    {
        if self == StartPolicy::OpeningThenSupply {
            match find_average(input, Some(input.piles[p].id), g) {
                Some(average) => average,
                None => guess,
            }
        } else {
            guess
        }
    }

    fn seed_chunks<N: Scalar>(self, input: &BlendInput<N>, p: usize, g: usize, guess: N, values: &mut Ledger<BlendKey, N>)
        requires
            p < input.piles@.len(),
            chunks_numbered(*input),
            guess == empty_guess(self, *input, p as int, g as int),
        ensures
            final(values)@ == folded(
                input.piles@[p as int].chunks@.len(),
                old(values)@,
                seed_chunk(self, *input, p as int, g as int),
            ),
    {
        let pile = &input.piles[p];
        let horizon: usize = input.intervals.len();
        let ghost start = values@;
        let ghost step = seed_chunk(self, *input, p as int, g as int);
        for c in 0..pile.chunks.len()
            invariant
                p < input.piles@.len(),
                pile == input.piles@[p as int],
                chunks_numbered(*input),
                horizon == input.intervals@.len(),
                guess == empty_guess(self, *input, p as int, g as int),
                step == seed_chunk(self, *input, p as int, g as int),
                values@ == folded(c as nat, start, step),
        {
            let seed = match pile.chunk_holds(c) {
                Some(tonnes) => if N::whole(0).is_below(tonnes) && self == StartPolicy::OpeningThenSupply {
                    pile.chunk_holds_of(c, g).div(tonnes)
                } else {
                    guess
                },
                None => guess,
            };
            let ghost before = values@;
            let ghost inner = seed_chunk_interval(*pile, c as int, horizon as nat, g as int, seed);
            for k in 0..horizon
                invariant
                    p < input.piles@.len(),
                    pile == input.piles@[p as int],
                    chunks_numbered(*input),
                    c < pile.chunks@.len(),
                    horizon == input.intervals@.len(),
                    inner == seed_chunk_interval(*pile, c as int, horizon as nat, g as int, seed),
                    values@ == folded(k as nat, before, inner),
            {
                proof {
                    number_fits(c as int, k as int, pile.chunks@.len(), horizon as nat);
                }
                values.put(Pair(pile.id, Pair(chunk_key(c, k, horizon), g)), seed);
            }
            assert(values@ == step(before, c as int));
        }
    }

    fn seed_grades<N: Scalar>(self, input: &BlendInput<N>, p: usize, fallback: &Vec<N>, values: &mut Ledger<BlendKey, N>)
        requires
            p < input.piles@.len(),
            chunks_numbered(*input),
            fallback@ == Seq::new(input.grades.fields@.len(), |g: int| first_guess(self, *input, g)),
        ensures
            final(values)@ == seed_pile(self, *input)(old(values)@, p as int),
    {
        let pile = &input.piles[p];
        let grades: usize = input.grades.fields.len();
        let horizon: usize = input.intervals.len();
        let (opening_t, opening_q) = pile.total_opening(grades);
        let ghost start = values@;
        let ghost step = seed_grade(self, *input, p as int);
        for g in 0..grades
            invariant
                p < input.piles@.len(),
                pile == input.piles@[p as int],
                chunks_numbered(*input),
                grades == input.grades.fields@.len(),
                horizon == input.intervals@.len(),
                opening_t == pile.opening_tonnes(),
                opening_q@ == Seq::new(grades as nat, |g: int| pile.opening_contained(g)),
                fallback@ == Seq::new(grades as nat, |g: int| first_guess(self, *input, g)),
                step == seed_grade(self, *input, p as int),
                values@ == folded(g as nat, start, step),
        {
            let ghost before = values@;
            let guess = self.guess_empty(input, p, g, fallback[g]);
            if pile.chunks.len() == 0 {
                let seed = if N::whole(0).is_below(opening_t) && self == StartPolicy::OpeningThenSupply {
                    opening_q[g].div(opening_t)
                } else {
                    guess
                };
                let ghost inner = seed_interval(*pile, g as int, seed);
                for k in 0..horizon
                    invariant
                        inner == seed_interval(*pile, g as int, seed),
                        values@ == folded(k as nat, before, inner),
                {
                    values.put(Pair(pile.id, Pair(k, g)), seed);
                }
            } else {
                self.seed_chunks(input, p, g, guess, values);
            }
            assert(values@ == step(before, g as int));
        }
    }

    /// What a search first supposes of an input.
    pub fn initial<N: Scalar>(self, input: &BlendInput<N>) -> (r: Estimates<N>)
        requires
            chunks_numbered(*input),
        ensures
            r.values@ == first_values(self, *input),
            r.fallback@ == Seq::new(input.grades.fields@.len(), |g: int| first_guess(self, *input, g)),
    {
        let mut fallback: Vec<N> = Vec::new();
        for g in 0..input.grades.fields.len()
            invariant
                fallback@ =~= Seq::new(g as nat, |g: int| first_guess(self, *input, g)),
        {
            fallback.push(self.guess(input, g));
        }
        let mut values: Ledger<BlendKey, N> = Ledger::new();
        let ghost step = seed_pile(self, *input);
        for p in 0..input.piles.len()
            invariant
                chunks_numbered(*input),
                fallback@ == Seq::new(input.grades.fields@.len(), |g: int| first_guess(self, *input, g)),
                step == seed_pile(self, *input),
                values@ == folded(p as nat, Seq::empty(), step),
        {
            self.seed_grades(input, p, &fallback, &mut values);
        }
        Estimates { values, fallback }
    }
}

} // verus!
