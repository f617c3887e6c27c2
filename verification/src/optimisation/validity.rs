//! Which inputs are accepted, told of their entries alone.
use vstd::prelude::*;

use crate::listing::{first_from, has_key, sum_to};
use crate::optimisation::ids::{DestinationKind, SourceId};
use crate::optimisation::input::{
    lot_tonnes, rate_check, share_check, share_fraction, shares_error, value_to, MaterialShare, OptimisationInput,
    Stockpile, TaskKind,
};
use crate::scalar::{shrunk, Fixed, Scalar, STEPS};

verus! {

proof fn none_first<E>(i: int, n: int, f: spec_fn(int) -> Option<E>)
    ensures
        first_from(i, n, f) is None <==> forall|k: int| i <= k < n ==> (#[trigger] f(k)) is None,
    decreases n - i,
{
    if i < n && f(i) is None {
        none_first(i + 1, n, f);
    }
}

/// Above zero, and in range.
pub open spec fn above_zero(value: Fixed) -> bool {
    0 < value.0 < i64::MAX
}

/// Not below zero, and in range.
pub open spec fn from_zero(value: Fixed) -> bool {
    0 <= value.0 < i64::MAX
}

/// The fraction of each share.
pub open spec fn fractions(shares: Seq<MaterialShare<Fixed>>) -> spec_fn(int) -> Option<Fixed> {
    |k: int| Some(shares[k].fraction)
}

/// A composition: shares of different materials that there are, each above
/// zero, that make up the whole to a tolerance.
pub open spec fn makes_up(input: OptimisationInput<Fixed>, shares: Seq<MaterialShare<Fixed>>) -> bool {
    let total = sum_to(shares.len(), fractions(shares));
    &&& shares.len() > 0
    &&& forall|a: int, b: int|
        0 <= a < b < shares.len() ==> (#[trigger] shares[a]).material != (#[trigger] shares[b]).material
    &&& forall|k: int|
        0 <= k < shares.len() ==> above_zero((#[trigger] shares[k]).fraction) && exists|m: int|
            0 <= m < input.materials@.len() && (#[trigger] input.materials@[m]).id == shares[k].material
    &&& i64::MIN < total.0 < i64::MAX
    &&& !input.horizon.tolerances.tonnes_t.below(total.minus(Fixed(STEPS as i64)).magnitude())
}

proof fn shares_make_up(input: OptimisationInput<Fixed>, shares: Seq<MaterialShare<Fixed>>)
    ensures
        shares_error(shares, input.materials@, input.horizon.tolerances.tonnes_t) is None <==> makes_up(input, shares),
{
    let check = share_check(shares, input.materials@);
    none_first(0, shares.len() as int, check);
    assert(share_fraction(shares) =~= fractions(shares));
    assert forall|k: int| 0 <= k < shares.len() implies (#[trigger] check(k) is None <==> above_zero(shares[k].fraction)
        && exists|m: int|
        0 <= m < input.materials@.len() && (#[trigger] input.materials@[m]).id == shares[k].material) by {
        let key = shares[k].material.0;
        if has_key(input.materials@, key) {
            let m = choose|m: int| 0 <= m < input.materials@.len() && (#[trigger] input.materials@[m]).id.0 == key;
            assert(input.materials@[m].id == shares[k].material);
        }
        if exists|m: int| 0 <= m < input.materials@.len() && (#[trigger] input.materials@[m]).id == shares[k].material {
            let m = choose|m: int|
                0 <= m < input.materials@.len() && (#[trigger] input.materials@[m]).id == shares[k].material;
            assert(input.materials@[m].id.0 == key);
        }
    }
    assert(Fixed::of_whole(1).0 == STEPS);
    if shares_error(shares, input.materials@, input.horizon.tolerances.tonnes_t) is None {
        assert forall|k: int| 0 <= k < shares.len() implies above_zero((#[trigger] shares[k]).fraction) && exists|m: int|
            0 <= m < input.materials@.len() && (#[trigger] input.materials@[m]).id == shares[k].material by {
            assert(check(k) is None);
        }
    }
}

/// The intervals follow one another from the start to the end of the horizon,
/// to a billionth of an hour, and each takes time.
pub open spec fn intervals_run(input: OptimisationInput<Fixed>) -> bool {
    let n = input.intervals@.len();
    let gap = |a: Fixed, b: Fixed| a.minus(b).magnitude().0 <= 1;
    &&& n > 0
    &&& forall|i: int|
        0 <= i < n ==> {
            let interval = #[trigger] input.intervals@[i];
            &&& interval.index == i
            &&& interval.start_h.0 < interval.end_h.0
            &&& i64::MIN < interval.end_h.0 < i64::MAX
            &&& gap(
                interval.start_h,
                if i == 0 {
                    Fixed(0)
                } else {
                    input.intervals@[i - 1].end_h
                },
            )
        }
    &&& gap(input.intervals@[n - 1].end_h, input.horizon.end_h)
}

proof fn intervals_are_checked(input: OptimisationInput<Fixed>)
    ensures
        input.intervals_error() is None <==> intervals_run(input),
{
    let n = input.intervals@.len();
    let check = input.interval_check();
    none_first(0, n as int, check);
    assert(Fixed::of_decimal(1, 9).0 == 1) by {
        reveal_with_fuel(shrunk, 10);
    }
    if n > 0 {
        assert forall|i: int| 0 <= i < n implies (#[trigger] check(i) is None <==> {
            let interval = input.intervals@[i];
            &&& interval.index == i
            &&& interval.start_h.0 < interval.end_h.0
            &&& i64::MIN < interval.end_h.0 < i64::MAX
            &&& interval.start_h.minus(
                if i == 0 {
                    Fixed(0)
                } else {
                    input.intervals@[i - 1].end_h
                },
            ).magnitude().0 <= 1
        }) by {}
        if input.intervals_error() is None {
            assert forall|i: int| 0 <= i < n implies {
                let interval = #[trigger] input.intervals@[i];
                &&& interval.index == i
                &&& interval.start_h.0 < interval.end_h.0
                &&& i64::MIN < interval.end_h.0 < i64::MAX
                &&& interval.start_h.minus(
                    if i == 0 {
                        Fixed(0)
                    } else {
                        input.intervals@[i - 1].end_h
                    },
                ).magnitude().0 <= 1
            } by {
                assert(check(i) is None);
            }
        }
    }
}

/// No two materials, loaders, tasks, blocks, piles, destinations or truck
/// classes share a number.
pub open spec fn numbers_differ(input: OptimisationInput<Fixed>) -> bool {
    &&& forall|a: int, b: int|
        0 <= a < b < input.materials@.len() ==> (#[trigger] input.materials@[a]).id != (#[trigger] input.materials@[b]).id
    &&& forall|a: int, b: int|
        0 <= a < b < input.loaders@.len() ==> (#[trigger] input.loaders@[a]).id != (#[trigger] input.loaders@[b]).id
    &&& forall|a: int, b: int|
        0 <= a < b < input.tasks@.len() ==> (#[trigger] input.tasks@[a]).id != (#[trigger] input.tasks@[b]).id
    &&& forall|a: int, b: int|
        0 <= a < b < input.ground@.len() ==> (#[trigger] input.ground@[a]).id != (#[trigger] input.ground@[b]).id
    &&& forall|a: int, b: int|
        0 <= a < b < input.stockpiles@.len() ==> (#[trigger] input.stockpiles@[a]).id != (
        #[trigger] input.stockpiles@[b]).id
    &&& forall|a: int, b: int|
        0 <= a < b < input.destinations@.len() ==> (#[trigger] input.destinations@[a]).id != (
        #[trigger] input.destinations@[b]).id
    &&& forall|a: int, b: int|
        0 <= a < b < input.trucks@.len() ==> (#[trigger] input.trucks@[a]).id != (#[trigger] input.trucks@[b]).id
}

proof fn numbers_are_checked(input: OptimisationInput<Fixed>)
    ensures
        input.duplicate_error() is None <==> numbers_differ(input),
{
}

/// A block holds something, of materials that make up the whole.
pub open spec fn block_stands(input: OptimisationInput<Fixed>, g: int) -> bool {
    above_zero(input.ground@[g].tonnes_t) && makes_up(input, input.ground@[g].material@)
}

/// What each lot of a pile holds.
pub open spec fn lots(pile: Stockpile<Fixed>) -> spec_fn(int) -> Option<Fixed> {
    |k: int| Some(pile.opening@[k].tonnes_t)
}

/// A pile's lots have different numbers, each holds something of materials that
/// make up the whole, and together they fit into the pile.
pub open spec fn pile_stands(input: OptimisationInput<Fixed>, p: int) -> bool {
    let pile = input.stockpiles@[p];
    &&& from_zero(pile.capacity_t)
    &&& forall|a: int, b: int|
        0 <= a < b < pile.opening@.len() ==> (#[trigger] pile.opening@[a]).id != (#[trigger] pile.opening@[b]).id
    &&& forall|k: int|
        0 <= k < pile.opening@.len() ==> above_zero((#[trigger] pile.opening@[k]).tonnes_t) && makes_up(
            input,
            pile.opening@[k].material@,
        )
    &&& !pile.capacity_t.plus(input.horizon.tolerances.tonnes_t).below(sum_to(pile.opening@.len(), lots(pile)))
}

proof fn pile_is_checked(input: OptimisationInput<Fixed>, p: int)
    ensures
        input.pile_error(input.stockpiles@[p]) is None <==> pile_stands(input, p),
{
    let pile = input.stockpiles@[p];
    let check = input.lot_check(pile.opening@);
    none_first(0, pile.opening@.len() as int, check);
    assert(lot_tonnes(pile.opening@) =~= lots(pile));
    assert forall|k: int| 0 <= k < pile.opening@.len() implies (#[trigger] check(k) is None <==> above_zero(
        pile.opening@[k].tonnes_t,
    ) && makes_up(input, pile.opening@[k].material@)) by {
        shares_make_up(input, pile.opening@[k].material@);
    }
    if input.pile_error(pile) is None {
        assert forall|k: int| 0 <= k < pile.opening@.len() implies above_zero((#[trigger] pile.opening@[k]).tonnes_t)
            && makes_up(input, pile.opening@[k].material@) by {
            assert(check(k) is None);
        }
    }
}

/// A loader has rates for every interval, in their order, none below zero.
pub open spec fn loader_stands(input: OptimisationInput<Fixed>, l: int) -> bool {
    let rates = input.loaders@[l].rates@;
    &&& rates.len() == input.intervals@.len()
    &&& forall|k: int|
        0 <= k < rates.len() ==> (#[trigger] rates[k]).interval == k && from_zero(rates[k].dig_tph) && from_zero(
            rates[k].reclaim_tph,
        )
}

proof fn loader_is_checked(input: OptimisationInput<Fixed>, l: int)
    ensures
        input.loader_error(input.loaders@[l]) is None <==> loader_stands(input, l),
{
    let rates = input.loaders@[l].rates@;
    let check = rate_check(rates);
    none_first(0, rates.len() as int, check);
    if input.loader_error(input.loaders@[l]) is None {
        assert forall|k: int| 0 <= k < rates.len() implies (#[trigger] rates[k]).interval == k && from_zero(
            rates[k].dig_tph,
        ) && from_zero(rates[k].reclaim_tph) by {
            assert(check(k) is None);
        }
    }
}

/// A task is of a loader that there is, in a window that takes time, and digs
/// blocks that there are, or reclaims from piles that there are up to a maximum
/// that is above zero.
pub open spec fn task_stands(input: OptimisationInput<Fixed>, t: int) -> bool {
    let task = input.tasks@[t];
    &&& has_key(input.loaders@, task.loader.0)
    &&& from_zero(task.window_start_h)
    &&& task.window_start_h.0 < task.window_end_h.0 < i64::MAX
    &&& match task.kind {
        TaskKind::Dig { sequence } => sequence@.len() > 0 && forall|k: int|
            0 <= k < sequence@.len() ==> has_key(input.ground@, (#[trigger] sequence@[k]).0),
        TaskKind::Reclaim { approved_sources, maximum_t } => {
            &&& approved_sources@.len() > 0
            &&& forall|k: int|
                0 <= k < approved_sources@.len() ==> has_key(input.stockpiles@, (#[trigger] approved_sources@[k]).0)
            &&& maximum_t matches Some(maximum) ==> above_zero(maximum)
        },
    }
}

proof fn task_is_checked(input: OptimisationInput<Fixed>, t: int)
    ensures
        input.task_error(input.tasks@[t]) is None <==> task_stands(input, t),
{
}

/// A destination's limits are not below zero, and one that is a pile is a pile
/// that there is, with a capacity.
pub open spec fn destination_stands(input: OptimisationInput<Fixed>, d: int) -> bool {
    let destination = input.destinations@[d];
    &&& destination.capacity_t matches Some(capacity) ==> from_zero(capacity)
    &&& destination.kind matches DestinationKind::Stockpile(pile) ==> destination.capacity_t is Some && has_key(
        input.stockpiles@,
        pile.0,
    )
    &&& forall|day: int|
        0 <= day < destination.crusher_daily_t@.len() ==> (#[trigger] destination.crusher_daily_t@[day] matches Some(
            limit,
        ) ==> from_zero(limit))
}

proof fn destination_is_checked(input: OptimisationInput<Fixed>, d: int)
    ensures
        input.destination_error(input.destinations@[d]) is None <==> destination_stands(input, d),
{
    let destination = input.destinations@[d];
    if input.destination_error(destination) is None {
        assert forall|day: int| 0 <= day < destination.crusher_daily_t@.len() implies (
        #[trigger] destination.crusher_daily_t@[day] matches Some(limit) ==> from_zero(limit)) by {}
    }
}

/// A truck class has hours for every interval, none below zero.
pub open spec fn truck_stands(input: OptimisationInput<Fixed>, t: int) -> bool {
    let hours = input.trucks@[t].hours@;
    hours.len() == input.intervals@.len() && forall|k: int| 0 <= k < hours.len() ==> from_zero(#[trigger] hours[k])
}

/// A movement is of a loader, a material, a destination, a truck class and a
/// source that there are, takes trucks some time, and is worth what is in range.
pub open spec fn movement_stands(input: OptimisationInput<Fixed>, c: int) -> bool {
    let movement = input.movements@[c];
    &&& has_key(input.loaders@, movement.loader.0)
    &&& has_key(input.materials@, movement.material.0)
    &&& has_key(input.destinations@, movement.destination.0)
    &&& has_key(input.trucks@, movement.truck.0)
    &&& match movement.source {
        SourceId::Ground(ground) => has_key(input.ground@, ground.0),
        SourceId::Stockpile(pile) => has_key(input.stockpiles@, pile.0),
    }
    &&& above_zero(movement.truck_hours_per_tonne)
    &&& value_to(movement.cashflow@, movement.cashflow@.len()) is Some
}

/// An input is accepted exactly where its intervals run from the start to the
/// end of the horizon, its numbers differ, and each of its entries stands.
pub proof fn inputs_are_accepted(input: OptimisationInput<Fixed>)
    ensures
        input.error() is None <==> {
            &&& intervals_run(input)
            &&& numbers_differ(input)
            &&& forall|g: int| 0 <= g < input.ground@.len() ==> #[trigger] block_stands(input, g)
            &&& forall|p: int| 0 <= p < input.stockpiles@.len() ==> #[trigger] pile_stands(input, p)
            &&& forall|l: int| 0 <= l < input.loaders@.len() ==> #[trigger] loader_stands(input, l)
            &&& forall|t: int| 0 <= t < input.tasks@.len() ==> #[trigger] task_stands(input, t)
            &&& forall|d: int| 0 <= d < input.destinations@.len() ==> #[trigger] destination_stands(input, d)
            &&& forall|t: int| 0 <= t < input.trucks@.len() ==> #[trigger] truck_stands(input, t)
            &&& forall|c: int| 0 <= c < input.movements@.len() ==> #[trigger] movement_stands(input, c)
        },
{
    intervals_are_checked(input);
    numbers_are_checked(input);
    let (ground, piles, loaders, tasks) = (
        input.ground_check(),
        input.pile_check(),
        input.loader_check(),
        input.task_check(),
    );
    let (destinations, trucks, movements) = (
        input.destination_check(),
        input.truck_check(),
        input.movement_check(),
    );
    none_first(0, input.ground@.len() as int, ground);
    none_first(0, input.stockpiles@.len() as int, piles);
    none_first(0, input.loaders@.len() as int, loaders);
    none_first(0, input.tasks@.len() as int, tasks);
    none_first(0, input.destinations@.len() as int, destinations);
    none_first(0, input.trucks@.len() as int, trucks);
    none_first(0, input.movements@.len() as int, movements);
    assert forall|g: int|
        #![trigger ground(g)]
        #![trigger block_stands(input, g)]
        ground(g) is None <==> block_stands(input, g) by {
        shares_make_up(input, input.ground@[g].material@);
    }
    assert forall|p: int|
        #![trigger piles(p)]
        #![trigger pile_stands(input, p)]
        piles(p) is None <==> pile_stands(input, p) by {
        pile_is_checked(input, p);
    }
    assert forall|l: int|
        #![trigger loaders(l)]
        #![trigger loader_stands(input, l)]
        loaders(l) is None <==> loader_stands(input, l) by {
        loader_is_checked(input, l);
    }
    assert forall|t: int|
        #![trigger tasks(t)]
        #![trigger task_stands(input, t)]
        tasks(t) is None <==> task_stands(input, t) by {
        task_is_checked(input, t);
    }
    assert forall|d: int|
        #![trigger destinations(d)]
        #![trigger destination_stands(input, d)]
        destinations(d) is None <==> destination_stands(input, d) by {
        destination_is_checked(input, d);
    }
    assert forall|t: int|
        #![trigger trucks(t)]
        #![trigger truck_stands(input, t)]
        trucks(t) is None <==> truck_stands(input, t) by {}
    assert forall|c: int|
        #![trigger movements(c)]
        #![trigger movement_stands(input, c)]
        movements(c) is None <==> movement_stands(input, c) by {}
}

} // verus!
