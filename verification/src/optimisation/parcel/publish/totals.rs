//! What published results add up to.
use vstd::prelude::*;

use crate::ledger::{amount, held_under, put_reads_back, put_under, rising, Key};
use crate::listing::{folded, last_where, sum_to};
use crate::optimisation::audit::limits::same_sum;
use crate::optimisation::ids::{Activity, DestinationId, DestinationKind, GroundId, LoaderId, SourceId, StockpileId};
use crate::optimisation::input::opening_total;
use crate::optimisation::parcel::base::{dust, Parcels};
use crate::optimisation::parcel::publish::balances::{
    drawn_part, work_part, CarriedSelector, DrawnSelector, WorkSelector,
};
use crate::optimisation::parcel::publish::rows::DigBooks;
use crate::optimisation::result::{ActivityRecord, BalanceRecord, MovementRecord, ReclaimRecord};
use crate::scalar::{Fixed, Scalar};

verus! {

// Balances.

/// Entries that are put under different keys are all held.
proof fn puts_are_held<K: Key, V>(
    n: nat,
    step: spec_fn(Seq<(K, V)>, int) -> Seq<(K, V)>,
    key: spec_fn(int) -> K,
    value: spec_fn(int) -> V,
    at: int,
)
    requires
        forall|held: Seq<(K, V)>, g: int| 0 <= g < n ==> #[trigger] step(held, g) == put_under(held, key(g), value(g)),
        forall|a: int, b: int| 0 <= a < b < n ==> #[trigger] key(a) != #[trigger] key(b),
    ensures
        rising(folded(n, Seq::empty(), step)),
        0 <= at < n ==> held_under(folded(n, Seq::empty(), step), key(at)) == Some(value(at)),
    decreases n,
{
    if n > 0 {
        let m = (n - 1) as nat;
        puts_are_held(m, step, key, value, at);
        put_reads_back(folded(m, Seq::empty(), step), key(m as int), value(m as int), key(at));
    }
}

/// What each activity takes from a source up to an interval.
pub open spec fn worked_until<N>(rows: Seq<ActivityRecord<N>>, source: SourceId, i: int) -> spec_fn(int) -> Option<N> {
    |j: int|
        if rows[j].interval <= i && rows[j].source == source {
            Some(rows[j].tonnes_t)
        } else {
            None
        }
}

/// What each movement brings to a destination up to an interval.
pub open spec fn carried_until<N>(rows: Seq<MovementRecord<N>>, destination: DestinationId, i: int) -> spec_fn(
    int,
) -> Option<N> {
    |j: int|
        if rows[j].interval <= i && rows[j].destination == destination {
            Some(rows[j].tonnes_t)
        } else {
            None
        }
}

/// What each reclaim takes from a pile up to an interval.
pub open spec fn drawn_until<N>(rows: Seq<ReclaimRecord<N>>, pile: StockpileId, i: int) -> spec_fn(int) -> Option<N> {
    |j: int|
        if rows[j].interval <= i && rows[j].stockpile == pile {
            Some(rows[j].tonnes_t)
        } else {
            None
        }
}

/// The balances of an interval say, of a block, what it held less what was
/// worked of it up to then; of a destination, what was brought there up to then;
/// and of a pile that is the last of its kind among the destinations, what it
/// held at the start, with what was brought there and without what was
/// reclaimed.
pub proof fn balances_add_up<N: Scalar>(
    model: Parcels<N>,
    activities: Seq<ActivityRecord<N>>,
    movements: Seq<MovementRecord<N>>,
    reclaims: Seq<ReclaimRecord<N>>,
    i: int,
    record: BalanceRecord<N>,
    g: int,
    p: int,
    d: int,
)
    requires
        model.balanced(activities, movements, reclaims, i, record),
        0 <= i <= usize::MAX,
        forall|a: int, b: int|
            0 <= a < b < model.input.ground@.len() ==> (#[trigger] model.input.ground@[a]).id != (
            #[trigger] model.input.ground@[b]).id,
        forall|a: int, b: int|
            0 <= a < b < model.input.stockpiles@.len() ==> (#[trigger] model.input.stockpiles@[a]).id != (
            #[trigger] model.input.stockpiles@[b]).id,
        forall|a: int, b: int|
            0 <= a < b < model.input.destinations@.len() ==> (#[trigger] model.input.destinations@[a]).id != (
            #[trigger] model.input.destinations@[b]).id,
    ensures
        0 <= g < model.input.ground@.len() ==> held_under(
            record.ground_remaining_t@,
            model.input.ground@[g].id.0 as u64,
        ) == Some(
            model.input.ground@[g].tonnes_t.minus(
                sum_to(activities.len(), worked_until(activities, SourceId::Ground(model.input.ground@[g].id), i)),
            ),
        ),
        0 <= d < model.input.destinations@.len() ==> held_under(
            record.destination_cumulative_t@,
            model.input.destinations@[d].id.0 as u64,
        ) == Some(sum_to(movements.len(), carried_until(movements, model.input.destinations@[d].id, i))),
        0 <= p < model.input.stockpiles@.len() && 0 <= d < model.input.destinations@.len()
            && model.input.destinations@[d].kind == DestinationKind::Stockpile(model.input.stockpiles@[p].id) && (forall|
            e: int,
        |
            d < e < model.input.destinations@.len() ==> (#[trigger] model.input.destinations@[e]).kind
                != DestinationKind::Stockpile(model.input.stockpiles@[p].id)) ==> held_under(
            record.stockpile_closing_t@,
            model.input.stockpiles@[p].id.0 as u64,
        ) == Some(
            opening_total(model.input.stockpiles@[p].opening@).plus(
                sum_to(movements.len(), carried_until(movements, model.input.destinations@[d].id, i)),
            ).minus(sum_to(reclaims.len(), drawn_until(reclaims, model.input.stockpiles@[p].id, i))),
        ),
{
    let blocks = |x: int| model.input.ground@[x].id.0 as u64;
    let piles = |x: int| model.input.stockpiles@[x].id.0 as u64;
    let ends = |x: int| model.input.destinations@[x].id.0 as u64;
    assert forall|a: int, b: int| 0 <= a < b < model.input.ground@.len() implies #[trigger] blocks(a) != #[trigger] blocks(b) by {
        assert(model.input.ground@[a].id != model.input.ground@[b].id);
    }
    assert forall|a: int, b: int| 0 <= a < b < model.input.stockpiles@.len() implies #[trigger] piles(a) != #[trigger] piles(
        b,
    ) by {
        assert(model.input.stockpiles@[a].id != model.input.stockpiles@[b].id);
    }
    assert forall|a: int, b: int| 0 <= a < b < model.input.destinations@.len() implies #[trigger] ends(a) != #[trigger] ends(
        b,
    ) by {
        assert(model.input.destinations@[a].id != model.input.destinations@[b].id);
    }
    let left = |x: int|
        model.input.ground@[x].tonnes_t.minus(
            sum_to(
                activities.len(),
                work_part(
                    activities,
                    WorkSelector::UpTo { interval: i as usize, source: SourceId::Ground(model.input.ground@[x].id) },
                ),
            ),
        );
    puts_are_held(model.input.ground@.len(), model.ground_balance(activities, i), blocks, left, g);
    if 0 <= g < model.input.ground@.len() {
        let source = SourceId::Ground(model.input.ground@[g].id);
        same_sum(
            activities.len(),
            work_part(activities, WorkSelector::UpTo { interval: i as usize, source }),
            worked_until(activities, source, i),
        );
    }
    let reached = |x: int|
        model.carried_sum(
            movements,
            CarriedSelector::UpTo { interval: i as usize, destination: model.input.destinations@[x].id },
        );
    puts_are_held(model.input.destinations@.len(), model.end_balance(movements, i), ends, reached, d);
    if 0 <= d < model.input.destinations@.len() {
        let destination = model.input.destinations@[d].id;
        same_sum(
            movements.len(),
            model.carried_part(movements, CarriedSelector::UpTo { interval: i as usize, destination }),
            carried_until(movements, destination, i),
        );
    }
    let closing = |x: int|
        opening_total(model.input.stockpiles@[x].opening@).plus(
            model.brought(movements, model.input.stockpiles@[x].id, i),
        ).minus(
            sum_to(
                reclaims.len(),
                drawn_part(
                    reclaims,
                    DrawnSelector::UpTo { interval: i as usize, pile: model.input.stockpiles@[x].id },
                ),
            ),
        );
    puts_are_held(model.input.stockpiles@.len(), model.pile_balance(movements, reclaims, i), piles, closing, p);
    if 0 <= p < model.input.stockpiles@.len() {
        let pile = model.input.stockpiles@[p].id;
        same_sum(
            reclaims.len(),
            drawn_part(reclaims, DrawnSelector::UpTo { interval: i as usize, pile }),
            drawn_until(reclaims, pile, i),
        );
        last_is(model, pile, d, model.input.destinations@.len());
    }
}

proof fn last_is<N: Scalar>(model: Parcels<N>, pile: StockpileId, d: int, n: nat)
    requires
        n <= model.input.destinations@.len(),
    ensures
        0 <= d < n && model.input.destinations@[d].kind == DestinationKind::Stockpile(pile) && (forall|e: int|
            d < e < n ==> (#[trigger] model.input.destinations@[e]).kind != DestinationKind::Stockpile(pile))
            ==> last_where(n, model.is_pile(pile)) == Some(d),
    decreases n,
{
    if n > 0 && d < n - 1 {
        last_is(model, pile, d, (n - 1) as nat);
    }
}

// Digging fitted to blocks.

/// Fitting a row to its block makes it what is left of the block where that is
/// within three grains of it, or less, and leaves it as it is otherwise; what is
/// left then is less by as much; and nothing else changes.
pub proof fn digs_are_fitted(model: Parcels<Fixed>, rows: Seq<ActivityRecord<Fixed>>, books: DigBooks<Fixed>, j: int, ground: GroundId, left: Fixed, other: GroundId)
    requires
        0 <= j < rows.len(),
        rows[j].source == SourceId::Ground(ground),
        rising(books.balance),
        held_under(books.balance, ground) == Some(left),
        0 <= left.0,
        0 <= rows[j].tonnes_t.0,
        rows[j].tonnes_t.0 + 3 * dust(*model.input).0 < i64::MAX,
        0 <= dust(*model.input).0,
    ensures
        ({
            let now = model.dig_step(rows)(books, j);
            let row = now.rows.last();
            &&& now.rows.len() == books.rows.len() + 1
            &&& now.rows.drop_last() == books.rows
            &&& row == (ActivityRecord { tonnes_t: row.tonnes_t, ..rows[j] })
            &&& row.tonnes_t.0 == (if left.0 <= rows[j].tonnes_t.0 + 3 * dust(*model.input).0 {
                left.0
            } else {
                rows[j].tonnes_t.0
            })
            &&& rising(now.balance)
            &&& amount(now.balance, ground).0 == left.0 - row.tonnes_t.0
            &&& 0 <= amount(now.balance, ground).0
            &&& other != ground ==> held_under(now.balance, other) == held_under(books.balance, other)
        }),
{
    let (t, d) = (rows[j].tonnes_t.0 as int, dust(*model.input).0 as int);
    let triple = Fixed::of_whole(3).times(dust(*model.input));
    assert(Fixed::of_whole(3).0 == 3_000_000_000);
    assert(triple.0 == 3 * d) by {
        assert((3_000_000_000 * d) / 1_000_000_000 == 3 * d);
    }
    let fills = left.at_most(rows[j].tonnes_t.plus(triple));
    let tonnes = if fills {
        left.upper(Fixed::of_whole(0))
    } else {
        rows[j].tonnes_t
    };
    put_reads_back(books.balance, ground, left.minus(tonnes), other);
    put_reads_back(books.balance, ground, left.minus(tonnes), ground);
    let now = model.dig_step(rows)(books, j);
    assert(now.rows.drop_last() =~= books.rows);
}

// The most that anything is over its limit.

/// A fold that takes the larger at every step is no less than it started with
/// and than what any step looks at.
proof fn fold_is_above(n: nat, start: Fixed, step: spec_fn(Fixed, int) -> Fixed, f: spec_fn(int) -> int, at: int)
    requires
        forall|most: Fixed, k: int| 0 <= k < n ==> (#[trigger] step(most, k)).0 >= most.0 && step(most, k).0 >= f(k),
    ensures
        folded(n, start, step).0 >= start.0,
        0 <= at < n ==> folded(n, start, step).0 >= f(at),
    decreases n,
{
    if n > 0 {
        let m = (n - 1) as nat;
        fold_is_above(m, start, step, f, at);
        let before = folded(m, start, step);
        assert(step(before, m as int).0 >= before.0);
    }
}

/// What each activity of a loader works in a cell.
pub open spec fn worked_in<N>(rows: Seq<ActivityRecord<N>>, loader: LoaderId, activity: Activity, i: int, s: int) -> spec_fn(
    int,
) -> Option<N> {
    |j: int|
        if rows[j].loader == loader && rows[j].interval == i && rows[j].segment == s && rows[j].activity == activity {
            Some(rows[j].tonnes_t)
        } else {
            None
        }
}

/// What a loader digs or reclaims in a cell beyond its rate times the length of
/// the segment.
pub open spec fn over_rate(
    model: Parcels<Fixed>,
    activities: Seq<ActivityRecord<Fixed>>,
    durations: Seq<Vec<Fixed>>,
    l: int,
    activity: Activity,
    i: int,
    s: int,
) -> Fixed {
    let rate = if i < model.input.loaders@[l].rates@.len() {
        match activity {
            Activity::Dig => model.input.loaders@[l].rates@[i].dig_tph,
            Activity::Reclaim => model.input.loaders@[l].rates@[i].reclaim_tph,
        }
    } else {
        Fixed(0)
    };
    sum_to(activities.len(), worked_in(activities, model.input.loaders@[l].id, activity, i, s)).minus(
        rate.times(durations[i]@[s]),
    )
}

/// The most that any loader is over its rates is no less than what each loader
/// is over in each cell.
pub proof fn most_over_rates(
    model: Parcels<Fixed>,
    activities: Seq<ActivityRecord<Fixed>>,
    durations: Seq<Vec<Fixed>>,
    start: Fixed,
    l: int,
    activity: Activity,
    i: int,
    s: int,
)
    requires
        0 <= l < model.input.loaders@.len(),
        0 <= i < model.input.intervals@.len() <= usize::MAX,
        0 <= s < model.segments(i),
    ensures
        folded(model.input.loaders@.len(), start, model.loaders_over(activities, durations)).0 >= over_rate(
            model,
            activities,
            durations,
            l,
            activity,
            i,
            s,
        ).0,
{
    let none = |k: int| i64::MIN as int;
    let in_cell = |k: int| over_rate(model, activities, durations, l, activity, i, k).0 as int;
    let n = activities.len();
    assert forall|ll: int, ii: int, most: Fixed, k: int| #![trigger model.loader_over(activities, durations, ll, ii)(most, k)]
        model.loader_over(activities, durations, ll, ii)(most, k).0 >= most.0 by {}
    let cell = model.loader_over(activities, durations, l, i);
    assert forall|most: Fixed, k: int| 0 <= k < model.segments(i) implies (#[trigger] cell(most, k)).0 >= most.0 && cell(
        most,
        k,
    ).0 >= in_cell(k) by {
        let loader = model.input.loaders@[l].id;
        let (interval, segment) = (i as usize, k as usize);
        same_sum(
            n,
            work_part(activities, WorkSelector::InCell { loader, interval, segment, activity }),
            worked_in(activities, loader, activity, i, k),
        );
    }
    assert forall|ll: int, ii: int, most: Fixed| (#[trigger] folded(
        model.segments(ii),
        most,
        model.loader_over(activities, durations, ll, ii),
    )).0 >= most.0 by {
        let step = model.loader_over(activities, durations, ll, ii);
        assert forall|x: Fixed, k: int| 0 <= k < model.segments(ii) implies (#[trigger] step(x, k)).0 >= x.0 && step(
            x,
            k,
        ).0 >= none(k) by {}
        fold_is_above(model.segments(ii), most, step, none, -1);
    }
    let in_interval = |k: int|
        if k == i {
            in_cell(s)
        } else {
            none(k)
        };
    let intervals = model.loader_interval_over(activities, durations, l);
    assert forall|most: Fixed, k: int| 0 <= k < model.horizon() implies (#[trigger] intervals(most, k)).0 >= most.0
        && intervals(most, k).0 >= in_interval(k) by {
        if k == i {
            fold_is_above(model.segments(i), most, cell, in_cell, s);
        }
    }
    let in_loader = |k: int|
        if k == l {
            in_cell(s)
        } else {
            none(k)
        };
    let loaders = model.loaders_over(activities, durations);
    assert forall|most: Fixed, k: int| 0 <= k < model.input.loaders@.len() implies (#[trigger] loaders(most, k)).0
        >= most.0 && loaders(most, k).0 >= in_loader(k) by {
        let step = model.loader_interval_over(activities, durations, k);
        assert forall|x: Fixed, ii: int| 0 <= ii < model.horizon() implies (#[trigger] step(x, ii)).0 >= x.0 && step(
            x,
            ii,
        ).0 >= none(ii) by {}
        fold_is_above(model.horizon(), most, step, none, -1);
        if k == l {
            fold_is_above(model.horizon(), most, intervals, in_interval, i);
        }
    }
    fold_is_above(model.input.loaders@.len(), start, loaders, in_loader, l);
}

} // verus!
