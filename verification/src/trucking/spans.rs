//! How the truck-hours of spans go together.
use vstd::prelude::*;

use crate::error::ScheduleError;
use crate::ledger::{held_is_entry, held_under, rising};
use crate::scalar::{held, quotient, Fixed, Scalar, STEPS};
use crate::trucking::calendar::{
    first_none_means_all, next_change_is_first, CalendarPeriod, CalendarView, TruckFleet, SCHEDULE_PERIOD_H,
};
use crate::trucking::transport::{period_holding, stretch_end, supply, supply_from};

verus! {

/// A span without length has no hours.
pub proof fn no_time_no_hours<N: Scalar>(calendar: CalendarView<N>, hour: N)
    requires
        hour.finite(),
        !hour.below(N::of_whole(0)),
    ensures
        supply(calendar, hour, hour) == Ok::<N, ScheduleError>(N::of_whole(0)),
{
    N::comparison_laws(hour, hour, hour);
}

/// A span over which settings do not change has the trucks of its first period
/// for its length, of whatever kind the numbers are.
pub proof fn hours_without_a_change<N: Scalar>(calendar: CalendarView<N>, from: N, to: N)
    requires
        from.finite(),
        to.finite(),
        !from.below(N::of_whole(0)),
        from.below(to),
        stretch_end(calendar, period_holding(from), to) == to,
    ensures
        ({
            let length = to.minus(from).upper(N::of_whole(0));
            let hours = N::of_whole(0).plus(calendar.at(period_holding(from)).effective().times(length));
            supply(calendar, from, to) == (if hours.finite() {
                Ok::<N, ScheduleError>(hours)
            } else {
                Err(ScheduleError::UnrepresentableTransport)
            })
        }),
{
    N::comparison_laws(from, to, to);
    N::comparison_laws(to, to, to);
}

/// A period, in billionths of an hour.
pub const PERIOD_STEPS: u64 = 24_000_000_000;

/// The trucks of a period that turn a wheel, in billionths.
pub open spec fn trucks(calendar: CalendarView<Fixed>, q: int) -> int {
    calendar.at(CalendarPeriod(q as u32)).effective().0 as int
}

/// The truck-hours of the first `q` periods, in billionths of billionths.
pub open spec fn run_whole(calendar: CalendarView<Fixed>, q: int) -> int
    decreases q,
{
    if q <= 0 {
        0
    } else {
        run_whole(calendar, q - 1) + trucks(calendar, q - 1) * PERIOD_STEPS
    }
}

/// The truck-hours up to an hour, in billionths of billionths.
pub open spec fn run_to(calendar: CalendarView<Fixed>, hour: int) -> int {
    run_whole(calendar, hour / PERIOD_STEPS as int) + trucks(calendar, hour / PERIOD_STEPS as int) * (hour
        % PERIOD_STEPS as int)
}

/// The truck-hours of a span, in billionths of billionths: nothing is rounded.
pub open spec fn exact_hours(calendar: CalendarView<Fixed>, from: int, to: int) -> int {
    run_to(calendar, to) - run_to(calendar, from)
}

/// How many periods a span touches.
pub open spec fn periods_touched(from: int, to: int) -> int {
    to / PERIOD_STEPS as int - from / PERIOD_STEPS as int + 1
}

/// Every period of a span has a whole number of trucks that turn a wheel.
pub open spec fn whole_trucks(calendar: CalendarView<Fixed>, from: int, to: int) -> bool {
    forall|q: int|
        from / PERIOD_STEPS as int <= q <= to / PERIOD_STEPS as int ==> #[trigger] trucks(calendar, q) % (STEPS as int)
            == 0
}

/// Hours that are those of a span, each period rounded down by less than a
/// billionth; not at all where its trucks are a whole number.
pub open spec fn hours_of_span(calendar: CalendarView<Fixed>, from: int, to: int, hours: int) -> bool {
    &&& hours * STEPS <= exact_hours(calendar, from, to)
    &&& exact_hours(calendar, from, to) <= hours * STEPS + 999_999_999 * periods_touched(from, to)
    &&& whole_trucks(calendar, from, to) ==> exact_hours(calendar, from, to) == hours * STEPS
}

proof fn product_holds(units: Fixed, length: Fixed)
    requires
        0 <= units.0,
        0 <= length.0,
    ensures
        0 <= units.times(length).0,
        units.times(length).0 < i64::MAX ==> {
            let (made, exact) = (units.times(length).0, units.0 * length.0);
            &&& made * STEPS <= exact <= made * STEPS + 999_999_999
            &&& units.0 as int % (STEPS as int) == 0 ==> exact == made * STEPS
        },
{
    let (u, l) = (units.0 as int, length.0 as int);
    let exact = u * l;
    assert(0 <= exact) by (nonlinear_arith)
        requires
            0 <= u,
            0 <= l,
            exact == u * l,
    ;
    assert(quotient(exact, STEPS as int) == exact / 1_000_000_000);
    if u % 1_000_000_000 == 0 {
        let k = u / 1_000_000_000;
        assert(exact == (k * l) * 1_000_000_000) by (nonlinear_arith)
            requires
                exact == u * l,
                u == k * 1_000_000_000,
        ;
    }
}

proof fn trucks_hold(calendar: CalendarView<Fixed>, q: int)
    requires
        calendar.error() is None,
        rising(calendar.periods),
    ensures
        0 <= trucks(calendar, q),
{
    let period = CalendarPeriod(q as u32);
    first_none_means_all(calendar.period_error(), 0, calendar.periods.len() as int);
    held_is_entry(calendar.periods, period);
    let at = calendar.at(period);
    if held_under(calendar.periods, period) is Some {
        let j = choose|j: int| 0 <= j < calendar.periods.len() && (#[trigger] calendar.periods[j]).0 == period;
        assert(calendar.period_error()(j) is None);
    }
    assert(0 <= at.availability.0 && 0 <= at.utilisation.0);
    let units = Fixed::of_whole(at.units as u64);
    product_holds(units, at.availability);
    product_holds(units.times(at.availability), at.utilisation);
}

/// Where the trucks stay the same, hours are trucks times the length.
proof fn even_run(calendar: CalendarView<Fixed>, from: int, to: int, units: int)
    requires
        0 <= from <= to,
        forall|q: int|
            from / PERIOD_STEPS as int <= q && q * PERIOD_STEPS < to ==> #[trigger] trucks(calendar, q) == units,
    ensures
        exact_hours(calendar, from, to) == units * (to - from),
    decreases to,
{
    let day = PERIOD_STEPS as int;
    let (f, t) = (from / day, to / day);
    let (a, b) = (from % day, to % day);
    assert(from == f * day + a && to == t * day + b);
    if from == to {
        assert(units * (to - from) == 0) by (nonlinear_arith)
            requires
                from == to,
        ;
    } else if f == t {
        assert(trucks(calendar, f) == units);
        assert(units * b - units * a == units * (to - from)) by (nonlinear_arith)
            requires
                to - from == b - a,
        ;
    } else {
        let edge = (t - 1) * day;
        assert(edge / day == t - 1 && edge % day == 0);
        assert(trucks(calendar, t - 1) == units);
        let last = trucks(calendar, t);
        assert(last * b == units * b) by (nonlinear_arith)
            requires
                b == 0 || last == units,
        ;
        if t - 1 > f {
            even_run(calendar, from, edge, units);
            assert(trucks(calendar, t - 1) * 0 == 0) by (nonlinear_arith);
            assert(units * (edge - from) + units * 24_000_000_000 + units * b == units * (to - from)) by (nonlinear_arith)
                requires
                    to == edge + 24_000_000_000 + b,
            ;
        } else {
            assert(units * 24_000_000_000 + units * b - units * a == units * (to - from)) by (nonlinear_arith)
                requires
                    to - from == 24_000_000_000 + b - a,
            ;
        }
    }
}

proof fn supply_grows(calendar: CalendarView<Fixed>, period: CalendarPeriod, at: Fixed, to: Fixed, gained: Fixed)
    requires
        calendar.error() is None,
        rising(calendar.periods),
        0 <= gained.0,
    ensures
        gained.0 <= supply_from(calendar, period, at, to, gained).0,
    decreases u32::MAX - period.0,
{
    let end = stretch_end(calendar, period, to);
    let length = end.minus(at).upper(Fixed::of_whole(0));
    let units = calendar.at(period).effective();
    trucks_hold(calendar, period.0 as int);
    product_holds(units, length);
    let hours = gained.plus(units.times(length));
    if let Some(next) = calendar.change_after(period) {
        if !to.at_most(end) && next.0 > period.0 {
            supply_grows(calendar, next, end, to, hours);
        }
    }
}

proof fn boundary_is(next: u32)
    ensures
        Fixed::of_whole(next as u64).times(Fixed::of_whole(SCHEDULE_PERIOD_H)).0 == held(next * PERIOD_STEPS),
{
    assert(Fixed::of_whole(next as u64).0 == next * 1_000_000_000);
    assert(Fixed::of_whole(SCHEDULE_PERIOD_H).0 == 24_000_000_000);
    let hours = next * 24_000_000_000;
    let product = next * 1_000_000_000 * 24_000_000_000;
    assert(product == hours * 1_000_000_000);
    assert(product >= 0);
    assert(product / 1_000_000_000 == hours);
    assert(quotient(product, STEPS as int) == hours);
}

proof fn held_period(hour: Fixed)
    requires
        0 <= hour.0,
    ensures
        period_holding(hour).0 == hour.0 as int / PERIOD_STEPS as int,
{
    let h = hour.0 as int;
    assert(Fixed::of_whole(SCHEDULE_PERIOD_H).0 == 24_000_000_000);
    let part = quotient(h * STEPS, 24_000_000_000);
    assert(part == (h * 1_000_000_000) / 24_000_000_000);
    assert(part == h / 24);
    assert(part / 1_000_000_000 == h / 24_000_000_000);
}

/// The trucks of a stretch are those of its first period.
proof fn stretch_is_even(calendar: CalendarView<Fixed>, period: CalendarPeriod, from: int, end: int)
    requires
        rising(calendar.periods),
        0 <= from <= end < i64::MAX,
        period.0 == from / PERIOD_STEPS as int,
        calendar.change_after(period) matches Some(next) ==> end <= next.0 * PERIOD_STEPS,
    ensures
        exact_hours(calendar, from, end) == trucks(calendar, period.0 as int) * (end - from),
{
    next_change_is_first(calendar, period);
    let units = trucks(calendar, period.0 as int);
    assert forall|q: int| from / PERIOD_STEPS as int <= q && q * PERIOD_STEPS < end implies #[trigger] trucks(
        calendar,
        q,
    ) == units by {
        if q > period.0 {
            assert(q <= u32::MAX);
            assert(!calendar.changed(period, q as u32));
        }
    }
    even_run(calendar, from, end, units);
}

proof fn supply_is_of_span(calendar: CalendarView<Fixed>, period: CalendarPeriod, at: Fixed, to: Fixed, gained: Fixed)
    requires
        calendar.error() is None,
        rising(calendar.periods),
        0 <= at.0 < to.0 < i64::MAX,
        period.0 == at.0 as int / PERIOD_STEPS as int,
        0 <= gained.0,
        supply_from(calendar, period, at, to, gained).0 < i64::MAX,
    ensures
        hours_of_span(
            calendar,
            at.0 as int,
            to.0 as int,
            supply_from(calendar, period, at, to, gained).0 - gained.0,
        ),
    decreases u32::MAX - period.0,
{
    next_change_is_first(calendar, period);
    let end = stretch_end(calendar, period, to);
    let units = calendar.at(period).effective();
    if let Some(next) = calendar.change_after(period) {
        boundary_is(next.0);
    }
    assert(at.0 < end.0 <= to.0);
    let length = end.minus(at).upper(Fixed::of_whole(0));
    assert(length.0 == end.0 - at.0);
    trucks_hold(calendar, period.0 as int);
    product_holds(units, length);
    stretch_is_even(calendar, period, at.0 as int, end.0 as int);
    let hours = gained.plus(units.times(length));
    let onwards = calendar.change_after(period) is Some && end.0 < to.0;
    if onwards {
        supply_grows(calendar, calendar.change_after(period)->0, end, to, hours);
    }
    assert(hours.0 == gained.0 + units.times(length).0);
    if whole_trucks(calendar, at.0 as int, to.0 as int) {
        assert(trucks(calendar, period.0 as int) % (STEPS as int) == 0);
    }
    if onwards {
        let next = calendar.change_after(period)->0;
        supply_is_of_span(calendar, next, end, to, hours);
        if whole_trucks(calendar, at.0 as int, to.0 as int) {
            assert(whole_trucks(calendar, end.0 as int, to.0 as int));
        }
    }
}

/// What is supplied is the hours of the span.
pub proof fn supplied_is_of_span(calendar: CalendarView<Fixed>, from: Fixed, to: Fixed, hours: Fixed)
    requires
        calendar.error() is None,
        rising(calendar.periods),
        from.0 <= to.0,
        supply(calendar, from, to) == Ok::<Fixed, ScheduleError>(hours),
    ensures
        hours_of_span(calendar, from.0 as int, to.0 as int, hours.0 as int),
{
    if from.0 < to.0 {
        held_period(from);
        supply_is_of_span(calendar, period_holding(from), from, to, Fixed::of_whole(0));
    }
}

/// A span inside one period has the trucks of that period for its length.
pub proof fn span_in_a_period(calendar: CalendarView<Fixed>, from: Fixed, to: Fixed)
    requires
        rising(calendar.periods),
        0 <= from.0 <= to.0 < i64::MAX,
        to.0 <= (from.0 as int / PERIOD_STEPS as int + 1) * PERIOD_STEPS,
    ensures
        ({
            let hours = calendar.at(period_holding(from)).effective().times(to.minus(from));
            supply(calendar, from, to) == (if hours.finite() {
                Ok::<Fixed, ScheduleError>(hours)
            } else {
                Err(ScheduleError::UnrepresentableTransport)
            })
        }),
{
    let period = period_holding(from);
    let units = calendar.at(period).effective();
    held_period(from);
    if from.0 == to.0 {
        assert(units.0 * to.minus(from).0 == 0) by (nonlinear_arith)
            requires
                to.minus(from).0 == 0,
        ;
    } else {
        next_change_is_first(calendar, period);
        if let Some(next) = calendar.change_after(period) {
            boundary_is(next.0);
        }
        assert(stretch_end(calendar, period, to) == to);
        assert(to.minus(from).upper(Fixed::of_whole(0)) == to.minus(from));
        let hours = units.times(to.minus(from));
        assert(Fixed::of_whole(0).plus(hours) == hours);
    }
}

/// Hours of adjoining spans add up: exactly where whole numbers of trucks turn
/// a wheel, and else to a billionth for each period that the spans touch.
pub proof fn adjoining_spans_add_up(
    calendar: CalendarView<Fixed>,
    from: Fixed,
    between: Fixed,
    to: Fixed,
    first: Fixed,
    second: Fixed,
    both: Fixed,
)
    requires
        calendar.error() is None,
        rising(calendar.periods),
        from.0 <= between.0 <= to.0,
        supply(calendar, from, between) == Ok::<Fixed, ScheduleError>(first),
        supply(calendar, between, to) == Ok::<Fixed, ScheduleError>(second),
        supply(calendar, from, to) == Ok::<Fixed, ScheduleError>(both),
    ensures
        ({
            let touched = periods_touched(from.0 as int, to.0 as int);
            -touched <= both.0 - (first.0 + second.0) <= touched
        }),
        whole_trucks(calendar, from.0 as int, to.0 as int) ==> both.0 == first.0 + second.0,
{
    supplied_is_of_span(calendar, from, between, first);
    supplied_is_of_span(calendar, between, to, second);
    supplied_is_of_span(calendar, from, to, both);
    if whole_trucks(calendar, from.0 as int, to.0 as int) {
        assert(whole_trucks(calendar, from.0 as int, between.0 as int));
        assert(whole_trucks(calendar, between.0 as int, to.0 as int));
    }
}

// Hours from what the calendar says.

/// The settings of a period: what the calendar sets for it, and the default for
/// the rest.
pub open spec fn set_in(calendar: CalendarView<Fixed>, q: int, units: int, availability: int, utilisation: int) -> bool {
    &&& forall|e: int|
        0 <= e < calendar.periods.len() && (#[trigger] calendar.periods[e]).0.0 == q ==> {
            let set = calendar.periods[e].1;
            &&& units == (match set.units {
                Some(count) => count as int,
                None => calendar.default_units as int,
            })
            &&& availability == (match set.availability {
                Some(share) => share.0 as int,
                None => calendar.default_availability.0 as int,
            })
            &&& utilisation == (match set.utilisation {
                Some(share) => share.0 as int,
                None => calendar.default_utilisation.0 as int,
            })
        }
    &&& (forall|e: int| 0 <= e < calendar.periods.len() ==> (#[trigger] calendar.periods[e]).0.0 != q) ==> {
        &&& units == calendar.default_units
        &&& availability == calendar.default_availability.0
        &&& utilisation == calendar.default_utilisation.0
    }
}

/// Hours that are so many trucks, for so much of the time, over a length: each
/// of the two products is rounded down by less than a billionth.
pub open spec fn hours_of(units: int, availability: int, utilisation: int, length: int, hours: int) -> bool {
    let exact = units * availability * utilisation * length;
    &&& 0 <= hours
    &&& hours * STEPS * STEPS <= exact
    &&& exact <= hours * STEPS * STEPS + 999_999_999 * length + 999_999_999 * STEPS
}

proof fn fleet_product(fleet: TruckFleet<Fixed>, length: Fixed)
    requires
        0 <= fleet.availability.0 <= STEPS,
        0 <= fleet.utilisation.0 <= STEPS,
        0 <= length.0,
    ensures
        fleet.effective().times(length).0 < i64::MAX ==> hours_of(
            fleet.units as int,
            fleet.availability.0 as int,
            fleet.utilisation.0 as int,
            length.0 as int,
            fleet.effective().times(length).0 as int,
        ),
        fleet.units * fleet.availability.0 * fleet.utilisation.0 * length.0 < (i64::MAX) * STEPS * STEPS
            ==> fleet.effective().times(length).0 < i64::MAX,
        0 <= fleet.effective().times(length).0,
{
    let (n, a, u, l) = (fleet.units as int, fleet.availability.0 as int, fleet.utilisation.0 as int, length.0 as int);
    let s = 1_000_000_000int;
    let units = Fixed::of_whole(fleet.units as u64);
    assert(units.0 == n * s);
    let first = units.times(fleet.availability);
    assert(0 <= n * a <= n * s) by (nonlinear_arith)
        requires
            0 <= n,
            0 <= a <= s,
    ;
    assert((n * s) * a == (n * a) * s) by (nonlinear_arith);
    let big = n * a;
    assert((big * s) / s == big);
    assert(quotient((n * s) * a, STEPS as int) == big);
    assert(first.0 == big);
    let second = first.times(fleet.utilisation);
    let exact = big * u;
    assert(0 <= exact <= big * s) by (nonlinear_arith)
        requires
            0 <= big,
            0 <= u <= s,
            exact == big * u,
    ;
    let m = exact / s;
    assert(0 <= m <= big);
    assert(quotient(exact, STEPS as int) == m);
    assert(second.0 == m);
    let made = m * l;
    assert(0 <= made) by (nonlinear_arith)
        requires
            0 <= m,
            0 <= l,
            made == m * l,
    ;
    let h = made / s;
    assert(quotient(made, STEPS as int) == h);
    let (e, f) = (exact - m * s, made - h * s);
    assert(0 <= e < s && 0 <= f < s);
    assert(exact * l == (m * l) * s + e * l) by (nonlinear_arith)
        requires
            exact == m * s + e,
    ;
    assert(made * s == h * s * s + f * s) by (nonlinear_arith)
        requires
            made == h * s + f,
    ;
    assert(0 <= e * l <= 999_999_999 * l) by (nonlinear_arith)
        requires
            0 <= e <= 999_999_999,
            0 <= l,
    ;
    if h >= i64::MAX {
        assert(h * s * s >= i64::MAX * s * s) by (nonlinear_arith)
            requires
                h >= i64::MAX,
                s == 1_000_000_000,
        ;
    }
}

/// The truck-hours of a span inside a period are the trucks that the calendar
/// sets for the period, times their availability, times their utilisation, times
/// the length of the span.
pub proof fn hours_inside_a_period(
    calendar: CalendarView<Fixed>,
    q: int,
    units: int,
    availability: int,
    utilisation: int,
    from: Fixed,
    to: Fixed,
)
    requires
        rising(calendar.periods),
        set_in(calendar, q, units, availability, utilisation),
        0 <= availability <= STEPS,
        0 <= utilisation <= STEPS,
        0 <= q * 24 * STEPS <= from.0 <= to.0 <= (q + 1) * 24 * STEPS,
        to.0 < i64::MAX,
    ensures
        supply(calendar, from, to) matches Ok(hours) ==> hours_of(
            units,
            availability,
            utilisation,
            to.0 - from.0,
            hours.0 as int,
        ),
        units * availability * utilisation * (to.0 - from.0) < (i64::MAX) * STEPS * STEPS ==> supply(
            calendar,
            from,
            to,
        ) is Ok,
{
    let length = to.minus(from);
    assert(length.0 == to.0 - from.0);
    if from.0 == to.0 {
        assert(units * availability * utilisation * 0 == 0) by (nonlinear_arith);
    } else {
        span_in_a_period(calendar, from, to);
        held_period(from);
        assert(from.0 as int / PERIOD_STEPS as int == q);
        let period = period_holding(from);
        let fleet = calendar.at(period);
        held_is_entry(calendar.periods, period);
        if held_under(calendar.periods, period) is Some {
            let e = choose|e: int| 0 <= e < calendar.periods.len() && (#[trigger] calendar.periods[e]).0 == period;
            assert(calendar.periods[e].0.0 == q);
        } else {
            assert forall|e: int| 0 <= e < calendar.periods.len() implies (#[trigger] calendar.periods[e]).0.0 != q by {
                if calendar.periods[e].0.0 == q {
                    assert(calendar.periods[e].0 == period);
                }
            }
        }
        fleet_product(fleet, length);
    }
}

/// The truck-hours of a calendar that sets nothing for single periods are its
/// trucks, times their availability, times their utilisation, times the length
/// of the span.
pub proof fn hours_by_default(calendar: CalendarView<Fixed>, from: Fixed, to: Fixed)
    requires
        calendar.periods.len() == 0,
        0 <= calendar.default_availability.0 <= STEPS,
        0 <= calendar.default_utilisation.0 <= STEPS,
        0 <= from.0 <= to.0 < i64::MAX,
    ensures
        ({
            let (units, availability, utilisation) = (
                calendar.default_units as int,
                calendar.default_availability.0 as int,
                calendar.default_utilisation.0 as int,
            );
            &&& supply(calendar, from, to) matches Ok(hours) ==> hours_of(
                units,
                availability,
                utilisation,
                to.0 - from.0,
                hours.0 as int,
            )
            &&& units * availability * utilisation * (to.0 - from.0) < (i64::MAX) * STEPS * STEPS ==> supply(
                calendar,
                from,
                to,
            ) is Ok
            &&& units == 0 || availability == 0 || utilisation == 0 ==> supply(calendar, from, to) == Ok::<
                Fixed,
                ScheduleError,
            >(Fixed(0))
        }),
{
    let period = period_holding(from);
    let fleet = calendar.at(period);
    let length = to.minus(from);
    let (n, a, u, l) = (fleet.units as int, fleet.availability.0 as int, fleet.utilisation.0 as int, to.0 - from.0);
    assert(length.0 == l);
    fleet_product(fleet, length);
    let exact = n * a * u * l;
    if n == 0 || a == 0 || u == 0 {
        assert(exact == 0) by (nonlinear_arith)
            requires
                n == 0 || a == 0 || u == 0,
                exact == n * a * u * l,
        ;
    }
    if from.0 == to.0 {
        assert(exact == 0) by (nonlinear_arith)
            requires
                l == 0,
                exact == n * a * u * l,
        ;
    } else {
        assert(calendar.change_after(period) is None);
        assert(stretch_end(calendar, period, to) == to);
        assert(length.upper(Fixed::of_whole(0)) == length);
        let hours = fleet.effective().times(length);
        assert(Fixed::of_whole(0).plus(hours) == hours);
    }
}

/// Half the utilisation gives half the truck-hours, and so does half the
/// availability, but for rounding.
pub proof fn half_the_time_half_the_hours(
    whole: CalendarView<Fixed>,
    half: CalendarView<Fixed>,
    from: Fixed,
    to: Fixed,
    all: Fixed,
    less: Fixed,
)
    requires
        whole.periods.len() == 0,
        half.periods.len() == 0,
        whole.default_units == half.default_units,
        0 <= whole.default_availability.0 <= STEPS,
        0 <= whole.default_utilisation.0 <= STEPS,
        (whole.default_availability == half.default_availability && whole.default_utilisation.0 == 2
            * half.default_utilisation.0) || (whole.default_availability.0 == 2 * half.default_availability.0
            && whole.default_utilisation == half.default_utilisation),
        0 <= from.0 <= to.0 < i64::MAX,
        supply(whole, from, to) == Ok::<Fixed, ScheduleError>(all),
        supply(half, from, to) == Ok::<Fixed, ScheduleError>(less),
    ensures
        ({
            let rounding = 2 * (999_999_999 * (to.0 - from.0) + 999_999_999 * STEPS);
            -rounding <= (all.0 - 2 * less.0) * STEPS * STEPS <= rounding
        }),
{
    hours_by_default(whole, from, to);
    hours_by_default(half, from, to);
    let l = to.0 - from.0;
    let n = whole.default_units as int;
    let (a, b) = (whole.default_availability.0 as int, half.default_availability.0 as int);
    let (u, v) = (whole.default_utilisation.0 as int, half.default_utilisation.0 as int);
    assert(n * a * u * l == 2 * (n * b * v * l)) by (nonlinear_arith)
        requires
            (a == b && u == 2 * v) || (a == 2 * b && u == v),
    ;
}

} // verus!
