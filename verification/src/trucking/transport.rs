//! What a class costs on a route, and what it can supply.
use vstd::prelude::*;

use crate::error::ScheduleError;
use crate::listing::flat;
use crate::scalar::Scalar;
use crate::trucking::calendar::{
    checked_positive, is_positive, CalendarPeriod, CalendarView, TruckCalendar, SCHEDULE_PERIOD_H,
};
use crate::trucking::fleet::{ClassView, FleetView, TruckClass, TruckFleetConfig};
use crate::trucking::rules::{items_of, push_item, HashItem, Hashed, RouteContext};

verus! {

/// What one class costs per tonne on one route.
#[derive(Clone, Copy, Debug)]
pub struct TransportCoefficients<N> {
    /// Out loaded and back empty, travel only.
    pub travel_cycle_h: N,
    /// Truck-hours that one tonne takes.
    pub truck_hours_per_tonne: N,
}

/// The hours out loaded and back empty.
pub open spec fn cycle_of<N: Scalar>(class: ClassView<N>, distance: N) -> N {
    distance.over(class.loaded_speed_kph).plus(distance.over(class.unloaded_speed_kph))
}

/// What a class costs over a distance, or why that is not a number.
pub open spec fn coefficients_of<N: Scalar>(class: ClassView<N>, distance: N) -> Result<
    TransportCoefficients<N>,
    ScheduleError,
> {
    let cycle = cycle_of(class, distance);
    let hours = cycle.over(class.payload_t);
    if !is_positive(distance) {
        Err(ScheduleError::InvalidDistance)
    } else if !is_positive(class.loaded_speed_kph) || !is_positive(class.unloaded_speed_kph) {
        Err(ScheduleError::InvalidSpeed)
    } else if !is_positive(class.payload_t) {
        Err(ScheduleError::InvalidPayload)
    } else if !cycle.finite() || !hours.finite() || hours.at_most(N::of_whole(0)) {
        Err(ScheduleError::UnrepresentableTransport)
    } else {
        Ok(TransportCoefficients { travel_cycle_h: cycle, truck_hours_per_tonne: hours })
    }
}

/// What a class costs over a one-way distance. The route is not read: the
/// distance stands for it.
pub fn coefficients<N: Scalar>(class: &TruckClass<N>, _route: &RouteContext, one_way_km: N) -> (r: Result<
    TransportCoefficients<N>,
    ScheduleError,
>)
    ensures
        r == coefficients_of(class@, one_way_km),
{
    let distance = match checked_positive(one_way_km, ScheduleError::InvalidDistance) {
        Ok(value) => value,
        Err(error) => {
            return Err(error);
        },
    };
    let loaded = match checked_positive(class.loaded_speed_kph, ScheduleError::InvalidSpeed) {
        Ok(value) => value,
        Err(error) => {
            return Err(error);
        },
    };
    let unloaded = match checked_positive(class.unloaded_speed_kph, ScheduleError::InvalidSpeed) {
        Ok(value) => value,
        Err(error) => {
            return Err(error);
        },
    };
    let payload = match checked_positive(class.payload_t, ScheduleError::InvalidPayload) {
        Ok(value) => value,
        Err(error) => {
            return Err(error);
        },
    };
    let travel_cycle_h = distance.div(loaded).add(distance.div(unloaded));
    let truck_hours_per_tonne = travel_cycle_h.div(payload);
    if !travel_cycle_h.is_finite() || !truck_hours_per_tonne.is_finite() || truck_hours_per_tonne.is_at_most(
        N::whole(0),
    ) {
        return Err(ScheduleError::UnrepresentableTransport);
    }
    Ok(TransportCoefficients { travel_cycle_h, truck_hours_per_tonne })
}

/// Where a change ends a stretch, at the latest where the span ends.
pub open spec fn stretch_end<N: Scalar>(calendar: CalendarView<N>, period: CalendarPeriod, to_h: N) -> N {
    match calendar.change_after(period) {
        Some(next) => N::of_whole(next.0 as u64).times(N::of_whole(SCHEDULE_PERIOD_H)),
        None => to_h,
    }.lower(to_h)
}

/// The hours gained so far and those of the stretches from `at` on.
pub open spec fn supply_from<N: Scalar>(
    calendar: CalendarView<N>,
    period: CalendarPeriod,
    at: N,
    to_h: N,
    gained: N,
) -> N
    decreases u32::MAX - period.0,
{
    let end = stretch_end(calendar, period, to_h);
    let hours = gained.plus(calendar.at(period).effective().times(end.minus(at).upper(N::of_whole(0))));
    match calendar.change_after(period) {
        Some(next) => if to_h.at_most(end) || next.0 <= period.0 {
            hours
        } else {
            supply_from(calendar, next, end, to_h, hours)
        },
        None => hours,
    }
}

/// The period that an hour falls in.
pub open spec fn period_holding<N: Scalar>(hour: N) -> CalendarPeriod {
    CalendarPeriod(hour.over(N::of_whole(SCHEDULE_PERIOD_H)).floored())
}

/// The truck-hours between two hours, or why they are not a number.
pub open spec fn supply<N: Scalar>(calendar: CalendarView<N>, from_h: N, to_h: N) -> Result<N, ScheduleError> {
    if !from_h.finite() || !to_h.finite() || from_h.below(N::of_whole(0)) {
        Err(ScheduleError::UnrepresentableTransport)
    } else if to_h.at_most(from_h) {
        Ok(N::of_whole(0))
    } else {
        let hours = supply_from(calendar, period_holding(from_h), from_h, to_h, N::of_whole(0));
        if !hours.finite() {
            Err(ScheduleError::UnrepresentableTransport)
        } else {
            Ok(hours)
        }
    }
}

/// Truck-hours that a class can supply between two hours, stretch by stretch:
/// each stretch has the settings of its own periods.
pub fn available_truck_hours<N: Scalar>(calendar: &TruckCalendar<N>, from_h: N, to_h: N) -> (r: Result<
    N,
    ScheduleError,
>)
    ensures
        r == supply(calendar@, from_h, to_h),
{
    if !from_h.is_finite() || !to_h.is_finite() || from_h.is_below(N::whole(0)) {
        return Err(ScheduleError::UnrepresentableTransport);
    }
    if to_h.is_at_most(from_h) {
        return Ok(N::whole(0));
    }
    let mut hours = N::whole(0);
    let mut at = from_h;
    let mut period = CalendarPeriod(from_h.div(N::whole(SCHEDULE_PERIOD_H)).floor());
    let ghost all = supply_from(calendar@, period, at, to_h, hours);
    loop
        invariant
            from_h.finite(),
            to_h.finite(),
            !from_h.below(N::of_whole(0)),
            !to_h.at_most(from_h),
            all == supply_from(calendar@, period_holding(from_h), from_h, to_h, N::of_whole(0)),
            all == supply_from(calendar@, period, at, to_h, hours),
        decreases u32::MAX - period.0,
    {
        let units = calendar.values_at(period).effective_units();
        let next = calendar.next_change_after(period);
        let boundary = match next {
            Some(next) => N::whole(next.0 as u64).mul(N::whole(SCHEDULE_PERIOD_H)),
            None => to_h,
        };
        let end = boundary.smaller(to_h);
        let gained = hours.add(units.mul(end.sub(at).larger(N::whole(0))));
        let mut over: bool = to_h.is_at_most(end);
        let mut following = period;
        match next {
            Some(next) => {
                following = next;
            },
            None => {
                over = true;
            },
        }
        if over {
            if !gained.is_finite() {
                return Err(ScheduleError::UnrepresentableTransport);
            }
            return Ok(gained);
        }
        hours = gained;
        at = end;
        period = following;
    }
}

/// The tonnes that so many truck-hours move.
pub open spec fn tonnes_moved<N: Scalar>(truck_hours: N, coefficients: TransportCoefficients<N>) -> N {
    if coefficients.truck_hours_per_tonne.at_most(N::of_whole(0)) {
        N::of_whole(0)
    } else {
        truck_hours.over(coefficients.truck_hours_per_tonne)
    }
}

/// What a class could move on a route if it served nothing else.
pub fn travel_limited_tonnes<N: Scalar>(truck_hours: N, coefficients: TransportCoefficients<N>) -> (r: N)
    ensures
        r == tonnes_moved(truck_hours, coefficients),
        r == (if coefficients.truck_hours_per_tonne.at_most(N::of_whole(0)) {
            N::of_whole(0)
        } else {
            truck_hours.over(coefficients.truck_hours_per_tonne)
        }),
{
    if coefficients.truck_hours_per_tonne.is_at_most(N::whole(0)) {
        return N::whole(0);
    }
    truck_hours.div(coefficients.truck_hours_per_tonne)
}

/// A one-way haul distance.
pub fn checked_distance<N: Scalar>(value: N) -> (r: Result<N, ScheduleError>)
    ensures
        r == (if is_positive(value) {
            Ok(value)
        } else {
            Err(ScheduleError::InvalidDistance)
        }),
{
    checked_positive(value, ScheduleError::InvalidDistance)
}

pub open spec fn share_bits<N: Scalar>(share: Option<N>) -> Option<u64> {
    match share {
        Some(value) => Some(value.bits()),
        None => None,
    }
}

fn find_share_bits<N: Scalar>(share: Option<N>) -> (r: Option<u64>)
    ensures
        r == share_bits(share),
{
    match share {
        Some(value) => Some(value.to_bits()),
        None => None,
    }
}

impl<N: Scalar> CalendarView<N> {
    pub open spec fn period_items(self) -> spec_fn(int) -> Seq<Hashed> {
        |i: int|
            seq![
                Hashed::Count(self.periods[i].0.0),
                Hashed::MaybeCount(self.periods[i].1.units),
                Hashed::MaybeNumber(share_bits(self.periods[i].1.availability)),
                Hashed::MaybeNumber(share_bits(self.periods[i].1.utilisation)),
            ]
    }

    /// What goes into the fingerprint of a calendar.
    pub open spec fn items(self) -> Seq<Hashed> {
        seq![
            Hashed::Count(self.default_units),
            Hashed::Number(self.default_availability.bits()),
            Hashed::Number(self.default_utilisation.bits()),
        ] + flat(self.periods.len(), self.period_items())
    }
}

impl<N: Scalar> ClassView<N> {
    /// What goes into the fingerprint of a class.
    pub open spec fn items(self) -> Seq<Hashed> {
        seq![
            Hashed::Number(self.id.0),
            Hashed::Text(self.name),
            Hashed::Number(self.payload_t.bits()),
            Hashed::Number(self.loaded_speed_kph.bits()),
            Hashed::Number(self.unloaded_speed_kph.bits()),
        ] + self.calendar.items()
    }
}

impl<N: Scalar> FleetView<N> {
    pub open spec fn class_items(self) -> spec_fn(int) -> Seq<Hashed> {
        |i: int| self.classes[i].items()
    }

    pub open spec fn rule_items(self) -> spec_fn(int) -> Seq<Hashed> {
        |i: int| self.rules[i].items()
    }

    /// What goes into the fingerprint of a fleet.
    pub open spec fn items(self) -> Seq<Hashed> {
        flat(self.classes.len(), self.class_items()) + flat(self.rules.len(), self.rule_items())
    }
}

impl<N: Scalar> TruckCalendar<N> {
    /// Adds what goes into the fingerprint of this calendar.
    pub fn hash_content(&self, items: &mut Vec<HashItem>)
        ensures
            items_of(final(items)@) == items_of(old(items)@) + self@.items(),
    {
        let ghost base = items_of(items@);
        push_item(items, HashItem::Count(self.default_units));
        push_item(items, HashItem::Number(self.default_availability.to_bits()));
        push_item(items, HashItem::Number(self.default_utilisation.to_bits()));
        let ghost head = seq![
            Hashed::Count(self@.default_units),
            Hashed::Number(self@.default_availability.bits()),
            Hashed::Number(self@.default_utilisation.bits()),
        ];
        let ghost f = self@.period_items();
        assert(items_of(items@) =~= base + head);
        assert(base + head + flat(0, f) =~= base + head);
        for i in 0..self.periods.entries.len()
            invariant
                f == self@.period_items(),
                items_of(items@) == base + head + flat(i as nat, f),
        {
            let value = self.periods.entries[i].1;
            push_item(items, HashItem::Count(self.periods.entries[i].0.0));
            push_item(items, HashItem::MaybeCount(value.units));
            push_item(items, HashItem::MaybeNumber(find_share_bits(value.availability)));
            push_item(items, HashItem::MaybeNumber(find_share_bits(value.utilisation)));
            assert(items_of(items@) =~= base + head + (flat(i as nat, f) + f(i as int)));
        }
        assert(items_of(items@) =~= base + self@.items());
    }
}

impl<N: Scalar> TruckFleetConfig<N> {
    /// What goes into the fingerprint of this fleet.
    pub fn hash_content(&self) -> (r: Vec<HashItem>)
        ensures
            items_of(r@) == self@.items(),
    {
        let mut items: Vec<HashItem> = Vec::new();
        let ghost f = self@.class_items();
        assert(items_of(items@) =~= flat(0, f));
        for c in 0..self.classes.len()
            invariant
                f == self@.class_items(),
                items_of(items@) == flat(c as nat, f),
        {
            let class = &self.classes[c];
            assert(self@.classes[c as int] == class@);
            push_item(&mut items, HashItem::Number(class.id.0));
            push_item(&mut items, HashItem::Text(class.name.clone()));
            push_item(&mut items, HashItem::Number(class.payload_t.to_bits()));
            push_item(&mut items, HashItem::Number(class.loaded_speed_kph.to_bits()));
            push_item(&mut items, HashItem::Number(class.unloaded_speed_kph.to_bits()));
            class.calendar.hash_content(&mut items);
            assert(items_of(items@) =~= flat(c as nat, f) + f(c as int));
        }
        let ghost first = items_of(items@);
        let ghost g = self@.rule_items();
        assert(first + flat(0, g) =~= first);
        for i in 0..self.rules.len()
            invariant
                g == self@.rule_items(),
                items_of(items@) == first + flat(i as nat, g),
        {
            assert(self@.rules[i as int] == self.rules@[i as int]@);
            self.rules[i].hash_content(&mut items);
            assert(items_of(items@) =~= first + (flat(i as nat, g) + g(i as int)));
        }
        items
    }
}

} // verus!
