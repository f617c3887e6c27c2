//! How many trucks a class has, and for how much of the time: one default and
//! overrides for single periods.
use vstd::prelude::*;

use crate::error::ScheduleError;
use crate::ledger::{held_is_entry, held_under, put_reads_back, put_under, remove_reads_back, removed_under, rising, Key, Ledger};
use crate::scalar::Scalar;

verus! {

/// The hours in a period.
pub const SCHEDULE_PERIOD_H: u64 = 24;

/// The trucks of a class that nobody has sized yet.
pub const DEFAULT_UNITS: u32 = 0;

/// A period, counted from the start of the schedule.
#[derive(Clone, Copy, Debug, PartialEq, Eq, Structural, PartialOrd, Ord, Hash)]
pub struct CalendarPeriod(pub u32);

impl Key for CalendarPeriod {
    open spec fn before(self, other: Self) -> bool {
        self.0 < other.0
    }

    fn is_before(self, other: Self) -> (r: bool) {
        self.0 < other.0
    }

    fn is_key(self, other: Self) -> (r: bool) {
        self.0 == other.0
    }

    proof fn key_laws(a: Self, b: Self, c: Self) {
    }
}

/// What an edit of a calendar speaks of.
#[derive(Clone, Copy, Debug, PartialEq, Eq, Structural, PartialOrd, Ord, Hash)]
pub enum CalendarCell {
    Default,
    Period(CalendarPeriod),
}

#[derive(Clone, Copy, Debug, PartialEq, Eq, Structural, PartialOrd, Ord, Hash)]
pub enum TruckField {
    Units,
    Availability,
    Utilisation,
}

/// What one period sets. What it does not set is the default's.
#[derive(Clone, Copy, Debug)]
pub struct TruckPeriodOverride<N> {
    pub units: Option<u32>,
    pub availability: Option<N>,
    pub utilisation: Option<N>,
}

/// A period's settings.
#[derive(Clone, Copy, Debug)]
pub struct TruckFleet<N> {
    pub units: u32,
    pub availability: N,
    pub utilisation: N,
}

/// A calendar: the default, and what single periods set. A period that says
/// nothing has the default, not what the period before it had.
#[derive(Clone, Debug)]
pub struct TruckCalendar<N> {
    pub default_units: u32,
    pub default_availability: N,
    pub default_utilisation: N,
    pub periods: Ledger<CalendarPeriod, TruckPeriodOverride<N>>,
}

/// What a [`TruckCalendar`] holds.
pub struct CalendarView<N> {
    pub default_units: u32,
    pub default_availability: N,
    pub default_utilisation: N,
    pub periods: Seq<(CalendarPeriod, TruckPeriodOverride<N>)>,
}

impl<N> View for TruckCalendar<N> {
    type V = CalendarView<N>;

    open spec fn view(&self) -> CalendarView<N> {
        CalendarView {
            default_units: self.default_units,
            default_availability: self.default_availability,
            default_utilisation: self.default_utilisation,
            periods: self.periods@,
        }
    }
}

/// A share of time: finite, from zero to one.
pub open spec fn is_percentage<N: Scalar>(value: N) -> bool {
    value.finite() && N::of_whole(0).at_most(value) && value.at_most(N::of_whole(1))
}

/// A value that is a share of time.
pub fn checked_percentage<N: Scalar>(value: N) -> (r: Result<N, ScheduleError>)
    ensures
        r == (if is_percentage(value) {
            Ok(value)
        } else {
            Err(ScheduleError::InvalidCalendarPercentage)
        }),
{
    if !value.is_finite() || !N::whole(0).is_at_most(value) || !value.is_at_most(N::whole(1)) {
        return Err(ScheduleError::InvalidCalendarPercentage);
    }
    Ok(value)
}

/// A whole number of trucks.
pub open spec fn is_units<N: Scalar>(value: N) -> bool {
    value.finite() && !value.below(N::of_whole(0)) && value.same(N::of_whole(value.floored() as u64)) && !N::of_whole(
        u32::MAX as u64,
    ).below(value)
}

/// A number of trucks. Half a truck is refused, not rounded.
pub fn checked_units<N: Scalar>(value: N) -> (r: Result<u32, ScheduleError>)
    ensures
        r == (if is_units(value) {
            Ok(value.floored())
        } else {
            Err(ScheduleError::InvalidTruckUnits)
        }),
{
    if !value.is_finite() || value.is_below(N::whole(0)) || !value.is_same(N::whole(value.floor() as u64))
        || N::whole(u32::MAX as u64).is_below(value) {
        return Err(ScheduleError::InvalidTruckUnits);
    }
    Ok(value.floor())
}

/// A finite value above zero.
pub open spec fn is_positive<N: Scalar>(value: N) -> bool {
    value.finite() && !value.at_most(N::of_whole(0))
}

/// A value that is finite and above zero.
pub fn checked_positive<N: Scalar>(value: N, error: ScheduleError) -> (r: Result<N, ScheduleError>)
    ensures
        r == (if is_positive(value) {
            Ok(value)
        } else {
            Err(error)
        }),
{
    if !value.is_finite() || value.is_at_most(N::whole(0)) {
        return Err(error);
    }
    Ok(value)
}

impl<N: Scalar> TruckPeriodOverride<N> {
    /// An override that sets nothing.
    pub open spec fn blank() -> Self {
        TruckPeriodOverride { units: None, availability: None, utilisation: None }
    }

    pub open spec fn empty(self) -> bool {
        self.units is None && self.availability is None && self.utilisation is None
    }

    pub fn is_empty(&self) -> (r: bool)
        ensures
            r == self.empty(),
    {
        self.units.is_none() && self.availability.is_none() && self.utilisation.is_none()
    }

    /// What is wrong with an override of a period.
    pub open spec fn error(self, period: CalendarPeriod) -> Option<ScheduleError> {
        if period.0 == u32::MAX {
            Some(ScheduleError::CalendarPeriodOverflow)
        } else if self.empty() {
            Some(ScheduleError::EmptyCalendarOverride)
        } else if (self.availability matches Some(value) && !is_percentage(value)) || (self.utilisation matches Some(
            value,
        ) && !is_percentage(value)) {
            Some(ScheduleError::InvalidCalendarPercentage)
        } else {
            None
        }
    }
}

impl<N: Scalar> TruckFleet<N> {
    /// The trucks that turn a wheel: both shares of time apply, once each.
    pub open spec fn effective(self) -> N {
        N::of_whole(self.units as u64).times(self.availability).times(self.utilisation)
    }

    pub fn effective_units(self) -> (r: N)
        ensures
            r == self.effective(),
    {
        N::whole(self.units as u64).mul(self.availability).mul(self.utilisation)
    }

    /// Settings that do not differ.
    pub open spec fn alike(self, other: Self) -> bool {
        self.units == other.units && self.availability.same(other.availability) && self.utilisation.same(
            other.utilisation,
        )
    }

    fn is_alike(self, other: Self) -> (r: bool)
        ensures
            r == self.alike(other),
    {
        self.units == other.units && self.availability.is_same(other.availability) && self.utilisation.is_same(
            other.utilisation,
        )
    }
}

/// The override with one field set, or what is wrong with the value.
pub open spec fn field_set<N: Scalar>(
    held: TruckPeriodOverride<N>,
    field: TruckField,
    value: Option<N>,
) -> Result<TruckPeriodOverride<N>, ScheduleError> {
    match field {
        TruckField::Units => match value {
            Some(value) if !is_units(value) => Err(ScheduleError::InvalidTruckUnits),
            Some(value) => Ok(TruckPeriodOverride { units: Some(value.floored()), ..held }),
            None => Ok(TruckPeriodOverride { units: None, ..held }),
        },
        TruckField::Availability => match value {
            Some(value) if !is_percentage(value) => Err(ScheduleError::InvalidCalendarPercentage),
            value => Ok(TruckPeriodOverride { availability: value, ..held }),
        },
        TruckField::Utilisation => match value {
            Some(value) if !is_percentage(value) => Err(ScheduleError::InvalidCalendarPercentage),
            value => Ok(TruckPeriodOverride { utilisation: value, ..held }),
        },
    }
}

fn set_field<N: Scalar>(held: TruckPeriodOverride<N>, field: TruckField, value: Option<N>) -> (r: Result<
    TruckPeriodOverride<N>,
    ScheduleError,
>)
    ensures
        r == field_set(held, field, value),
{
    match field {
        TruckField::Units => match value {
            Some(value) => match checked_units(value) {
                Ok(units) => Ok(TruckPeriodOverride { units: Some(units), ..held }),
                Err(error) => Err(error),
            },
            None => Ok(TruckPeriodOverride { units: None, ..held }),
        },
        TruckField::Availability => match value {
            Some(value) => match checked_percentage(value) {
                Ok(share) => Ok(TruckPeriodOverride { availability: Some(share), ..held }),
                Err(error) => Err(error),
            },
            None => Ok(TruckPeriodOverride { availability: None, ..held }),
        },
        TruckField::Utilisation => match value {
            Some(value) => match checked_percentage(value) {
                Ok(share) => Ok(TruckPeriodOverride { utilisation: Some(share), ..held }),
                Err(error) => Err(error),
            },
            None => Ok(TruckPeriodOverride { utilisation: None, ..held }),
        },
    }
}

impl<N: Scalar> CalendarView<N> {
    /// A calendar with no trucks and full shares of time.
    pub open spec fn blank() -> Self {
        CalendarView {
            default_units: DEFAULT_UNITS,
            default_availability: N::of_whole(1),
            default_utilisation: N::of_whole(1),
            periods: Seq::empty(),
        }
    }

    pub open spec fn period_error(self) -> spec_fn(int) -> Option<ScheduleError> {
        |i: int| self.periods[i].1.error(self.periods[i].0)
    }

    /// What is wrong with a calendar, the first thing first.
    pub open spec fn error(self) -> Option<ScheduleError> {
        if !is_percentage(self.default_availability) || !is_percentage(self.default_utilisation) {
            Some(ScheduleError::InvalidCalendarPercentage)
        } else {
            crate::listing::first_from(0, self.periods.len() as int, self.period_error())
        }
    }

    /// A period's settings: what it sets, and the default for the rest.
    pub open spec fn at(self, period: CalendarPeriod) -> TruckFleet<N> {
        match held_under(self.periods, period) {
            Some(held) => TruckFleet {
                units: match held.units {
                    Some(units) => units,
                    None => self.default_units,
                },
                availability: match held.availability {
                    Some(share) => share,
                    None => self.default_availability,
                },
                utilisation: match held.utilisation {
                    Some(share) => share,
                    None => self.default_utilisation,
                },
            },
            None => TruckFleet {
                units: self.default_units,
                availability: self.default_availability,
                utilisation: self.default_utilisation,
            },
        }
    }

    /// A later period whose settings differ.
    pub open spec fn changed(self, period: CalendarPeriod, later: u32) -> bool {
        period.0 < later && !self.at(CalendarPeriod(later)).alike(self.at(period))
    }

    /// The first change at or right after an override, from the `i`th on.
    pub open spec fn change_from(self, period: CalendarPeriod, i: int) -> Option<CalendarPeriod>
        decreases self.periods.len() - i,
    {
        if i >= self.periods.len() {
            None
        } else {
            let at = self.periods[i].0.0;
            if self.changed(period, at) {
                Some(CalendarPeriod(at))
            } else if at < u32::MAX && self.changed(period, (at + 1) as u32) {
                Some(CalendarPeriod((at + 1) as u32))
            } else {
                self.change_from(period, i + 1)
            }
        }
    }

    /// The next change after a period.
    pub open spec fn change_after(self, period: CalendarPeriod) -> Option<CalendarPeriod> {
        self.change_from(period, 0)
    }

    /// The calendar with one cell set, or what is wrong with the edit.
    pub open spec fn set(self, cell: CalendarCell, field: TruckField, value: Option<N>) -> Result<Self, ScheduleError> {
        match cell {
            CalendarCell::Default => match field {
                TruckField::Units => match value {
                    Some(value) if !is_units(value) => Err(ScheduleError::InvalidTruckUnits),
                    Some(value) => Ok(CalendarView { default_units: value.floored(), ..self }),
                    None => Ok(CalendarView { default_units: DEFAULT_UNITS, ..self }),
                },
                TruckField::Availability => match value {
                    Some(value) if !is_percentage(value) => Err(ScheduleError::InvalidCalendarPercentage),
                    Some(value) => Ok(CalendarView { default_availability: value, ..self }),
                    None => Ok(CalendarView { default_availability: N::of_whole(1), ..self }),
                },
                TruckField::Utilisation => match value {
                    Some(value) if !is_percentage(value) => Err(ScheduleError::InvalidCalendarPercentage),
                    Some(value) => Ok(CalendarView { default_utilisation: value, ..self }),
                    None => Ok(CalendarView { default_utilisation: N::of_whole(1), ..self }),
                },
            },
            CalendarCell::Period(period) => {
                let held = match held_under(self.periods, period) {
                    Some(held) => held,
                    None => TruckPeriodOverride::blank(),
                };
                if period.0 == u32::MAX {
                    Err(ScheduleError::CalendarPeriodOverflow)
                } else {
                    match field_set(held, field, value) {
                        Err(error) => Err(error),
                        Ok(now) => if now.empty() {
                            Ok(CalendarView { periods: removed_under(self.periods, period), ..self })
                        } else {
                            Ok(CalendarView { periods: put_under(self.periods, period, now), ..self })
                        },
                    }
                }
            },
        }
    }
}

impl<N: Scalar> TruckCalendar<N> {
    /// A calendar with no trucks and full shares of time.
    pub fn standard() -> (r: Self)
        ensures
            r@ == CalendarView::<N>::blank(),
    {
        TruckCalendar {
            default_units: DEFAULT_UNITS,
            default_availability: N::whole(1),
            default_utilisation: N::whole(1),
            periods: Ledger::new(),
        }
    }

    /// A copy.
    pub fn copy(&self) -> (r: Self)
        ensures
            r@ == self@,
    {
        TruckCalendar {
            default_units: self.default_units,
            default_availability: self.default_availability,
            default_utilisation: self.default_utilisation,
            periods: self.periods.copy(),
        }
    }

    /// Whether a calendar can stand.
    pub fn validate(&self) -> (r: Result<(), ScheduleError>)
        ensures
            r == (match self@.error() {
                Some(error) => Err(error),
                None => Ok(()),
            }),
    {
        if let Err(error) = checked_percentage(self.default_availability) {
            return Err(error);
        }
        if let Err(error) = checked_percentage(self.default_utilisation) {
            return Err(error);
        }
        let ghost f = self@.period_error();
        for i in 0..self.periods.entries.len()
            invariant
                f == self@.period_error(),
                is_percentage(self.default_availability),
                is_percentage(self.default_utilisation),
                crate::listing::first_from(0, self@.periods.len() as int, f) == crate::listing::first_from(
                    i as int,
                    self@.periods.len() as int,
                    f,
                ),
        {
            let period = self.periods.entries[i].0;
            let value = self.periods.entries[i].1;
            assert(f(i as int) == value.error(period));
            if period.0 == u32::MAX {
                return Err(ScheduleError::CalendarPeriodOverflow);
            }
            if value.is_empty() {
                return Err(ScheduleError::EmptyCalendarOverride);
            }
            if let Some(availability) = value.availability {
                if let Err(error) = checked_percentage(availability) {
                    return Err(error);
                }
            }
            if let Some(utilisation) = value.utilisation {
                if let Err(error) = checked_percentage(utilisation) {
                    return Err(error);
                }
            }
        }
        Ok(())
    }

    /// A period's settings.
    pub fn values_at(&self, period: CalendarPeriod) -> (r: TruckFleet<N>)
        ensures
            r == self@.at(period),
    {
        match self.periods.find(period) {
            Some(held) => TruckFleet {
                units: match held.units {
                    Some(units) => units,
                    None => self.default_units,
                },
                availability: match held.availability {
                    Some(share) => share,
                    None => self.default_availability,
                },
                utilisation: match held.utilisation {
                    Some(share) => share,
                    None => self.default_utilisation,
                },
            },
            None => TruckFleet {
                units: self.default_units,
                availability: self.default_availability,
                utilisation: self.default_utilisation,
            },
        }
    }

    /// The first period after `period` whose settings differ from its own.
    pub fn next_change_after(&self, period: CalendarPeriod) -> (r: Option<CalendarPeriod>)
        ensures
            r == self@.change_after(period),
            r matches Some(next) ==> period.0 < next.0,
    {
        let current = self.values_at(period);
        for i in 0..self.periods.entries.len()
            invariant
                current == self@.at(period),
                self@.change_after(period) == self@.change_from(period, i as int),
        {
            let at: u32 = self.periods.entries[i].0.0;
            if period.0 < at && !self.values_at(CalendarPeriod(at)).is_alike(current) {
                return Some(CalendarPeriod(at));
            }
            if at < u32::MAX && period.0 < at + 1 && !self.values_at(CalendarPeriod(at + 1)).is_alike(current) {
                return Some(CalendarPeriod(at + 1));
            }
        }
        None
    }

    /// Sets one cell; `None` takes it back to what it is without an edit. A
    /// refused edit changes nothing.
    pub fn set(&mut self, cell: CalendarCell, field: TruckField, value: Option<N>) -> (r: Result<(), ScheduleError>)
        ensures
            match old(self)@.set(cell, field, value) {
                Ok(now) => r is Ok && final(self)@ == now,
                Err(error) => r == Err::<(), ScheduleError>(error) && final(self)@ == old(self)@,
            },
    {
        match cell {
            CalendarCell::Default => {
                match field {
                    TruckField::Units => {
                        let mut units: u32 = DEFAULT_UNITS;
                        if let Some(value) = value {
                            match checked_units(value) {
                                Ok(count) => {
                                    units = count;
                                },
                                Err(error) => {
                                    return Err(error);
                                },
                            }
                        }
                        self.default_units = units;
                    },
                    TruckField::Availability => {
                        let mut share = N::whole(1);
                        if let Some(value) = value {
                            match checked_percentage(value) {
                                Ok(value) => {
                                    share = value;
                                },
                                Err(error) => {
                                    return Err(error);
                                },
                            }
                        }
                        self.default_availability = share;
                    },
                    TruckField::Utilisation => {
                        let mut share = N::whole(1);
                        if let Some(value) = value {
                            match checked_percentage(value) {
                                Ok(value) => {
                                    share = value;
                                },
                                Err(error) => {
                                    return Err(error);
                                },
                            }
                        }
                        self.default_utilisation = share;
                    },
                }
                Ok(())
            },
            CalendarCell::Period(period) => {
                if period.0 == u32::MAX {
                    return Err(ScheduleError::CalendarPeriodOverflow);
                }
                let held = match self.periods.find(period) {
                    Some(held) => *held,
                    None => TruckPeriodOverride { units: None, availability: None, utilisation: None },
                };
                match set_field(held, field, value) {
                    Err(error) => Err(error),
                    Ok(now) => {
                        if now.is_empty() {
                            self.periods.remove(period);
                        } else {
                            self.periods.put(period, now);
                        }
                        Ok(())
                    },
                }
            },
        }
    }
}

/// What a calendar sets, it gives back: after an edit of a period, the period
/// has the value, or the default where the edit took it away, and every other
/// period has what it had.
pub proof fn edit_reads_back<N: Scalar>(
    calendar: CalendarView<N>,
    period: CalendarPeriod,
    field: TruckField,
    value: Option<N>,
    other: CalendarPeriod,
)
    requires
        rising(calendar.periods),
    ensures
        calendar.set(CalendarCell::Period(period), field, value) matches Ok(now) ==> {
            &&& rising(now.periods)
            &&& other != period ==> now.at(other) == calendar.at(other)
            &&& field is Units ==> now.at(period) == (TruckFleet {
                units: match value {
                    Some(value) => value.floored(),
                    None => calendar.default_units,
                },
                ..calendar.at(period)
            })
            &&& field is Availability ==> now.at(period) == (TruckFleet {
                availability: match value {
                    Some(value) => value,
                    None => calendar.default_availability,
                },
                ..calendar.at(period)
            })
            &&& field is Utilisation ==> now.at(period) == (TruckFleet {
                utilisation: match value {
                    Some(value) => value,
                    None => calendar.default_utilisation,
                },
                ..calendar.at(period)
            })
        },
{
    let held = match held_under(calendar.periods, period) {
        Some(held) => held,
        None => TruckPeriodOverride::blank(),
    };
    if let Ok(now) = field_set(held, field, value) {
        put_reads_back(calendar.periods, period, now, other);
        remove_reads_back(calendar.periods, period, other);
        put_reads_back(calendar.periods, period, now, period);
        remove_reads_back(calendar.periods, period, period);
    }
}

/// An edit that is not refused keeps a calendar that can stand standing.
pub proof fn edit_stands<N: Scalar>(
    calendar: CalendarView<N>,
    cell: CalendarCell,
    field: TruckField,
    value: Option<N>,
)
    requires
        rising(calendar.periods),
        calendar.error() is None,
        is_percentage(N::of_whole(1)),
    ensures
        calendar.set(cell, field, value) matches Ok(now) ==> now.error() is None && rising(now.periods),
{
    first_none_means_all(calendar.period_error(), 0, calendar.periods.len() as int);
    if let Ok(now) = calendar.set(cell, field, value) {
        if let CalendarCell::Period(period) = cell {
            let held = match held_under(calendar.periods, period) {
                Some(held) => held,
                None => TruckPeriodOverride::blank(),
            };
            held_is_entry(calendar.periods, period);
            if held_under(calendar.periods, period) is Some {
                let i = choose|i: int| 0 <= i < calendar.periods.len() && (#[trigger] calendar.periods[i]).0 == period;
                assert(calendar.period_error()(i) is None);
            }
            let next = field_set(held, field, value).unwrap();
            put_reads_back(calendar.periods, period, next, period);
            remove_reads_back(calendar.periods, period, period);
            let at = crate::ledger::rank(calendar.periods, period);
            assert forall|i: int| 0 <= i < now.periods.len() implies #[trigger] now.period_error()(i) is None by {
                if now.periods[i].0 == period {
                    if !next.empty() {
                        held_is_entry(now.periods, period);
                        assert(now.periods[i].1 == next);
                    } else {
                        held_is_entry(now.periods, period);
                    }
                } else {
                    held_is_entry(now.periods, now.periods[i].0);
                    put_reads_back(calendar.periods, period, next, now.periods[i].0);
                    remove_reads_back(calendar.periods, period, now.periods[i].0);
                    held_is_entry(calendar.periods, now.periods[i].0);
                    let j = choose|j: int|
                        0 <= j < calendar.periods.len() && (#[trigger] calendar.periods[j]).0 == now.periods[i].0;
                    assert(calendar.period_error()(j) is None);
                }
            }
            all_means_first_none(now.period_error(), 0, now.periods.len() as int);
        } else {
            assert forall|i: int| 0 <= i < now.periods.len() implies #[trigger] now.period_error()(i) is None by {
                assert(calendar.period_error()(i) is None);
            }
            all_means_first_none(now.period_error(), 0, now.periods.len() as int);
        }
    }
}

pub(crate) proof fn first_none_means_all<E>(f: spec_fn(int) -> Option<E>, i: int, n: int)
    ensures
        crate::listing::first_from(i, n, f) is None ==> forall|j: int| i <= j < n ==> (#[trigger] f(j)) is None,
    decreases n - i,
{
    if i < n && f(i) is None {
        first_none_means_all(f, i + 1, n);
    }
}

proof fn all_means_first_none<E>(f: spec_fn(int) -> Option<E>, i: int, n: int)
    requires
        forall|j: int| i <= j < n ==> (#[trigger] f(j)) is None,
    ensures
        crate::listing::first_from(i, n, f) is None,
    decreases n - i,
{
    if i < n {
        all_means_first_none(f, i + 1, n);
    }
}

/// A period that neither has an override nor follows one has the settings of
/// the period before it.
proof fn quiet_period<N: Scalar>(calendar: CalendarView<N>, later: u32)
    requires
        0 < later,
        held_under(calendar.periods, CalendarPeriod(later)) is None,
        held_under(calendar.periods, CalendarPeriod((later - 1) as u32)) is None,
    ensures
        calendar.at(CalendarPeriod(later)) == calendar.at(CalendarPeriod((later - 1) as u32)),
{
}

proof fn change_from_is<N: Scalar>(calendar: CalendarView<N>, period: CalendarPeriod, i: int)
    requires
        0 <= i,
        rising(calendar.periods),
    ensures
        match calendar.change_from(period, i) {
            Some(next) => calendar.changed(period, next.0) && forall|j: int|
                i <= j < calendar.periods.len() ==> {
                    let at = (#[trigger] calendar.periods[j]).0.0;
                    &&& calendar.changed(period, at) ==> next.0 <= at
                    &&& at < u32::MAX && calendar.changed(period, (at + 1) as u32) ==> next.0 <= at + 1
                },
            None => forall|j: int|
                i <= j < calendar.periods.len() ==> {
                    let at = (#[trigger] calendar.periods[j]).0.0;
                    &&& !calendar.changed(period, at)
                    &&& !(at < u32::MAX && calendar.changed(period, (at + 1) as u32))
                },
        },
    decreases calendar.periods.len() - i,
{
    if i < calendar.periods.len() {
        change_from_is(calendar, period, i + 1);
        assert forall|j: int| i < j < calendar.periods.len() implies calendar.periods[i].0.0 < (
        #[trigger] calendar.periods[j]).0.0 by {
            assert(calendar.periods[i].0.before(calendar.periods[j].0));
        }
    }
}

proof fn settings_hold<N: Scalar>(calendar: CalendarView<N>, period: CalendarPeriod, end: int, later: u32)
    requires
        rising(calendar.periods),
        calendar.at(period).availability.number(),
        calendar.at(period).utilisation.number(),
        period.0 < later < end,
        forall|j: int|
            0 <= j < calendar.periods.len() ==> {
                let at = (#[trigger] calendar.periods[j]).0.0;
                &&& at < end ==> !calendar.changed(period, at)
                &&& at + 1 < end && at < u32::MAX ==> !calendar.changed(period, (at + 1) as u32)
            },
    ensures
        !calendar.changed(period, later),
    decreases later,
{
    let before = (later - 1) as u32;
    held_is_entry(calendar.periods, CalendarPeriod(later));
    held_is_entry(calendar.periods, CalendarPeriod(before));
    if held_under(calendar.periods, CalendarPeriod(later)) is Some {
        let j = choose|j: int|
            0 <= j < calendar.periods.len() && (#[trigger] calendar.periods[j]).0 == CalendarPeriod(later);
        assert(!calendar.changed(period, calendar.periods[j].0.0));
    } else if held_under(calendar.periods, CalendarPeriod(before)) is Some {
        let j = choose|j: int|
            0 <= j < calendar.periods.len() && (#[trigger] calendar.periods[j]).0 == CalendarPeriod(before);
        assert(calendar.periods[j].0.0 + 1 == later);
    } else {
        quiet_period(calendar, later);
        if before == period.0 {
            let now = calendar.at(period);
            N::comparison_laws(now.availability, now.availability, now.availability);
            N::comparison_laws(now.utilisation, now.utilisation, now.utilisation);
        } else {
            settings_hold(calendar, period, end, before);
        }
    }
}

/// The next change is the first period after `period` whose settings differ,
/// and there is none exactly where all later periods are alike.
pub proof fn next_change_is_first<N: Scalar>(calendar: CalendarView<N>, period: CalendarPeriod)
    requires
        rising(calendar.periods),
        calendar.at(period).availability.number(),
        calendar.at(period).utilisation.number(),
    ensures
        match calendar.change_after(period) {
            Some(next) => calendar.changed(period, next.0) && forall|later: u32|
                period.0 < later < next.0 ==> !#[trigger] calendar.changed(period, later),
            None => forall|later: u32| period.0 < later ==> !#[trigger] calendar.changed(period, later),
        },
{
    change_from_is(calendar, period, 0);
    let end: int = match calendar.change_after(period) {
        Some(next) => next.0 as int,
        None => u32::MAX + 1,
    };
    assert forall|later: u32| period.0 < later < end implies !#[trigger] calendar.changed(period, later) by {
        settings_hold(calendar, period, end, later);
    }
}

} // verus!
