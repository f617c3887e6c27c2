//! Why a schedule refuses an edit or a file.
use vstd::prelude::*;

verus! {

#[derive(Clone, Debug)]
pub enum ScheduleError {
    /// A name that cannot be given to anything.
    InvalidName,
    DuplicateName(String),
    DuplicateId,
    IdsExhausted,
    UnknownTruckClass,
    UnknownTruckingRule,
    /// The rules that still name the class.
    TruckClassInUse(Vec<String>),
    InvalidPayload,
    InvalidSpeed,
    InvalidDistance,
    InvalidTruckUnits,
    InvalidCalendarPercentage,
    CalendarPeriodOverflow,
    EmptyCalendarOverride,
    DuplicateCalendarCell,
    EmptyRuleSelection,
    InvalidSourceScope,
    UnrepresentableTransport,
    MalformedReference,
    DuplicateMember,
    UnknownMember,
}

} // verus!
