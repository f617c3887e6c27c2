//! Which fleets and calendars are accepted as they are read, told of their
//! entries alone.
use vstd::prelude::*;

use crate::listing::first_from;
use crate::scalar::{Fixed, Scalar, STEPS};
use crate::trucking::calendar::CalendarView;
use crate::trucking::fleet::{class_at, FleetView};
use crate::trucking::loading::{class_fault, mention_fault, name_repeats, rule_fault, selection_fault, LoadedName};
use crate::trucking::permits::{any_invalid, invalid_scope};
use crate::trucking::rules::{MovementSourceScope, Selected};

verus! {

proof fn none_first<E>(i: int, n: int, f: spec_fn(int) -> Option<E>)
    ensures
        first_from(i, n, f) is None <==> forall|k: int| i <= k < n ==> (#[trigger] f(k)) is None,
    decreases n - i,
{
    if i < n && f(i) is None {
        none_first(i + 1, n, f);
    }
}

/// A share of the time: from nothing to the whole.
pub open spec fn is_share(value: Fixed) -> bool {
    0 <= value.0 <= STEPS
}

/// A calendar stands exactly where its default shares are from nothing to the
/// whole, and each period that it speaks of is before the last, sets something,
/// and sets shares from nothing to the whole.
pub proof fn calendars_stand(calendar: CalendarView<Fixed>)
    ensures
        calendar.error() is None <==> {
            &&& is_share(calendar.default_availability)
            &&& is_share(calendar.default_utilisation)
            &&& forall|i: int|
                0 <= i < calendar.periods.len() ==> {
                    let (period, set) = #[trigger] calendar.periods[i];
                    &&& period.0 < u32::MAX
                    &&& set.units is Some || set.availability is Some || set.utilisation is Some
                    &&& set.availability matches Some(share) ==> is_share(share)
                    &&& set.utilisation matches Some(share) ==> is_share(share)
                }
        },
{
    let wrong = calendar.period_error();
    let n = calendar.periods.len() as int;
    none_first(0, n, wrong);
    assert(Fixed::of_whole(1).0 == STEPS);
    if calendar.error() is None {
        assert forall|i: int| 0 <= i < n implies {
            let (period, set) = #[trigger] calendar.periods[i];
            &&& period.0 < u32::MAX
            &&& set.units is Some || set.availability is Some || set.utilisation is Some
            &&& set.availability matches Some(share) ==> is_share(share)
            &&& set.utilisation matches Some(share) ==> is_share(share)
        } by {
            assert(wrong(i) is None);
        }
    }
}

/// A class stands: no class before it has its id or its name, its name is one,
/// its payload and speeds are above zero, and its calendar stands.
pub open spec fn class_stands(fleet: FleetView<Fixed>, names: Seq<LoadedName>, i: int) -> bool {
    let class = fleet.classes[i];
    &&& forall|j: int| 0 <= j < i ==> (#[trigger] fleet.classes[j]).id != class.id
    &&& names[i].valid
    &&& forall|j: int| 0 <= j < i ==> !#[trigger] names[i].same@[j]
    &&& 0 < class.payload_t.0 < i64::MAX
    &&& 0 < class.loaded_speed_kph.0 < i64::MAX
    &&& 0 < class.unloaded_speed_kph.0 < i64::MAX
    &&& class.calendar.error() is None
}

/// A rule stands: no rule before it has its id or its name, its name is one, it
/// selects something and only scopes that are valid, and it names classes of the
/// fleet, each once.
pub open spec fn rule_stands(fleet: FleetView<Fixed>, names: Seq<LoadedName>, i: int) -> bool {
    let rule = fleet.rules[i];
    &&& forall|j: int| 0 <= j < i ==> (#[trigger] fleet.rules[j]).id != rule.id
    &&& names[i].valid
    &&& forall|j: int| 0 <= j < i ==> !#[trigger] names[i].same@[j]
    &&& rule.loaders matches Selected::Only(agents) ==> agents.len() > 0
    &&& rule.sources matches Selected::Only(scopes) ==> scopes.len() > 0 && forall|k: int|
        0 <= k < scopes.len() ==> ((#[trigger] scopes[k]) matches MovementSourceScope::Ground(ground) ==> ground.valid)
    &&& rule.destinations matches Selected::Only(ids) ==> ids.len() > 0
    &&& rule.classes.len() > 0
    &&& forall|a: int, b: int| 0 <= a < b < rule.classes.len() ==> #[trigger] rule.classes[a] != #[trigger] rule.classes[b]
    &&& forall|k: int| 0 <= k < rule.classes.len() ==> class_at(fleet.classes, #[trigger] rule.classes[k]) is Some
}

proof fn class_is_judged(fleet: FleetView<Fixed>, names: Seq<LoadedName>, i: int)
    requires
        0 <= i < fleet.classes.len(),
    ensures
        class_fault(fleet.classes, names)(i) is None <==> class_stands(fleet, names, i),
{
    if name_repeats(names[i], i) {
        let j = choose|j: int| 0 <= j < i && (#[trigger] names[i].same@[j]);
        assert(names[i].same@[j]);
    }
}

proof fn rule_is_judged(fleet: FleetView<Fixed>, names: Seq<LoadedName>, i: int)
    requires
        0 <= i < fleet.rules.len(),
    ensures
        rule_fault(fleet.classes, fleet.rules, names)(i) is None <==> rule_stands(fleet, names, i),
{
    let rule = fleet.rules[i];
    let wrong = mention_fault(fleet.classes, rule.classes);
    let n = rule.classes.len() as int;
    none_first(0, n, wrong);
    if name_repeats(names[i], i) {
        let j = choose|j: int| 0 <= j < i && (#[trigger] names[i].same@[j]);
        assert(names[i].same@[j]);
    }
    if let Selected::Only(scopes) = rule.sources {
        if any_invalid(scopes) {
            let k = choose|k: int| 0 <= k < scopes.len() && invalid_scope(#[trigger] scopes[k]);
            assert(scopes[k] matches MovementSourceScope::Ground(ground) && !ground.valid);
        } else {
            assert forall|k: int| 0 <= k < scopes.len() implies (
            (#[trigger] scopes[k]) matches MovementSourceScope::Ground(ground) ==> ground.valid) by {
                assert(!invalid_scope(scopes[k]));
            }
        }
    }
    if selection_fault(rule) is None && first_from(0, n, wrong) is None {
        assert forall|a: int, b: int| 0 <= a < b < n implies #[trigger] rule.classes[a] != #[trigger] rule.classes[b] by {
            assert(wrong(b) is None);
        }
        assert forall|k: int| 0 <= k < n implies class_at(fleet.classes, #[trigger] rule.classes[k]) is Some by {
            assert(wrong(k) is None);
        }
    }
    if rule_stands(fleet, names, i) {
        assert forall|k: int| 0 <= k < n implies (#[trigger] wrong(k)) is None by {
            if exists|j: int| 0 <= j < k && (#[trigger] rule.classes[j]) == rule.classes[k] {
                let j = choose|j: int| 0 <= j < k && (#[trigger] rule.classes[j]) == rule.classes[k];
                assert(rule.classes[j] != rule.classes[k]);
            }
        }
    }
}

/// A fleet is accepted as it is read exactly where each of its classes and each
/// of its rules stands.
pub proof fn fleets_are_accepted(fleet: FleetView<Fixed>, class_names: Seq<LoadedName>, rule_names: Seq<LoadedName>)
    ensures
        fleet.fault(class_names, rule_names) is None <==> {
            &&& forall|i: int| 0 <= i < fleet.classes.len() ==> #[trigger] class_stands(fleet, class_names, i)
            &&& forall|i: int| 0 <= i < fleet.rules.len() ==> #[trigger] rule_stands(fleet, rule_names, i)
        },
{
    let classes = class_fault(fleet.classes, class_names);
    let rules = rule_fault(fleet.classes, fleet.rules, rule_names);
    none_first(0, fleet.classes.len() as int, classes);
    none_first(0, fleet.rules.len() as int, rules);
    assert forall|i: int|
        #![trigger classes(i)]
        #![trigger class_stands(fleet, class_names, i)]
        0 <= i < fleet.classes.len() implies (classes(i) is None <==> class_stands(fleet, class_names, i)) by {
        class_is_judged(fleet, class_names, i);
    }
    assert forall|i: int|
        #![trigger rules(i)]
        #![trigger rule_stands(fleet, rule_names, i)]
        0 <= i < fleet.rules.len() implies (rules(i) is None <==> rule_stands(fleet, rule_names, i)) by {
        rule_is_judged(fleet, rule_names, i);
    }
}

} // verus!
