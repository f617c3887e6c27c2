//! What edits of a fleet change, and what they leave alone.
use vstd::prelude::*;

use crate::error::ScheduleError;
use crate::listing::first_where_finds;
use crate::scalar::{Fixed, Scalar, STEPS};
use crate::trucking::calendar::{CalendarCell, CalendarView, TruckField};
use crate::trucking::fleet::{
    class_at, class_is, class_taken, once_after, rule_at, rule_is, rule_taken, FleetView,
};
use crate::trucking::laws::{checked_classes_hold, once_holds};
use crate::trucking::permits::{any_invalid, invalid_scope};
use crate::trucking::rules::{
    covered, DestinationId, MovementSourceScope, RouteContext, RouteSource, RuleView, Selected, TruckClassId, TruckingRuleId,
};

verus! {

// Which rules speak of a movement.

/// A rule speaks of a movement exactly where it is enabled and the movement's
/// loader, start and destination are each among those that it names, where it
/// names any. A scope of the ground names a start that it covers, and one of a
/// pile that pile.
pub proof fn rule_speaks_of(rule: RuleView, route: RouteContext)
    ensures
        rule.fits(route) == {
            &&& rule.enabled
            &&& rule.loaders matches Selected::Only(agents) ==> exists|i: int|
                0 <= i < agents.len() && #[trigger] agents[i] == route.loader
            &&& rule.sources matches Selected::Only(scopes) ==> exists|i: int|
                0 <= i < scopes.len() && match (#[trigger] scopes[i], route.source) {
                    (MovementSourceScope::Ground(ground), RouteSource::Ground { covering }) => covering@.contains(
                        ground.key,
                    ),
                    (MovementSourceScope::Stockpile(held), RouteSource::Stockpile(from)) => held == from,
                    _ => false,
                }
            &&& rule.destinations matches Selected::Only(ids) ==> exists|i: int|
                0 <= i < ids.len() && #[trigger] ids[i] == route.destination
        },
{
    if let Selected::Only(scopes) = rule.sources {
        if rule.source_fits(route) {
            let i = choose|i: int|
                0 <= i < scopes.len() && #[trigger] covered(scopes[i], route.source);
            assert(scopes[i] == scopes[i]);
        }
        if exists|i: int|
            0 <= i < scopes.len() && match (#[trigger] scopes[i], route.source) {
                (MovementSourceScope::Ground(ground), RouteSource::Ground { covering }) => covering@.contains(ground.key),
                (MovementSourceScope::Stockpile(held), RouteSource::Stockpile(from)) => held == from,
                _ => false,
            } {
            let i = choose|i: int|
                0 <= i < scopes.len() && match (#[trigger] scopes[i], route.source) {
                    (MovementSourceScope::Ground(ground), RouteSource::Ground { covering }) => covering@.contains(
                        ground.key,
                    ),
                    (MovementSourceScope::Stockpile(held), RouteSource::Stockpile(from)) => held == from,
                    _ => false,
                };
            assert(covered(scopes[i], route.source));
        }
    }
}

// Finding.

/// Class `c` is the first with an id.
pub open spec fn first_class<N>(fleet: FleetView<N>, id: TruckClassId, c: int) -> bool {
    &&& 0 <= c < fleet.classes.len()
    &&& fleet.classes[c].id == id
    &&& forall|k: int| 0 <= k < c ==> (#[trigger] fleet.classes[k]).id != id
}

/// Rule `c` is the first with an id.
pub open spec fn first_rule<N>(fleet: FleetView<N>, id: TruckingRuleId, c: int) -> bool {
    &&& 0 <= c < fleet.rules.len()
    &&& fleet.rules[c].id == id
    &&& forall|k: int| 0 <= k < c ==> (#[trigger] fleet.rules[k]).id != id
}

proof fn class_found<N>(fleet: FleetView<N>, id: TruckClassId)
    ensures
        class_at(fleet.classes, id) matches Some(c) ==> first_class(fleet, id, c),
        class_at(fleet.classes, id) is None ==> forall|c: int| !#[trigger] first_class(fleet, id, c),
        forall|c: int| #[trigger] first_class(fleet, id, c) ==> class_at(fleet.classes, id) == Some(c),
{
    let named = class_is(fleet.classes, id);
    first_where_finds(0, fleet.classes.len() as int, named);
    if let Some(c) = class_at(fleet.classes, id) {
        assert forall|k: int| 0 <= k < c implies (#[trigger] fleet.classes[k]).id != id by {
            assert(!named(k));
        }
    }
    assert forall|c: int| #[trigger] first_class(fleet, id, c) implies class_at(fleet.classes, id) == Some(c) by {
        assert(named(c));
        let x = class_at(fleet.classes, id)->0;
        assert(named(x));
        if x < c {
            assert(fleet.classes[x].id != id);
        }
    }
}

proof fn rule_found<N>(fleet: FleetView<N>, id: TruckingRuleId)
    ensures
        rule_at(fleet.rules, id) matches Some(c) ==> first_rule(fleet, id, c),
        rule_at(fleet.rules, id) is None ==> forall|c: int| !#[trigger] first_rule(fleet, id, c),
        forall|c: int| #[trigger] first_rule(fleet, id, c) ==> rule_at(fleet.rules, id) == Some(c),
{
    let named = rule_is(fleet.rules, id);
    first_where_finds(0, fleet.rules.len() as int, named);
    if let Some(c) = rule_at(fleet.rules, id) {
        assert forall|k: int| 0 <= k < c implies (#[trigger] fleet.rules[k]).id != id by {
            assert(!named(k));
        }
    }
    assert forall|c: int| #[trigger] first_rule(fleet, id, c) implies rule_at(fleet.rules, id) == Some(c) by {
        assert(named(c));
        let x = rule_at(fleet.rules, id)->0;
        assert(named(x));
        if x < c {
            assert(fleet.rules[x].id != id);
        }
    }
}

/// Nothing but class `c` differs.
pub open spec fn only_class<N>(before: FleetView<N>, now: FleetView<N>, c: int) -> bool {
    &&& now.rules == before.rules
    &&& now.next_class_id == before.next_class_id
    &&& now.next_rule_id == before.next_rule_id
    &&& now.classes.len() == before.classes.len()
    &&& now.classes[c].id == before.classes[c].id
    &&& forall|k: int| 0 <= k < before.classes.len() && k != c ==> #[trigger] now.classes[k] == before.classes[k]
}

/// Nothing but rule `c` differs.
pub open spec fn only_rule<N>(before: FleetView<N>, now: FleetView<N>, c: int) -> bool {
    &&& now.classes == before.classes
    &&& now.next_class_id == before.next_class_id
    &&& now.next_rule_id == before.next_rule_id
    &&& now.rules.len() == before.rules.len()
    &&& now.rules[c].id == before.rules[c].id
    &&& forall|k: int| 0 <= k < before.rules.len() && k != c ==> #[trigger] now.rules[k] == before.rules[k]
}

/// Both lists hold the same items.
pub open spec fn same_items<T>(a: Seq<T>, b: Seq<T>) -> bool {
    forall|x: T| #[trigger] a.contains(x) <==> b.contains(x)
}

proof fn kept_once<T>(items: Seq<T>)
    ensures
        once_after(Seq::empty(), items).no_duplicates(),
        same_items(once_after(Seq::empty(), items), items),
{
    once_holds(Seq::<T>::empty(), items, items.len());
    assert(items.take(items.len() as int) =~= items);
}

// Classes.

/// A class is added under a name that no other has, where there are ids left. It
/// comes last, under the next id, with one truck that is always at work, and
/// everything else stays.
pub proof fn class_is_added<N: Scalar>(fleet: FleetView<N>, name: String, same: Seq<bool>)
    requires
        same.len() == fleet.classes.len(),
    ensures
        ({
            let taken = exists|c: int| 0 <= c < fleet.classes.len() && #[trigger] same[c];
            let done = fleet.add_class(Ok(name), same);
            &&& done is Ok <==> !taken && fleet.next_class_id < u64::MAX
            &&& taken ==> done == Err::<(FleetView<N>, TruckClassId), ScheduleError>(ScheduleError::DuplicateName(name))
            &&& done matches Ok((now, id)) ==> {
                &&& id.0 == fleet.next_class_id
                &&& now.classes.len() == fleet.classes.len() + 1
                &&& now.classes.last().id == id
                &&& now.classes.last().name == name
                &&& now.classes.last().calendar.periods.len() == 0
                &&& now.classes.last().calendar.default_availability == N::of_whole(1)
                &&& now.classes.last().calendar.default_utilisation == N::of_whole(1)
                &&& forall|c: int| 0 <= c < fleet.classes.len() ==> #[trigger] now.classes[c] == fleet.classes[c]
                &&& now.rules == fleet.rules
                &&& now.next_rule_id == fleet.next_rule_id
                &&& now.next_class_id == fleet.next_class_id + 1
            }
        }),
{
    if exists|c: int| 0 <= c < fleet.classes.len() && #[trigger] same[c] {
        let c = choose|c: int| 0 <= c < fleet.classes.len() && #[trigger] same[c];
        let id_at = |k: int| fleet.classes[k].id;
        assert(id_at(c) == fleet.classes[c].id);
        assert(class_taken(fleet.classes, same, None));
    }
    if class_taken(fleet.classes, same, None) {
        let c = choose|c: int| 0 <= c < fleet.classes.len() && (#[trigger] fleet.classes[c]).id == fleet.classes[c].id && same[c];
        assert(same[c]);
    }
}

/// A class is copied to the place behind it, under the next id and another name,
/// with the same payload, speeds and calendar, and everything else stays.
pub proof fn class_is_copied<N: Scalar>(fleet: FleetView<N>, id: TruckClassId, c: int, name: String, same: Seq<bool>)
    requires
        same.len() == fleet.classes.len(),
        first_class(fleet, id, c),
        fleet.next_class_id < u64::MAX,
        forall|k: int| 0 <= k < same.len() ==> !#[trigger] same[k],
    ensures
        fleet.duplicate_class(id, Ok(name), same) matches Ok((now, given)) && {
            let (copy, old) = (now.classes[c + 1], fleet.classes[c]);
            &&& given.0 == fleet.next_class_id
            &&& now.classes.len() == fleet.classes.len() + 1
            &&& copy.id == given
            &&& copy.name == name
            &&& copy.payload_t == old.payload_t
            &&& copy.loaded_speed_kph == old.loaded_speed_kph
            &&& copy.unloaded_speed_kph == old.unloaded_speed_kph
            &&& copy.calendar == old.calendar
            &&& forall|k: int| 0 <= k <= c ==> #[trigger] now.classes[k] == fleet.classes[k]
            &&& forall|k: int| c < k < fleet.classes.len() ==> now.classes[k + 1] == #[trigger] fleet.classes[k]
            &&& now.rules == fleet.rules
            &&& now.next_class_id == fleet.next_class_id + 1
        },
{
    class_found(fleet, id);
}

/// An edit of a class changes what it is of, in the class that it names, and
/// nothing else. A name that another class has is refused, and so are a payload
/// and speeds that are not above zero.
pub proof fn class_is_edited<N: Scalar>(
    fleet: FleetView<N>,
    id: TruckClassId,
    c: int,
    name: String,
    same: Seq<bool>,
    first: N,
    second: N,
)
    requires
        same.len() == fleet.classes.len(),
        first_class(fleet, id, c),
    ensures
        match fleet.rename_class(id, Ok(name), same) {
            Ok((now, _)) => {
                &&& only_class(fleet, now, c)
                &&& now.classes[c].name == name
                &&& now.classes[c].payload_t == fleet.classes[c].payload_t
                &&& now.classes[c].loaded_speed_kph == fleet.classes[c].loaded_speed_kph
                &&& now.classes[c].unloaded_speed_kph == fleet.classes[c].unloaded_speed_kph
                &&& now.classes[c].calendar == fleet.classes[c].calendar
            },
            Err(error) => error == ScheduleError::DuplicateName(name) && exists|k: int|
                0 <= k < fleet.classes.len() && (#[trigger] fleet.classes[k]).id != id && same[k],
        },
        match fleet.set_class_payload(id, first) {
            Ok((now, _)) => {
                &&& first.finite() && !first.at_most(N::of_whole(0))
                &&& only_class(fleet, now, c)
                &&& now.classes[c].payload_t == first
                &&& now.classes[c].name == fleet.classes[c].name
                &&& now.classes[c].loaded_speed_kph == fleet.classes[c].loaded_speed_kph
                &&& now.classes[c].unloaded_speed_kph == fleet.classes[c].unloaded_speed_kph
                &&& now.classes[c].calendar == fleet.classes[c].calendar
            },
            Err(error) => error == ScheduleError::InvalidPayload && !(first.finite() && !first.at_most(N::of_whole(0))),
        },
        match fleet.set_class_speeds(id, first, second) {
            Ok((now, _)) => {
                &&& first.finite() && !first.at_most(N::of_whole(0))
                &&& second.finite() && !second.at_most(N::of_whole(0))
                &&& only_class(fleet, now, c)
                &&& now.classes[c].loaded_speed_kph == first
                &&& now.classes[c].unloaded_speed_kph == second
                &&& now.classes[c].name == fleet.classes[c].name
                &&& now.classes[c].payload_t == fleet.classes[c].payload_t
                &&& now.classes[c].calendar == fleet.classes[c].calendar
            },
            Err(error) => error == ScheduleError::InvalidSpeed && !(first.finite() && !first.at_most(N::of_whole(0))
                && second.finite() && !second.at_most(N::of_whole(0))),
        },
{
    class_found(fleet, id);
    if class_taken(fleet.classes, same, Some(id)) {
        let k = choose|k: int|
            0 <= k < fleet.classes.len() && Some((#[trigger] fleet.classes[k]).id) != Some(id) && same[k];
        assert(fleet.classes[k].id != id && same[k]);
    }
}

// Rules.

/// A rule is added under a name that no other has, for classes of the fleet, at
/// least one. It comes last, under the next id, enabled and for every movement,
/// and everything else stays.
pub proof fn rule_is_added<N: Scalar>(fleet: FleetView<N>, name: String, same: Seq<bool>, ids: Seq<TruckClassId>)
    requires
        same.len() == fleet.rules.len(),
    ensures
        ({
            let taken = exists|c: int| 0 <= c < fleet.rules.len() && #[trigger] same[c];
            let known = forall|k: int| 0 <= k < ids.len() ==> class_at(fleet.classes, #[trigger] ids[k]) is Some;
            let done = fleet.add_rule(Ok(name), same, ids);
            &&& done is Ok <==> !taken && known && ids.len() > 0 && fleet.next_rule_id < u64::MAX
            &&& done matches Ok((now, id)) ==> {
                let rule = now.rules.last();
                &&& id.0 == fleet.next_rule_id
                &&& now.rules.len() == fleet.rules.len() + 1
                &&& rule.id == id
                &&& rule.name == name
                &&& rule.enabled
                &&& rule.loaders is All && rule.sources is All && rule.destinations is All
                &&& same_items(rule.classes, ids)
                &&& forall|c: int| 0 <= c < fleet.rules.len() ==> #[trigger] now.rules[c] == fleet.rules[c]
                &&& now.classes == fleet.classes
                &&& now.next_class_id == fleet.next_class_id
                &&& now.next_rule_id == fleet.next_rule_id + 1
            }
        }),
{
    checked_classes_hold(fleet, ids);
    if exists|c: int| 0 <= c < fleet.rules.len() && #[trigger] same[c] {
        let c = choose|c: int| 0 <= c < fleet.rules.len() && #[trigger] same[c];
        let id_at = |k: int| fleet.rules[k].id;
        assert(id_at(c) == fleet.rules[c].id);
        assert(rule_taken(fleet.rules, same, None));
    }
    if rule_taken(fleet.rules, same, None) {
        let c = choose|c: int| 0 <= c < fleet.rules.len() && (#[trigger] fleet.rules[c]).id == fleet.rules[c].id && same[c];
        assert(same[c]);
    }
}

/// A rule is copied to the place behind it, under the next id and another name,
/// for the same movements and classes, and everything else stays.
pub proof fn rule_is_copied<N: Scalar>(fleet: FleetView<N>, id: TruckingRuleId, c: int, name: String, same: Seq<bool>)
    requires
        same.len() == fleet.rules.len(),
        first_rule(fleet, id, c),
        fleet.next_rule_id < u64::MAX,
        forall|k: int| 0 <= k < same.len() ==> !#[trigger] same[k],
    ensures
        fleet.duplicate_rule(id, Ok(name), same) matches Ok((now, given)) && {
            let (copy, old) = (now.rules[c + 1], fleet.rules[c]);
            &&& given.0 == fleet.next_rule_id
            &&& now.rules.len() == fleet.rules.len() + 1
            &&& copy.id == given
            &&& copy.name == name
            &&& copy.enabled == old.enabled
            &&& copy.loaders == old.loaders
            &&& copy.sources == old.sources
            &&& copy.destinations == old.destinations
            &&& copy.classes == old.classes
            &&& forall|k: int| 0 <= k <= c ==> #[trigger] now.rules[k] == fleet.rules[k]
            &&& forall|k: int| c < k < fleet.rules.len() ==> now.rules[k + 1] == #[trigger] fleet.rules[k]
            &&& now.classes == fleet.classes
            &&& now.next_rule_id == fleet.next_rule_id + 1
        },
{
    rule_found(fleet, id);
}

/// An edit of a rule changes what it is of, in the rule that it names, and
/// nothing else. A choice of nothing is refused, and so is a scope that is not
/// valid; what is chosen is kept, each once.
pub proof fn rule_is_edited<N: Scalar>(
    fleet: FleetView<N>,
    id: TruckingRuleId,
    c: int,
    enabled: bool,
    sources: Selected<MovementSourceScope>,
    destinations: Selected<DestinationId>,
    ids: Seq<TruckClassId>,
)
    requires
        first_rule(fleet, id, c),
    ensures
        fleet.set_rule_enabled(id, enabled) matches Ok((now, _)) && only_rule(fleet, now, c) && now.rules[c] == (
        RuleView { enabled, ..fleet.rules[c] }),
        match fleet.set_rule_sources(id, sources) {
            Ok((now, _)) => {
                &&& only_rule(fleet, now, c)
                &&& now.rules[c] == (RuleView { sources: now.rules[c].sources, ..fleet.rules[c] })
                &&& match (sources, now.rules[c].sources) {
                    (Selected::All, Selected::All) => true,
                    (Selected::Only(given), Selected::Only(kept)) => same_items(given, kept) && kept.no_duplicates()
                        && given.len() > 0,
                    _ => false,
                }
            },
            Err(_) => sources matches Selected::Only(given) && (given.len() == 0 || exists|k: int|
                0 <= k < given.len() && ((#[trigger] given[k]) matches MovementSourceScope::Ground(ground)
                    && !ground.valid)),
        },
        match fleet.set_rule_destinations(id, destinations) {
            Ok((now, _)) => {
                &&& only_rule(fleet, now, c)
                &&& now.rules[c] == (RuleView { destinations: now.rules[c].destinations, ..fleet.rules[c] })
                &&& match (destinations, now.rules[c].destinations) {
                    (Selected::All, Selected::All) => true,
                    (Selected::Only(given), Selected::Only(kept)) => same_items(given, kept) && kept.no_duplicates()
                        && given.len() > 0,
                    _ => false,
                }
            },
            Err(_) => destinations matches Selected::Only(given) && given.len() == 0,
        },
        match fleet.set_rule_classes(id, ids) {
            Ok((now, _)) => {
                &&& only_rule(fleet, now, c)
                &&& now.rules[c] == (RuleView { classes: now.rules[c].classes, ..fleet.rules[c] })
                &&& same_items(now.rules[c].classes, ids)
            },
            Err(_) => ids.len() == 0 || exists|k: int|
                0 <= k < ids.len() && class_at(fleet.classes, #[trigger] ids[k]) is None,
        },
{
    rule_found(fleet, id);
    checked_classes_hold(fleet, ids);
    if let Selected::Only(scopes) = sources {
        kept_once(scopes);
        if any_invalid(scopes) {
            let k = choose|k: int| 0 <= k < scopes.len() && invalid_scope(#[trigger] scopes[k]);
            assert(scopes[k] matches MovementSourceScope::Ground(ground) && !ground.valid);
        }
    }
    if let Selected::Only(given) = destinations {
        kept_once(given);
    }
}

// Calendars.

/// An edit of the defaults changes the one that it is of and nothing else, and
/// taking a default away puts back what a calendar starts with.
pub proof fn defaults_are_edited<N: Scalar>(calendar: CalendarView<N>, field: TruckField, value: Option<N>)
    ensures
        calendar.set(CalendarCell::Default, field, value) matches Ok(now) ==> {
            let fresh = CalendarView::<N>::blank();
            &&& now.periods == calendar.periods
            &&& now.default_units == (if !(field is Units) {
                calendar.default_units
            } else if let Some(units) = value {
                units.floored()
            } else {
                fresh.default_units
            })
            &&& now.default_availability == (if !(field is Availability) {
                calendar.default_availability
            } else if let Some(share) = value {
                share
            } else {
                N::of_whole(1)
            })
            &&& now.default_utilisation == (if !(field is Utilisation) {
                calendar.default_utilisation
            } else if let Some(share) = value {
                share
            } else {
                N::of_whole(1)
            })
        },
{
}

/// A calendar takes a share exactly where it is from nothing to the whole, and a
/// number of trucks exactly where it is whole, not below zero and not past what
/// a count can hold.
pub proof fn calendars_take_what_stands(calendar: CalendarView<Fixed>, cell: CalendarCell, field: TruckField, value: Fixed)
    requires
        cell matches CalendarCell::Period(period) ==> period.0 < u32::MAX,
    ensures
        calendar.set(cell, field, Some(value)) is Ok <==> match field {
            TruckField::Units => value.0 >= 0 && value.0 as int % STEPS as int == 0 && value.0 <= u32::MAX * STEPS,
            _ => 0 <= value.0 <= STEPS,
        },
        calendar.set(cell, field, None) is Ok,
{
    let v = value.0 as int;
    assert(Fixed::of_whole(1).0 == 1_000_000_000);
    assert(Fixed::of_whole(u32::MAX as u64).0 == u32::MAX * 1_000_000_000);
    if v >= 0 && v <= u32::MAX * 1_000_000_000 {
        let whole = v / 1_000_000_000;
        assert(value.floored() == whole);
        assert(Fixed::of_whole(whole as u64).0 == whole * 1_000_000_000);
        assert(v == whole * 1_000_000_000 <==> v % 1_000_000_000 == 0);
    }
}

} // verus!
