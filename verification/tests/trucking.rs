//! Calendars, fleets, rules and transport.
use mine_schedule::error::ScheduleError;
use mine_schedule::ledger::Ledger;
use mine_schedule::scalar::{Fixed, Scalar};
use mine_schedule::trucking::calendar::{
    checked_percentage, checked_positive, checked_units, CalendarCell, CalendarPeriod, TruckCalendar, TruckField,
    TruckPeriodOverride,
};
use mine_schedule::trucking::fleet::{ProposedName, TruckCellEdit, TruckFleetConfig};
use mine_schedule::trucking::loading::LoadedName;
use mine_schedule::trucking::rules::{
    scope_covers, yes, DestinationId, DestinationSelection, GroundScope, HashItem, LoaderAgentId, LoaderSelection,
    MovementSourceScope, MovementSourceSelection, RouteContext, RouteSource, TruckClassId, TruckingRuleId,
};
use mine_schedule::trucking::transport::{
    available_truck_hours, checked_distance, coefficients, travel_limited_tonnes, TransportCoefficients,
};

fn n(value: i64) -> Fixed {
    Fixed(value * 1_000_000_000)
}

fn milli(value: i64) -> Fixed {
    Fixed(value * 1_000_000)
}

fn name(text: &str, same: &[bool]) -> ProposedName {
    ProposedName { checked: Ok(text.to_string()), same: same.to_vec() }
}

fn route(loader: u64, source: RouteSource, destination: u64) -> RouteContext {
    RouteContext { loader: LoaderAgentId(loader), source, destination: DestinationId(destination) }
}

fn anywhere() -> RouteContext {
    route(1, RouteSource::Ground { covering: vec![] }, 1)
}

fn two_classes() -> TruckFleetConfig<Fixed> {
    let mut fleet = TruckFleetConfig::new();
    assert_eq!(fleet.add_class(name("Large", &[])).unwrap(), TruckClassId(0));
    assert_eq!(fleet.add_class(name("Small", &[false])).unwrap(), TruckClassId(1));
    fleet
}

#[test]
fn a_new_calendar_has_no_trucks() {
    let calendar: TruckCalendar<Fixed> = TruckCalendar::standard();
    let fleet = calendar.values_at(CalendarPeriod(3));
    assert_eq!(fleet.units, 0);
    assert_eq!(fleet.availability, n(1));
    assert_eq!(fleet.utilisation, n(1));
    assert!(calendar.validate().is_ok());
}

#[test]
fn a_period_gives_back_what_was_set() {
    let mut calendar: TruckCalendar<Fixed> = TruckCalendar::standard();
    calendar.set(CalendarCell::Default, TruckField::Units, Some(n(4))).unwrap();
    calendar.set(CalendarCell::Period(CalendarPeriod(2)), TruckField::Availability, Some(milli(500))).unwrap();
    assert_eq!(calendar.values_at(CalendarPeriod(2)).units, 4);
    assert_eq!(calendar.values_at(CalendarPeriod(2)).availability, milli(500));
    assert_eq!(calendar.values_at(CalendarPeriod(3)).availability, n(1));
    assert_eq!(calendar.values_at(CalendarPeriod(2)).effective_units(), n(2));
    calendar.set(CalendarCell::Period(CalendarPeriod(2)), TruckField::Availability, None).unwrap();
    assert_eq!(calendar.periods.entries.len(), 0);
    calendar.set(CalendarCell::Default, TruckField::Units, None).unwrap();
    assert_eq!(calendar.values_at(CalendarPeriod(2)).units, 0);
}

#[test]
fn a_refused_edit_changes_nothing() {
    let mut calendar: TruckCalendar<Fixed> = TruckCalendar::standard();
    let period = CalendarCell::Period(CalendarPeriod(2));
    assert!(matches!(
        calendar.set(period, TruckField::Units, Some(milli(1500))),
        Err(ScheduleError::InvalidTruckUnits)
    ));
    assert!(matches!(
        calendar.set(period, TruckField::Utilisation, Some(n(2))),
        Err(ScheduleError::InvalidCalendarPercentage)
    ));
    assert!(matches!(
        calendar.set(CalendarCell::Default, TruckField::Availability, Some(n(-1))),
        Err(ScheduleError::InvalidCalendarPercentage)
    ));
    assert!(matches!(
        calendar.set(CalendarCell::Period(CalendarPeriod(u32::MAX)), TruckField::Units, Some(n(1))),
        Err(ScheduleError::CalendarPeriodOverflow)
    ));
    assert_eq!(calendar.periods.entries.len(), 0);
    assert!(calendar.validate().is_ok());
}

#[test]
fn a_calendar_that_was_read_is_checked() {
    let mut calendar: TruckCalendar<Fixed> = TruckCalendar::standard();
    let empty = TruckPeriodOverride { units: None, availability: None, utilisation: None };
    calendar.periods.put(CalendarPeriod(1), empty);
    assert!(matches!(calendar.validate(), Err(ScheduleError::EmptyCalendarOverride)));
    calendar.periods = Ledger::new();
    calendar.periods.put(CalendarPeriod(1), TruckPeriodOverride { availability: Some(n(3)), ..empty });
    assert!(matches!(calendar.validate(), Err(ScheduleError::InvalidCalendarPercentage)));
    calendar.periods = Ledger::new();
    calendar.periods.put(CalendarPeriod(u32::MAX), TruckPeriodOverride { units: Some(1), ..empty });
    assert!(matches!(calendar.validate(), Err(ScheduleError::CalendarPeriodOverflow)));
    calendar.periods = Ledger::new();
    calendar.default_utilisation = n(2);
    assert!(matches!(calendar.validate(), Err(ScheduleError::InvalidCalendarPercentage)));
}

#[test]
fn the_next_change_is_the_first_period_that_differs() {
    let mut calendar: TruckCalendar<Fixed> = TruckCalendar::standard();
    calendar.set(CalendarCell::Default, TruckField::Units, Some(n(4))).unwrap();
    calendar.set(CalendarCell::Period(CalendarPeriod(5)), TruckField::Units, Some(n(4))).unwrap();
    calendar.set(CalendarCell::Period(CalendarPeriod(9)), TruckField::Units, Some(n(2))).unwrap();
    assert_eq!(calendar.next_change_after(CalendarPeriod(0)), Some(CalendarPeriod(9)));
    assert_eq!(calendar.next_change_after(CalendarPeriod(9)), Some(CalendarPeriod(10)));
    assert_eq!(calendar.next_change_after(CalendarPeriod(10)), None);
}

#[test]
fn single_values_are_checked() {
    assert_eq!(checked_units(n(3)).unwrap(), 3);
    assert!(matches!(checked_units(n(-1)), Err(ScheduleError::InvalidTruckUnits)));
    assert_eq!(checked_percentage(milli(250)).unwrap(), milli(250));
    assert!(matches!(checked_percentage(milli(1001)), Err(ScheduleError::InvalidCalendarPercentage)));
    assert!(matches!(checked_positive(n(0), ScheduleError::InvalidSpeed), Err(ScheduleError::InvalidSpeed)));
    assert_eq!(checked_distance(n(3)).unwrap(), n(3));
    assert!(matches!(checked_distance(n(-3)), Err(ScheduleError::InvalidDistance)));
}

#[test]
fn a_class_is_added_with_defaults_and_its_own_id() {
    let fleet = two_classes();
    let small = fleet.class(TruckClassId(1)).unwrap();
    assert_eq!(small.name, "Small");
    assert_eq!(small.payload_t, n(250));
    assert_eq!(small.loaded_speed_kph, n(20));
    assert_eq!(small.unloaded_speed_kph, n(50));
    assert!(fleet.class(TruckClassId(7)).is_none());
}

#[test]
fn names_are_taken_once() {
    let mut fleet = two_classes();
    assert!(matches!(fleet.add_class(name("small", &[false, true])), Err(ScheduleError::DuplicateName(held)) if held == "small"));
    let bad = ProposedName { checked: Err(ScheduleError::InvalidName), same: vec![false, false] };
    assert!(matches!(fleet.add_class(bad), Err(ScheduleError::InvalidName)));
    // A class may keep its own name.
    fleet.rename_class(TruckClassId(1), name("SMALL", &[false, true])).unwrap();
    assert_eq!(fleet.class(TruckClassId(1)).unwrap().name, "SMALL");
    assert!(matches!(
        fleet.rename_class(TruckClassId(1), name("Large", &[true, false])),
        Err(ScheduleError::DuplicateName(_))
    ));
    assert!(matches!(
        fleet.rename_class(TruckClassId(9), name("New", &[false, false])),
        Err(ScheduleError::UnknownTruckClass)
    ));
}

#[test]
fn ids_are_never_given_twice() {
    let mut fleet = two_classes();
    fleet.remove_class(TruckClassId(1)).unwrap();
    assert_eq!(fleet.add_class(name("Third", &[false])).unwrap(), TruckClassId(2));
    fleet.next_class_id = u64::MAX;
    assert!(matches!(fleet.add_class(name("Fourth", &[false, false])), Err(ScheduleError::IdsExhausted)));
    assert_eq!(fleet.classes.len(), 2);
    let mut fresh: TruckFleetConfig<Fixed> = TruckFleetConfig::new();
    assert!(fresh.is_pristine());
    fresh.raise_allocator_to(&fleet);
    assert!(fresh.is_empty());
    assert!(!fresh.is_pristine());
    assert_eq!(fresh.next_class_id, u64::MAX);
}

#[test]
fn a_copied_class_follows_the_one_it_copies() {
    let mut fleet = two_classes();
    fleet.set_class_payload(TruckClassId(0), n(300)).unwrap();
    let edit = TruckCellEdit {
        class: TruckClassId(0),
        cell: CalendarCell::Period(CalendarPeriod(3)),
        field: TruckField::Units,
        value: Some(n(6)),
    };
    fleet.set_truck_cells(&vec![edit]).unwrap();
    let copy = fleet.duplicate_class(TruckClassId(0), name("Large 2", &[false, false])).unwrap();
    assert_eq!(copy, TruckClassId(2));
    assert_eq!(fleet.classes[1].id, copy);
    assert_eq!(fleet.classes[1].payload_t, n(300));
    assert_eq!(fleet.classes[1].calendar.values_at(CalendarPeriod(3)).units, 6);
    assert_eq!(fleet.classes[2].name, "Small");
    assert!(matches!(
        fleet.duplicate_class(TruckClassId(9), name("X", &[false, false, false])),
        Err(ScheduleError::UnknownTruckClass)
    ));
}

#[test]
fn speeds_and_payloads_are_above_zero() {
    let mut fleet = two_classes();
    assert!(matches!(fleet.set_class_payload(TruckClassId(0), n(0)), Err(ScheduleError::InvalidPayload)));
    assert!(matches!(fleet.set_class_speeds(TruckClassId(0), n(5), n(0)), Err(ScheduleError::InvalidSpeed)));
    assert!(matches!(fleet.set_class_speeds(TruckClassId(8), n(5), n(5)), Err(ScheduleError::UnknownTruckClass)));
    fleet.set_class_speeds(TruckClassId(0), n(30), n(60)).unwrap();
    assert_eq!(fleet.classes[0].loaded_speed_kph, n(30));
    assert_eq!(fleet.classes[0].unloaded_speed_kph, n(60));
}

#[test]
fn calendar_edits_are_all_or_nothing() {
    let mut fleet = two_classes();
    let edit = |class: u64, value: i64| TruckCellEdit {
        class: TruckClassId(class),
        cell: CalendarCell::Default,
        field: TruckField::Units,
        value: Some(milli(value)),
    };
    assert!(matches!(
        fleet.set_truck_cells(&vec![edit(0, 3000), edit(1, 2500)]),
        Err(ScheduleError::InvalidTruckUnits)
    ));
    assert_eq!(fleet.classes[0].calendar.default_units, 0);
    assert!(matches!(
        fleet.set_truck_cells(&vec![edit(0, 3000), edit(0, 4000)]),
        Err(ScheduleError::DuplicateCalendarCell)
    ));
    assert!(matches!(
        fleet.set_truck_cells(&vec![edit(0, 3000), edit(5, 4000)]),
        Err(ScheduleError::UnknownTruckClass)
    ));
    assert_eq!(fleet.classes[0].calendar.default_units, 0);
    fleet.set_truck_cells(&vec![edit(0, 3000), edit(1, 4000)]).unwrap();
    assert_eq!(fleet.classes[0].calendar.default_units, 3);
    assert_eq!(fleet.classes[1].calendar.default_units, 4);
}

#[test]
fn a_class_that_a_rule_names_stays() {
    let mut fleet = two_classes();
    let rule = fleet.add_rule(name("All", &[]), &vec![TruckClassId(1)]).unwrap();
    assert_eq!(rule, TruckingRuleId(0));
    assert!(matches!(fleet.remove_class(TruckClassId(1)), Err(ScheduleError::TruckClassInUse(users)) if users == vec!["All"]));
    assert!(matches!(fleet.remove_class(TruckClassId(8)), Err(ScheduleError::UnknownTruckClass)));
    fleet.remove_class(TruckClassId(0)).unwrap();
    assert_eq!(fleet.classes.len(), 1);
    assert_eq!(fleet.classes[0].id, TruckClassId(1));
}

#[test]
fn rules_permit_the_union_in_fleet_order() {
    let mut fleet = two_classes();
    assert!(fleet.allowed_classes(&anywhere()).is_empty());
    fleet.add_rule(name("Second", &[]), &vec![TruckClassId(1)]).unwrap();
    let all = fleet.add_rule(name("Both", &[false]), &vec![TruckClassId(1), TruckClassId(0), TruckClassId(1)]).unwrap();
    assert_eq!(fleet.rule(all).unwrap().classes, vec![TruckClassId(0), TruckClassId(1)]);
    assert_eq!(fleet.allowed_classes(&anywhere()), vec![TruckClassId(0), TruckClassId(1)]);
    fleet.set_rule_enabled(all, false).unwrap();
    assert_eq!(fleet.allowed_classes(&anywhere()), vec![TruckClassId(1)]);
}

#[test]
fn a_rule_names_known_classes() {
    let mut fleet = two_classes();
    assert!(matches!(fleet.add_rule(name("A", &[]), &vec![]), Err(ScheduleError::EmptyRuleSelection)));
    assert!(matches!(fleet.add_rule(name("A", &[]), &vec![TruckClassId(7)]), Err(ScheduleError::UnknownTruckClass)));
    let rule = fleet.add_rule(name("A", &[]), &vec![TruckClassId(0)]).unwrap();
    assert!(matches!(
        fleet.add_rule(name("a", &[true]), &vec![TruckClassId(0)]),
        Err(ScheduleError::DuplicateName(_))
    ));
    assert!(matches!(fleet.set_rule_classes(rule, &vec![]), Err(ScheduleError::EmptyRuleSelection)));
    assert!(matches!(
        fleet.set_rule_classes(TruckingRuleId(4), &vec![TruckClassId(0)]),
        Err(ScheduleError::UnknownTruckingRule)
    ));
    fleet.set_rule_classes(rule, &vec![TruckClassId(1)]).unwrap();
    assert_eq!(fleet.rules[0].classes, vec![TruckClassId(1)]);
    fleet.next_rule_id = u64::MAX;
    assert!(matches!(
        fleet.add_rule(name("B", &[false]), &vec![TruckClassId(0)]),
        Err(ScheduleError::IdsExhausted)
    ));
    assert!(matches!(fleet.duplicate_rule(rule, name("B", &[false])), Err(ScheduleError::IdsExhausted)));
}

#[test]
fn rules_are_copied_renamed_and_removed() {
    let mut fleet = two_classes();
    let rule = fleet.add_rule(name("A", &[]), &vec![TruckClassId(0)]).unwrap();
    fleet.set_rule_destinations(rule, DestinationSelection::Only(vec![DestinationId(3)])).unwrap();
    let copy = fleet.duplicate_rule(rule, name("B", &[false])).unwrap();
    assert_eq!(copy, TruckingRuleId(1));
    assert!(matches!(&fleet.rules[1].destinations, DestinationSelection::Only(ids) if *ids == vec![DestinationId(3)]));
    fleet.rename_rule(copy, name("C", &[false, false])).unwrap();
    assert_eq!(fleet.rules[1].name, "C");
    assert!(matches!(fleet.rename_rule(copy, name("A", &[true, false])), Err(ScheduleError::DuplicateName(_))));
    assert!(matches!(fleet.duplicate_rule(TruckingRuleId(9), name("D", &[false, false])), Err(ScheduleError::UnknownTruckingRule)));
    fleet.remove_rule(rule).unwrap();
    assert!(matches!(fleet.remove_rule(rule), Err(ScheduleError::UnknownTruckingRule)));
    assert_eq!(fleet.rules.len(), 1);
    assert_eq!(fleet.rules[0].id, copy);
}

#[test]
fn selections_are_kept_in_order_and_once() {
    let mut fleet = two_classes();
    let rule = fleet.add_rule(name("A", &[]), &vec![TruckClassId(0)]).unwrap();
    let loaders = LoaderSelection::Only(vec![LoaderAgentId(5), LoaderAgentId(2), LoaderAgentId(5)]);
    fleet.set_rule_loaders(rule, loaders).unwrap();
    assert!(matches!(&fleet.rules[0].loaders, LoaderSelection::Only(held) if *held == vec![LoaderAgentId(2), LoaderAgentId(5)]));
    assert!(matches!(
        fleet.set_rule_loaders(rule, LoaderSelection::Only(vec![])),
        Err(ScheduleError::EmptyRuleSelection)
    ));
    let ground = MovementSourceScope::Ground(GroundScope { key: 7, valid: true });
    let pile = MovementSourceScope::Stockpile(DestinationId(4));
    fleet.set_rule_sources(rule, MovementSourceSelection::Only(vec![pile, ground, pile])).unwrap();
    assert!(matches!(&fleet.rules[0].sources, MovementSourceSelection::Only(held) if *held == vec![pile, ground]));
    let broken = MovementSourceScope::Ground(GroundScope { key: 7, valid: false });
    assert!(matches!(
        fleet.set_rule_sources(rule, MovementSourceSelection::Only(vec![pile, broken])),
        Err(ScheduleError::InvalidSourceScope)
    ));
    assert!(matches!(
        fleet.set_rule_sources(rule, MovementSourceSelection::Only(vec![])),
        Err(ScheduleError::EmptyRuleSelection)
    ));
    let ids = vec![DestinationId(9), DestinationId(1), DestinationId(9)];
    fleet.set_rule_destinations(rule, DestinationSelection::Only(ids)).unwrap();
    assert!(matches!(&fleet.rules[0].destinations, DestinationSelection::Only(held) if *held == vec![DestinationId(9), DestinationId(1)]));
    assert!(matches!(
        fleet.set_rule_destinations(rule, DestinationSelection::Only(vec![])),
        Err(ScheduleError::EmptyRuleSelection)
    ));
    assert!(matches!(
        fleet.set_rule_loaders(TruckingRuleId(8), LoaderSelection::All),
        Err(ScheduleError::UnknownTruckingRule)
    ));
}

#[test]
fn a_rule_matches_any_of_each_and_all_at_once() {
    let mut fleet = two_classes();
    let rule = fleet.add_rule(name("A", &[]), &vec![TruckClassId(0)]).unwrap();
    fleet.set_rule_loaders(rule, LoaderSelection::Only(vec![LoaderAgentId(1), LoaderAgentId(2)])).unwrap();
    let scopes = vec![
        MovementSourceScope::Ground(GroundScope { key: 7, valid: true }),
        MovementSourceScope::Stockpile(DestinationId(4)),
    ];
    fleet.set_rule_sources(rule, MovementSourceSelection::Only(scopes)).unwrap();
    fleet.set_rule_destinations(rule, DestinationSelection::Only(vec![DestinationId(3)])).unwrap();
    let held = &fleet.rules[0];
    assert!(held.matches(&route(2, RouteSource::Ground { covering: vec![6, 7] }, 3)));
    assert!(held.matches(&route(1, RouteSource::Stockpile(DestinationId(4)), 3)));
    assert!(!held.matches(&route(3, RouteSource::Stockpile(DestinationId(4)), 3)));
    assert!(!held.matches(&route(1, RouteSource::Ground { covering: vec![6] }, 3)));
    assert!(!held.matches(&route(1, RouteSource::Stockpile(DestinationId(4)), 2)));
    assert!(scope_covers(MovementSourceScope::Stockpile(DestinationId(4)), &RouteSource::Stockpile(DestinationId(4))));
    assert!(!scope_covers(
        MovementSourceScope::Stockpile(DestinationId(4)),
        &RouteSource::Ground { covering: vec![4] }
    ));
    assert!(yes());
}

fn read(count: usize) -> Vec<LoadedName> {
    (0..count).map(|i| LoadedName { valid: true, same: vec![false; i] }).collect()
}

fn loaded() -> TruckFleetConfig<Fixed> {
    let mut fleet = two_classes();
    fleet.add_rule(name("A", &[]), &vec![TruckClassId(0)]).unwrap();
    fleet.add_rule(name("B", &[false]), &vec![TruckClassId(0), TruckClassId(1)]).unwrap();
    fleet
}

#[test]
fn a_read_fleet_moves_its_counters_past_its_ids() {
    let mut fleet = loaded();
    fleet.next_class_id = 0;
    fleet.next_rule_id = 9;
    fleet.validate_loaded(&read(2), &read(2)).unwrap();
    assert_eq!(fleet.next_class_id, 2);
    assert_eq!(fleet.next_rule_id, 9);
    fleet.classes[1].id = TruckClassId(u64::MAX);
    fleet.rules[1].classes = vec![TruckClassId(0)];
    assert!(matches!(fleet.validate_loaded(&read(2), &read(2)), Err(ScheduleError::IdsExhausted)));
}

#[test]
fn a_read_class_is_checked() {
    let mut fleet = loaded();
    fleet.classes[1].id = TruckClassId(0);
    assert!(matches!(fleet.validate_loaded(&read(2), &read(2)), Err(ScheduleError::DuplicateId)));
    let mut fleet = loaded();
    let mut names = read(2);
    names[1].valid = false;
    assert!(matches!(fleet.validate_loaded(&names, &read(2)), Err(ScheduleError::InvalidName)));
    let mut names = read(2);
    names[1].same[0] = true;
    assert!(matches!(fleet.validate_loaded(&names, &read(2)), Err(ScheduleError::DuplicateName(held)) if held == "Small"));
    fleet.classes[0].payload_t = n(0);
    assert!(matches!(fleet.validate_loaded(&read(2), &read(2)), Err(ScheduleError::InvalidPayload)));
    let mut fleet = loaded();
    fleet.classes[0].unloaded_speed_kph = n(-1);
    assert!(matches!(fleet.validate_loaded(&read(2), &read(2)), Err(ScheduleError::InvalidSpeed)));
    let mut fleet = loaded();
    fleet.classes[0].calendar.default_availability = n(2);
    assert!(matches!(fleet.validate_loaded(&read(2), &read(2)), Err(ScheduleError::InvalidCalendarPercentage)));
}

#[test]
fn a_read_rule_is_checked() {
    let mut fleet = loaded();
    fleet.rules[1].id = TruckingRuleId(0);
    assert!(matches!(fleet.validate_loaded(&read(2), &read(2)), Err(ScheduleError::DuplicateId)));
    let mut fleet = loaded();
    let mut names = read(2);
    names[0].valid = false;
    assert!(matches!(fleet.validate_loaded(&read(2), &names), Err(ScheduleError::InvalidName)));
    let mut names = read(2);
    names[1].same[0] = true;
    assert!(matches!(fleet.validate_loaded(&read(2), &names), Err(ScheduleError::DuplicateName(held)) if held == "B"));
    fleet.rules[0].loaders = LoaderSelection::Only(vec![]);
    assert!(matches!(fleet.validate_loaded(&read(2), &read(2)), Err(ScheduleError::EmptyRuleSelection)));
    let mut fleet = loaded();
    let broken = MovementSourceScope::Ground(GroundScope { key: 1, valid: false });
    fleet.rules[0].sources = MovementSourceSelection::Only(vec![broken]);
    assert!(matches!(fleet.validate_loaded(&read(2), &read(2)), Err(ScheduleError::InvalidSourceScope)));
    fleet.rules[0].sources = MovementSourceSelection::Only(vec![]);
    assert!(matches!(fleet.validate_loaded(&read(2), &read(2)), Err(ScheduleError::EmptyRuleSelection)));
    let mut fleet = loaded();
    fleet.rules[0].destinations = DestinationSelection::Only(vec![]);
    assert!(matches!(fleet.validate_loaded(&read(2), &read(2)), Err(ScheduleError::EmptyRuleSelection)));
    let mut fleet = loaded();
    fleet.rules[0].classes = vec![];
    assert!(matches!(fleet.validate_loaded(&read(2), &read(2)), Err(ScheduleError::EmptyRuleSelection)));
    fleet.rules[0].classes = vec![TruckClassId(1), TruckClassId(1)];
    assert!(matches!(fleet.validate_loaded(&read(2), &read(2)), Err(ScheduleError::DuplicateId)));
    fleet.rules[0].classes = vec![TruckClassId(6)];
    assert!(matches!(fleet.validate_loaded(&read(2), &read(2)), Err(ScheduleError::UnknownTruckClass)));
}

#[test]
fn a_fingerprint_lists_everything() {
    let mut fleet = loaded();
    let edit = TruckCellEdit {
        class: TruckClassId(0),
        cell: CalendarCell::Period(CalendarPeriod(3)),
        field: TruckField::Units,
        value: Some(n(6)),
    };
    fleet.set_truck_cells(&vec![edit]).unwrap();
    let items = fleet.hash_content();
    // Two classes of eight, four for the override, and two rules of seven.
    assert_eq!(items.len(), 8 + 4 + 8 + 2 * 7);
    assert!(matches!(&items[1], HashItem::Text(held) if held == "Large"));
    assert!(matches!(items[8], HashItem::Count(3)));
    assert!(matches!(items[9], HashItem::MaybeCount(Some(6))));
    let rule = fleet.rules[1].hash_content_public();
    assert!(matches!(rule[0], HashItem::Number(1)));
    assert!(matches!(rule[1], HashItem::Flag(true)));
    assert!(matches!(&rule[6], HashItem::Numbers(held) if *held == vec![0, 1]));
}

#[test]
fn a_fingerprint_tells_selections_apart() {
    let mut fleet = loaded();
    fleet.set_rule_loaders(TruckingRuleId(0), LoaderSelection::Only(vec![LoaderAgentId(4)])).unwrap();
    let scopes = vec![
        MovementSourceScope::Ground(GroundScope { key: 7, valid: true }),
        MovementSourceScope::Stockpile(DestinationId(4)),
    ];
    fleet.set_rule_sources(TruckingRuleId(0), MovementSourceSelection::Only(scopes)).unwrap();
    let items = fleet.rules[0].hash_content_public();
    assert!(matches!(items[3], HashItem::Byte(1)));
    assert!(matches!(&items[4], HashItem::Numbers(held) if *held == vec![4]));
    assert!(matches!(items[5], HashItem::Byte(1)));
    assert!(matches!(items[6], HashItem::Byte(0)));
    assert!(matches!(items[7], HashItem::Scope(7)));
    assert!(matches!(items[8], HashItem::Byte(1)));
    assert!(matches!(items[9], HashItem::Number(4)));
    assert!(matches!(items[10], HashItem::Byte(0)));
}

#[test]
fn a_travel_cycle_is_out_loaded_and_back_empty() {
    let fleet = two_classes();
    let class = &fleet.classes[0];
    let costs = coefficients(class, &anywhere(), n(10)).unwrap();
    assert_eq!(costs.travel_cycle_h, milli(700));
    assert_eq!(costs.truck_hours_per_tonne, Fixed(2_800_000));
    assert_eq!(travel_limited_tonnes(milli(28), costs), n(10));
    let free = TransportCoefficients { travel_cycle_h: n(0), truck_hours_per_tonne: n(0) };
    assert_eq!(travel_limited_tonnes(n(5), free), n(0));
}

#[test]
fn transport_that_is_no_number_is_refused() {
    let mut fleet = two_classes();
    assert!(matches!(coefficients(&fleet.classes[0], &anywhere(), n(0)), Err(ScheduleError::InvalidDistance)));
    assert!(matches!(
        coefficients(&fleet.classes[0], &anywhere(), Fixed(1)),
        Err(ScheduleError::UnrepresentableTransport)
    ));
    fleet.classes[0].loaded_speed_kph = n(0);
    assert!(matches!(coefficients(&fleet.classes[0], &anywhere(), n(1)), Err(ScheduleError::InvalidSpeed)));
    fleet.classes[1].payload_t = n(-1);
    assert!(matches!(coefficients(&fleet.classes[1], &anywhere(), n(1)), Err(ScheduleError::InvalidPayload)));
}

#[test]
fn truck_hours_of_adjoining_spans_add_up() {
    let mut calendar: TruckCalendar<Fixed> = TruckCalendar::standard();
    calendar.set(CalendarCell::Default, TruckField::Units, Some(n(3))).unwrap();
    calendar.set(CalendarCell::Period(CalendarPeriod(1)), TruckField::Units, Some(n(5))).unwrap();
    let hours = |calendar: &TruckCalendar<Fixed>, from: Fixed, to: Fixed| available_truck_hours(calendar, from, to).unwrap();
    assert_eq!(hours(&calendar, n(2), n(5)), n(9));
    assert_eq!(hours(&calendar, n(24), n(48)), n(120));
    assert_eq!(hours(&calendar, n(10), n(24)), n(42));
    assert_eq!(hours(&calendar, n(24), n(54)), n(138));
    assert_eq!(hours(&calendar, n(10), n(54)), n(42 + 138));
    // A third of the time: each stretch is rounded down by less than a billionth.
    calendar.set(CalendarCell::Default, TruckField::Availability, Some(Fixed(333_333_333))).unwrap();
    let first = hours(&calendar, Fixed(1), Fixed(2_000_000_002));
    let second = hours(&calendar, Fixed(2_000_000_002), n(30));
    let both = hours(&calendar, Fixed(1), n(30));
    assert!((both.0 - (first.0 + second.0)).abs() <= 2, "{both:?} {first:?} {second:?}");
}

#[test]
fn truck_hours_follow_the_calendar() {
    let mut calendar: TruckCalendar<Fixed> = TruckCalendar::standard();
    calendar.set(CalendarCell::Default, TruckField::Units, Some(n(2))).unwrap();
    calendar.set(CalendarCell::Period(CalendarPeriod(1)), TruckField::Units, Some(n(1))).unwrap();
    assert_eq!(available_truck_hours(&calendar, n(12), n(36)).unwrap(), n(36));
    assert_eq!(available_truck_hours(&calendar, n(0), n(96)).unwrap(), n(48 + 24 + 96));
    assert_eq!(available_truck_hours(&calendar, n(5), n(5)).unwrap(), n(0));
    assert!(matches!(
        available_truck_hours(&calendar, n(-1), n(5)),
        Err(ScheduleError::UnrepresentableTransport)
    ));
    assert!(matches!(
        available_truck_hours(&calendar, n(0), Fixed::infinity()),
        Err(ScheduleError::UnrepresentableTransport)
    ));
}
