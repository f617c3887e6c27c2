//! The classes and rules of a fleet, and the edits that keep them in order.
use vstd::prelude::*;

use crate::error::ScheduleError;
use crate::listing::{first_where, flat, folded};
use crate::scalar::Scalar;
use crate::trucking::calendar::{
    checked_positive, is_positive, CalendarCell, CalendarView, TruckCalendar, TruckField,
};
use crate::trucking::rules::{RouteContext, RuleView, TruckClassId, TruckingRule, TruckingRuleId};

verus! {

pub const DEFAULT_PAYLOAD_T: u64 = 250;

pub const DEFAULT_LOADED_KPH: u64 = 20;

pub const DEFAULT_UNLOADED_KPH: u64 = 50;

/// A kind of haul truck, and the pool of them on site.
#[derive(Clone, Debug)]
pub struct TruckClass<N> {
    pub id: TruckClassId,
    pub name: String,
    /// Tonnes per load.
    pub payload_t: N,
    pub loaded_speed_kph: N,
    pub unloaded_speed_kph: N,
    pub calendar: TruckCalendar<N>,
}

/// What a [`TruckClass`] holds.
pub struct ClassView<N> {
    pub id: TruckClassId,
    pub name: String,
    pub payload_t: N,
    pub loaded_speed_kph: N,
    pub unloaded_speed_kph: N,
    pub calendar: CalendarView<N>,
}

impl<N> View for TruckClass<N> {
    type V = ClassView<N>;

    open spec fn view(&self) -> ClassView<N> {
        ClassView {
            id: self.id,
            name: self.name,
            payload_t: self.payload_t,
            loaded_speed_kph: self.loaded_speed_kph,
            unloaded_speed_kph: self.unloaded_speed_kph,
            calendar: self.calendar@,
        }
    }
}

/// One edit of a calendar. Units are a whole number in the same type as the
/// shares of time.
#[derive(Clone, Copy, Debug)]
pub struct TruckCellEdit<N> {
    pub class: TruckClassId,
    pub cell: CalendarCell,
    pub field: TruckField,
    pub value: Option<N>,
}

/// A name that somebody wants to give: as it would be kept, or why it cannot be
/// a name, and for each entry that has a name, whether it reads the same.
#[derive(Debug)]
pub struct ProposedName {
    pub checked: Result<String, ScheduleError>,
    pub same: Vec<bool>,
}

/// Everything that is kept of the trucks. An id is given once and never again.
#[derive(Clone, Debug)]
pub struct TruckFleetConfig<N> {
    pub classes: Vec<TruckClass<N>>,
    pub next_class_id: u64,
    pub rules: Vec<TruckingRule>,
    pub next_rule_id: u64,
}

/// What a [`TruckFleetConfig`] holds.
pub struct FleetView<N> {
    pub classes: Seq<ClassView<N>>,
    pub next_class_id: u64,
    pub rules: Seq<RuleView>,
    pub next_rule_id: u64,
}

impl<N> View for TruckFleetConfig<N> {
    type V = FleetView<N>;

    open spec fn view(&self) -> FleetView<N> {
        FleetView {
            classes: Seq::new(self.classes@.len(), |i: int| self.classes@[i]@),
            next_class_id: self.next_class_id,
            rules: Seq::new(self.rules@.len(), |i: int| self.rules@[i]@),
            next_rule_id: self.next_rule_id,
        }
    }
}

pub open spec fn class_is<N>(classes: Seq<ClassView<N>>, id: TruckClassId) -> spec_fn(int) -> bool {
    |i: int| classes[i].id == id
}

/// The place of a class.
pub open spec fn class_at<N>(classes: Seq<ClassView<N>>, id: TruckClassId) -> Option<int> {
    first_where(0, classes.len() as int, class_is(classes, id))
}

pub open spec fn rule_is(rules: Seq<RuleView>, id: TruckingRuleId) -> spec_fn(int) -> bool {
    |i: int| rules[i].id == id
}

/// The place of a rule.
pub open spec fn rule_at(rules: Seq<RuleView>, id: TruckingRuleId) -> Option<int> {
    first_where(0, rules.len() as int, rule_is(rules, id))
}

/// A class other than `except` reads as a proposed name does.
pub open spec fn class_taken<N>(classes: Seq<ClassView<N>>, same: Seq<bool>, except: Option<TruckClassId>) -> bool {
    exists|i: int| 0 <= i < classes.len() && Some((#[trigger] classes[i]).id) != except && same[i]
}

/// A rule other than `except` reads as a proposed name does.
pub open spec fn rule_taken(rules: Seq<RuleView>, same: Seq<bool>, except: Option<TruckingRuleId>) -> bool {
    exists|i: int| 0 <= i < rules.len() && Some((#[trigger] rules[i]).id) != except && same[i]
}

/// The sequence with `item` added where it is missing.
pub open spec fn with_once<T>(items: Seq<T>, item: T) -> Seq<T> {
    if items.contains(item) {
        items
    } else {
        items.push(item)
    }
}

pub open spec fn once_step<T>(items: Seq<T>) -> spec_fn(Seq<T>, int) -> Seq<T> {
    |kept: Seq<T>, i: int| with_once(kept, items[i])
}

/// The first of each of the items, in order, after what `kept` has.
pub open spec fn once_after<T>(kept: Seq<T>, items: Seq<T>) -> Seq<T> {
    folded(items.len(), kept, once_step(items))
}

pub open spec fn strangers<N>(classes: Seq<ClassView<N>>, ids: Seq<TruckClassId>) -> spec_fn(int) -> Seq<TruckClassId> {
    |i: int|
        if class_at(classes, ids[i]) is None {
            seq![ids[i]]
        } else {
            Seq::empty()
        }
}

pub open spec fn members<N>(classes: Seq<ClassView<N>>, ids: Seq<TruckClassId>) -> spec_fn(int) -> Seq<TruckClassId> {
    |c: int|
        if class_at(classes, classes[c].id) == Some(c) && ids.contains(classes[c].id) {
            seq![classes[c].id]
        } else {
            Seq::empty()
        }
}

/// Ids in the order of the classes, after those that no class has.
pub open spec fn fleet_order<N>(classes: Seq<ClassView<N>>, ids: Seq<TruckClassId>) -> Seq<TruckClassId> {
    flat(ids.len(), strangers(classes, ids)) + flat(classes.len(), members(classes, ids))
}

/// All ids belong to classes.
pub open spec fn all_known<N>(classes: Seq<ClassView<N>>, ids: Seq<TruckClassId>) -> bool {
    forall|i: int| 0 <= i < ids.len() ==> class_at(classes, #[trigger] ids[i]) is Some
}

pub open spec fn class_keeper<N>(classes: Seq<ClassView<N>>, id: TruckClassId) -> spec_fn(int) -> Seq<ClassView<N>> {
    |i: int|
        if classes[i].id != id {
            seq![classes[i]]
        } else {
            Seq::empty()
        }
}

pub open spec fn rule_keeper(rules: Seq<RuleView>, id: TruckingRuleId) -> spec_fn(int) -> Seq<RuleView> {
    |i: int|
        if rules[i].id != id {
            seq![rules[i]]
        } else {
            Seq::empty()
        }
}

pub open spec fn user_names(rules: Seq<RuleView>, id: TruckClassId) -> spec_fn(int) -> Seq<String> {
    |i: int|
        if rules[i].classes.contains(id) {
            seq![rules[i].name]
        } else {
            Seq::empty()
        }
}

pub open spec fn allowed_step(rules: Seq<RuleView>, route: RouteContext) -> spec_fn(
    Seq<TruckClassId>,
    int,
) -> Seq<TruckClassId> {
    |allowed: Seq<TruckClassId>, i: int|
        if rules[i].fits(route) {
            once_after(allowed, rules[i].classes)
        } else {
            allowed
        }
}

/// Two edits speak of the same cell.
pub open spec fn same_cell<N>(a: TruckCellEdit<N>, b: TruckCellEdit<N>) -> bool {
    a.class == b.class && a.cell == b.cell && a.field == b.field
}

pub open spec fn repeated<N>(edits: Seq<TruckCellEdit<N>>, e: int) -> bool {
    exists|q: int| 0 <= q < e && same_cell(#[trigger] edits[q], edits[e])
}

pub open spec fn edit_step<N: Scalar>(classes: Seq<ClassView<N>>, edits: Seq<TruckCellEdit<N>>) -> spec_fn(
    Result<Seq<CalendarView<N>>, ScheduleError>,
    int,
) -> Result<Seq<CalendarView<N>>, ScheduleError> {
    |state: Result<Seq<CalendarView<N>>, ScheduleError>, e: int|
        match state {
            Err(error) => Err(error),
            Ok(calendars) => if repeated(edits, e) {
                Err(ScheduleError::DuplicateCalendarCell)
            } else {
                match class_at(classes, edits[e].class) {
                    None => Err(ScheduleError::UnknownTruckClass),
                    Some(c) => match calendars[c].set(edits[e].cell, edits[e].field, edits[e].value) {
                        Ok(now) => Ok(calendars.update(c, now)),
                        Err(error) => Err(error),
                    },
                }
            },
        }
}

/// The calendars after all edits, or the first thing that is wrong with one.
pub open spec fn edited<N: Scalar>(
    classes: Seq<ClassView<N>>,
    edits: Seq<TruckCellEdit<N>>,
) -> Result<Seq<CalendarView<N>>, ScheduleError> {
    folded(
        edits.len(),
        Ok(Seq::new(classes.len(), |c: int| classes[c].calendar)),
        edit_step(classes, edits),
    )
}

/// What an operation gives, and the fleet it leaves.
pub type Outcome<N, T> = Result<(FleetView<N>, T), ScheduleError>;

impl<N: Scalar> FleetView<N> {
    pub open spec fn blank() -> Self {
        FleetView { classes: Seq::empty(), next_class_id: 0, rules: Seq::empty(), next_rule_id: 0 }
    }

    /// Classes have ids that were given and are their own.
    pub open spec fn classes_stand(self) -> bool {
        &&& forall|i: int| 0 <= i < self.classes.len() ==> (#[trigger] self.classes[i]).id.0 < self.next_class_id
        &&& forall|i: int, j: int|
            0 <= i < j < self.classes.len() ==> (#[trigger] self.classes[i]).id != (#[trigger] self.classes[j]).id
    }

    /// Rules have ids that were given and are their own, and name classes that
    /// are there, each once, at least one.
    pub open spec fn rules_stand(self) -> bool {
        &&& forall|i: int| 0 <= i < self.rules.len() ==> (#[trigger] self.rules[i]).id.0 < self.next_rule_id
        &&& forall|i: int, j: int|
            0 <= i < j < self.rules.len() ==> (#[trigger] self.rules[i]).id != (#[trigger] self.rules[j]).id
        &&& forall|i: int|
            0 <= i < self.rules.len() ==> {
                let classes = (#[trigger] self.rules[i]).classes;
                classes.len() > 0 && classes.no_duplicates() && all_known(self.classes, classes)
            }
    }

    /// A fleet that every edit keeps.
    pub open spec fn well_formed(self) -> bool {
        self.classes_stand() && self.rules_stand()
    }

    pub open spec fn add_class(self, checked: Result<String, ScheduleError>, same: Seq<bool>) -> Outcome<
        N,
        TruckClassId,
    > {
        match checked {
            Err(error) => Err(error),
            Ok(name) => if class_taken(self.classes, same, None) {
                Err(ScheduleError::DuplicateName(name))
            } else if self.next_class_id == u64::MAX {
                Err(ScheduleError::IdsExhausted)
            } else {
                let id = TruckClassId(self.next_class_id);
                Ok(
                    (
                        FleetView {
                            classes: self.classes.push(
                                ClassView {
                                    id,
                                    name,
                                    payload_t: N::of_whole(DEFAULT_PAYLOAD_T),
                                    loaded_speed_kph: N::of_whole(DEFAULT_LOADED_KPH),
                                    unloaded_speed_kph: N::of_whole(DEFAULT_UNLOADED_KPH),
                                    calendar: CalendarView::blank(),
                                },
                            ),
                            next_class_id: (self.next_class_id + 1) as u64,
                            ..self
                        },
                        id,
                    ),
                )
            },
        }
    }

    pub open spec fn duplicate_class(
        self,
        id: TruckClassId,
        checked: Result<String, ScheduleError>,
        same: Seq<bool>,
    ) -> Outcome<N, TruckClassId> {
        match checked {
            Err(error) => Err(error),
            Ok(name) => if class_taken(self.classes, same, None) {
                Err(ScheduleError::DuplicateName(name))
            } else {
                match class_at(self.classes, id) {
                    None => Err(ScheduleError::UnknownTruckClass),
                    Some(at) => if self.next_class_id == u64::MAX {
                        Err(ScheduleError::IdsExhausted)
                    } else {
                        let given = TruckClassId(self.next_class_id);
                        Ok(
                            (
                                FleetView {
                                    classes: self.classes.insert(
                                        at + 1,
                                        ClassView { id: given, name, ..self.classes[at] },
                                    ),
                                    next_class_id: (self.next_class_id + 1) as u64,
                                    ..self
                                },
                                given,
                            ),
                        )
                    },
                }
            },
        }
    }

    pub open spec fn rename_class(
        self,
        id: TruckClassId,
        checked: Result<String, ScheduleError>,
        same: Seq<bool>,
    ) -> Outcome<N, ()> {
        match checked {
            Err(error) => Err(error),
            Ok(name) => if class_taken(self.classes, same, Some(id)) {
                Err(ScheduleError::DuplicateName(name))
            } else {
                match class_at(self.classes, id) {
                    None => Err(ScheduleError::UnknownTruckClass),
                    Some(at) => Ok(
                        (
                            FleetView {
                                classes: self.classes.update(at, ClassView { name, ..self.classes[at] }),
                                ..self
                            },
                            (),
                        ),
                    ),
                }
            },
        }
    }

    pub open spec fn set_class_payload(self, id: TruckClassId, payload_t: N) -> Outcome<N, ()> {
        if !is_positive(payload_t) {
            Err(ScheduleError::InvalidPayload)
        } else {
            match class_at(self.classes, id) {
                None => Err(ScheduleError::UnknownTruckClass),
                Some(at) => Ok(
                    (
                        FleetView {
                            classes: self.classes.update(at, ClassView { payload_t, ..self.classes[at] }),
                            ..self
                        },
                        (),
                    ),
                ),
            }
        }
    }

    pub open spec fn set_class_speeds(self, id: TruckClassId, loaded: N, unloaded: N) -> Outcome<N, ()> {
        if !is_positive(loaded) || !is_positive(unloaded) {
            Err(ScheduleError::InvalidSpeed)
        } else {
            match class_at(self.classes, id) {
                None => Err(ScheduleError::UnknownTruckClass),
                Some(at) => Ok(
                    (
                        FleetView {
                            classes: self.classes.update(
                                at,
                                ClassView {
                                    loaded_speed_kph: loaded,
                                    unloaded_speed_kph: unloaded,
                                    ..self.classes[at]
                                },
                            ),
                            ..self
                        },
                        (),
                    ),
                ),
            }
        }
    }

    /// The fleet without a class.
    pub open spec fn without_class(self, id: TruckClassId) -> Self {
        FleetView { classes: flat(self.classes.len(), class_keeper(self.classes, id)), ..self }
    }

    /// The names of the rules that name a class.
    pub open spec fn users(self, id: TruckClassId) -> Seq<String> {
        flat(self.rules.len(), user_names(self.rules, id))
    }

    pub open spec fn set_truck_cells(self, edits: Seq<TruckCellEdit<N>>) -> Outcome<N, ()> {
        match edited(self.classes, edits) {
            Err(error) => Err(error),
            Ok(calendars) => Ok(
                (
                    FleetView {
                        classes: Seq::new(
                            self.classes.len(),
                            |c: int| ClassView { calendar: calendars[c], ..self.classes[c] },
                        ),
                        ..self
                    },
                    (),
                ),
            ),
        }
    }

    /// A rule's classes: in the order of the fleet, each once, at least one.
    pub open spec fn checked_classes(self, ids: Seq<TruckClassId>) -> Result<Seq<TruckClassId>, ScheduleError> {
        if !all_known(self.classes, ids) {
            Err(ScheduleError::UnknownTruckClass)
        } else if ids.len() == 0 {
            Err(ScheduleError::EmptyRuleSelection)
        } else {
            Ok(fleet_order(self.classes, once_after(Seq::empty(), ids)))
        }
    }

    /// Every class that may serve a movement: those of all rules that speak of
    /// it, in the order of the fleet, each once.
    pub open spec fn allowed(self, route: RouteContext) -> Seq<TruckClassId> {
        fleet_order(self.classes, folded(self.rules.len(), Seq::empty(), allowed_step(self.rules, route)))
    }
}

/// Where `item` is among `items`, if at all.
fn holds_class(items: &Vec<TruckClassId>, item: TruckClassId) -> (r: bool)
    ensures
        r == items@.contains(item),
{
    for i in 0..items.len()
        invariant
            forall|j: int| 0 <= j < i ==> items@[j] != item,
    {
        if items[i] == item {
            assert(items@.contains(item));
            return true;
        }
    }
    false
}

impl<N: Scalar> TruckClass<N> {
    /// A copy under another id and name.
    pub fn copy_as(&self, id: TruckClassId, name: String) -> (r: Self)
        ensures
            r@ == (ClassView { id, name, ..self@ }),
    {
        TruckClass {
            id,
            name,
            payload_t: self.payload_t,
            loaded_speed_kph: self.loaded_speed_kph,
            unloaded_speed_kph: self.unloaded_speed_kph,
            calendar: self.calendar.copy(),
        }
    }
}

impl<N: Scalar> TruckFleetConfig<N> {
    /// A fleet with nothing in it.
    pub fn new() -> (r: Self)
        ensures
            r@ == FleetView::<N>::blank(),
            r@.well_formed(),
    {
        let r = TruckFleetConfig { classes: Vec::new(), next_class_id: 0, rules: Vec::new(), next_rule_id: 0 };
        assert(r@.classes =~= Seq::empty());
        assert(r@.rules =~= Seq::empty());
        r
    }

    pub fn is_empty(&self) -> (r: bool)
        ensures
            r == (self@.classes.len() == 0 && self@.rules.len() == 0),
    {
        self.classes.len() == 0 && self.rules.len() == 0
    }

    /// Whether nothing was ever in this fleet.
    pub fn is_pristine(&self) -> (r: bool)
        ensures
            r == (self@ == FleetView::<N>::blank()),
    {
        let r: bool = self.is_empty() && self.next_class_id == 0 && self.next_rule_id == 0;
        proof {
            if r {
                assert(self@.classes =~= Seq::empty());
                assert(self@.rules =~= Seq::empty());
            }
        }
        r
    }

    /// Gives no id again that another fleet has given.
    pub fn raise_allocator_to(&mut self, other: &Self)
        ensures
            final(self)@ == (FleetView {
                next_class_id: if old(self)@.next_class_id < other@.next_class_id {
                    other@.next_class_id
                } else {
                    old(self)@.next_class_id
                },
                next_rule_id: if old(self)@.next_rule_id < other@.next_rule_id {
                    other@.next_rule_id
                } else {
                    old(self)@.next_rule_id
                },
                ..old(self)@
            }),
    {
        if self.next_class_id < other.next_class_id {
            self.next_class_id = other.next_class_id;
        }
        if self.next_rule_id < other.next_rule_id {
            self.next_rule_id = other.next_rule_id;
        }
    }

    /// Where a class is.
    pub fn find_class(&self, id: TruckClassId) -> (r: Option<usize>)
        ensures
            match r {
                Some(at) => class_at(self@.classes, id) == Some(at as int) && at < self.classes@.len(),
                None => class_at(self@.classes, id) is None,
            },
    {
        let ghost p = class_is(self@.classes, id);
        for i in 0..self.classes.len()
            invariant
                p == class_is(self@.classes, id),
                class_at(self@.classes, id) == first_where(i as int, self.classes@.len() as int, p),
        {
            assert(p(i as int) == (self.classes@[i as int].id == id));
            if self.classes[i].id == id {
                return Some(i);
            }
        }
        None
    }

    /// Where a rule is.
    pub fn find_rule(&self, id: TruckingRuleId) -> (r: Option<usize>)
        ensures
            match r {
                Some(at) => rule_at(self@.rules, id) == Some(at as int) && at < self.rules@.len(),
                None => rule_at(self@.rules, id) is None,
            },
    {
        let ghost p = rule_is(self@.rules, id);
        for i in 0..self.rules.len()
            invariant
                p == rule_is(self@.rules, id),
                rule_at(self@.rules, id) == first_where(i as int, self.rules@.len() as int, p),
        {
            assert(p(i as int) == (self.rules@[i as int].id == id));
            if self.rules[i].id == id {
                return Some(i);
            }
        }
        None
    }

    /// The class with an id.
    pub fn class(&self, id: TruckClassId) -> (r: Option<&TruckClass<N>>)
        ensures
            match r {
                Some(class) => class_at(self@.classes, id) matches Some(at) && class@ == self@.classes[at],
                None => class_at(self@.classes, id) is None,
            },
    {
        match self.find_class(id) {
            Some(at) => Some(&self.classes[at]),
            None => None,
        }
    }

    /// The rule with an id.
    pub fn rule(&self, id: TruckingRuleId) -> (r: Option<&TruckingRule>)
        ensures
            match r {
                Some(rule) => rule_at(self@.rules, id) matches Some(at) && rule@ == self@.rules[at],
                None => rule_at(self@.rules, id) is None,
            },
    {
        match self.find_rule(id) {
            Some(at) => Some(&self.rules[at]),
            None => None,
        }
    }

    /// Whether a class other than `except` has a proposed name.
    pub fn class_name_taken(&self, same: &Vec<bool>, except: Option<TruckClassId>) -> (r: bool)
        requires
            same@.len() == self@.classes.len(),
        ensures
            r == class_taken(self@.classes, same@, except),
    {
        for i in 0..self.classes.len()
            invariant
                same@.len() == self@.classes.len(),
                forall|j: int| 0 <= j < i ==> !(Some((#[trigger] self@.classes[j]).id) != except && same@[j]),
        {
            let other: bool = match except {
                Some(id) => self.classes[i].id != id,
                None => true,
            };
            assert(self@.classes[i as int].id == self.classes@[i as int].id);
            if other && same[i] {
                return true;
            }
        }
        false
    }

    /// Whether a rule other than `except` has a proposed name.
    pub fn rule_name_taken(&self, same: &Vec<bool>, except: Option<TruckingRuleId>) -> (r: bool)
        requires
            same@.len() == self@.rules.len(),
        ensures
            r == rule_taken(self@.rules, same@, except),
    {
        for i in 0..self.rules.len()
            invariant
                same@.len() == self@.rules.len(),
                forall|j: int| 0 <= j < i ==> !(Some((#[trigger] self@.rules[j]).id) != except && same@[j]),
        {
            let other: bool = match except {
                Some(id) => self.rules[i].id != id,
                None => true,
            };
            assert(self@.rules[i as int].id == self.rules@[i as int].id);
            if other && same[i] {
                return true;
            }
        }
        false
    }

    /// Adds a class without trucks.
    pub fn add_class(&mut self, name: ProposedName) -> (r: Result<TruckClassId, ScheduleError>)
        requires
            name.same@.len() == old(self)@.classes.len(),
        ensures
            match old(self)@.add_class(name.checked, name.same@) {
                Ok((now, id)) => r == Ok::<TruckClassId, ScheduleError>(id) && final(self)@ == now,
                Err(error) => r == Err::<TruckClassId, ScheduleError>(error) && final(self)@ == old(self)@,
            },
    {
        let taken: bool = self.class_name_taken(&name.same, None);
        match name.checked {
            Err(error) => Err(error),
            Ok(name) => {
                if taken {
                    return Err(ScheduleError::DuplicateName(name));
                }
                if self.next_class_id == u64::MAX {
                    return Err(ScheduleError::IdsExhausted);
                }
                let ghost before = self@;
                let id = TruckClassId(self.next_class_id);
                self.next_class_id = self.next_class_id + 1;
                self.classes.push(
                    TruckClass {
                        id,
                        name,
                        payload_t: N::whole(DEFAULT_PAYLOAD_T),
                        loaded_speed_kph: N::whole(DEFAULT_LOADED_KPH),
                        unloaded_speed_kph: N::whole(DEFAULT_UNLOADED_KPH),
                        calendar: TruckCalendar::standard(),
                    },
                );
                assert(self@.classes =~= before.classes.push(self.classes@.last()@));
                Ok(id)
            },
        }
    }

    /// Copies a class and its calendar under a fresh id, right after it.
    pub fn duplicate_class(&mut self, id: TruckClassId, name: ProposedName) -> (r: Result<
        TruckClassId,
        ScheduleError,
    >)
        requires
            name.same@.len() == old(self)@.classes.len(),
        ensures
            match old(self)@.duplicate_class(id, name.checked, name.same@) {
                Ok((now, given)) => r == Ok::<TruckClassId, ScheduleError>(given) && final(self)@ == now,
                Err(error) => r == Err::<TruckClassId, ScheduleError>(error) && final(self)@ == old(self)@,
            },
    {
        let taken: bool = self.class_name_taken(&name.same, None);
        match name.checked {
            Err(error) => Err(error),
            Ok(name) => {
                if taken {
                    return Err(ScheduleError::DuplicateName(name));
                }
                let at: usize = match self.find_class(id) {
                    Some(at) => at,
                    None => {
                        return Err(ScheduleError::UnknownTruckClass);
                    },
                };
                if self.next_class_id == u64::MAX {
                    return Err(ScheduleError::IdsExhausted);
                }
                let ghost before = self@;
                let given = TruckClassId(self.next_class_id);
                self.next_class_id = self.next_class_id + 1;
                let count: usize = self.classes.len();
                assert(at < count);
                let copy = self.classes[at].copy_as(given, name);
                let ghost shown = copy@;
                self.classes.insert(at + 1, copy);
                assert(self@.classes =~= before.classes.insert(at + 1, shown));
                Ok(given)
            },
        }
    }

    /// Gives a class another name.
    pub fn rename_class(&mut self, id: TruckClassId, name: ProposedName) -> (r: Result<(), ScheduleError>)
        requires
            name.same@.len() == old(self)@.classes.len(),
        ensures
            match old(self)@.rename_class(id, name.checked, name.same@) {
                Ok((now, _)) => r is Ok && final(self)@ == now,
                Err(error) => r == Err::<(), ScheduleError>(error) && final(self)@ == old(self)@,
            },
    {
        let taken: bool = self.class_name_taken(&name.same, Some(id));
        match name.checked {
            Err(error) => Err(error),
            Ok(name) => {
                if taken {
                    return Err(ScheduleError::DuplicateName(name));
                }
                match self.find_class(id) {
                    None => Err(ScheduleError::UnknownTruckClass),
                    Some(at) => {
                        let ghost before = self@;
                        self.classes[at].name = name;
                        assert(self@.classes =~= before.classes.update(
                            at as int,
                            ClassView { name, ..before.classes[at as int] },
                        ));
                        Ok(())
                    },
                }
            },
        }
    }

    pub fn set_class_payload(&mut self, id: TruckClassId, payload_t: N) -> (r: Result<(), ScheduleError>)
        ensures
            match old(self)@.set_class_payload(id, payload_t) {
                Ok((now, _)) => r is Ok && final(self)@ == now,
                Err(error) => r == Err::<(), ScheduleError>(error) && final(self)@ == old(self)@,
            },
    {
        match checked_positive(payload_t, ScheduleError::InvalidPayload) {
            Err(error) => Err(error),
            Ok(payload) => match self.find_class(id) {
                None => Err(ScheduleError::UnknownTruckClass),
                Some(at) => {
                    let ghost before = self@;
                    self.classes[at].payload_t = payload;
                    assert(self@.classes =~= before.classes.update(
                        at as int,
                        ClassView { payload_t, ..before.classes[at as int] },
                    ));
                    Ok(())
                },
            },
        }
    }

    pub fn set_class_speeds(&mut self, id: TruckClassId, loaded_kph: N, unloaded_kph: N) -> (r: Result<
        (),
        ScheduleError,
    >)
        ensures
            match old(self)@.set_class_speeds(id, loaded_kph, unloaded_kph) {
                Ok((now, _)) => r is Ok && final(self)@ == now,
                Err(error) => r == Err::<(), ScheduleError>(error) && final(self)@ == old(self)@,
            },
    {
        let loaded = match checked_positive(loaded_kph, ScheduleError::InvalidSpeed) {
            Ok(loaded) => loaded,
            Err(error) => {
                return Err(error);
            },
        };
        let unloaded = match checked_positive(unloaded_kph, ScheduleError::InvalidSpeed) {
            Ok(unloaded) => unloaded,
            Err(error) => {
                return Err(error);
            },
        };
        match self.find_class(id) {
            None => Err(ScheduleError::UnknownTruckClass),
            Some(at) => {
                let ghost before = self@;
                self.classes[at].loaded_speed_kph = loaded;
                self.classes[at].unloaded_speed_kph = unloaded;
                assert(self@.classes =~= before.classes.update(
                    at as int,
                    ClassView {
                        loaded_speed_kph: loaded,
                        unloaded_speed_kph: unloaded,
                        ..before.classes[at as int]
                    },
                ));
                Ok(())
            },
        }
    }

    /// Removes a class that no rule names. Rules are left alone: a rule without
    /// classes is nothing that anybody asked for.
    pub fn remove_class(&mut self, id: TruckClassId) -> (r: Result<(), ScheduleError>)
        ensures
            ({
                let before = old(self)@;
                if class_at(before.classes, id) is None {
                    r == Err::<(), ScheduleError>(ScheduleError::UnknownTruckClass) && final(self)@ == before
                } else if before.users(id).len() > 0 {
                    &&& final(self)@ == before
                    &&& r matches Err(ScheduleError::TruckClassInUse(users)) && users@ == before.users(id)
                } else {
                    r is Ok && final(self)@ == before.without_class(id)
                }
            }),
    {
        if self.find_class(id).is_none() {
            return Err(ScheduleError::UnknownTruckClass);
        }
        let mut users: Vec<String> = Vec::new();
        let ghost f = user_names(self@.rules, id);
        for i in 0..self.rules.len()
            invariant
                f == user_names(self@.rules, id),
                users@ == flat(i as nat, f),
        {
            assert(self@.rules[i as int] == self.rules@[i as int]@);
            if holds_class(&self.rules[i].classes, id) {
                users.push(self.rules[i].name.clone());
            }
            assert(users@ =~= flat(i as nat, f) + f(i as int));
        }
        if users.len() > 0 {
            return Err(ScheduleError::TruckClassInUse(users));
        }
        let ghost before = self@;
        let ghost keep = class_keeper(before.classes, id);
        let count: usize = self.classes.len();
        let mut at: usize = 0;
        assert(flat(0, keep) + before.classes.skip(0) =~= before.classes);
        for done in 0..count
            invariant
                keep == class_keeper(before.classes, id),
                count == before.classes.len(),
                self@ == (FleetView { classes: flat(done as nat, keep) + before.classes.skip(done as int), ..before }),
                at == flat(done as nat, keep).len(),
        {
            let ghost now = self@.classes;
            let ghost rest = before.classes.skip(done as int);
            let left: usize = self.classes.len();
            assert(left == now.len() && at < left);
            assert(now[at as int] == rest[0]);
            assert(rest[0] == before.classes[done as int]);
            assert(self.classes@[at as int]@ == now[at as int]);
            if self.classes[at].id == id {
                self.classes.remove(at);
                assert(self@.classes =~= now.remove(at as int));
                assert(self@.classes =~= (flat(done as nat, keep) + keep(done as int)) + before.classes.skip(
                    done + 1,
                ));
            } else {
                at = at + 1;
                assert(self@.classes =~= (flat(done as nat, keep) + keep(done as int)) + before.classes.skip(
                    done + 1,
                ));
            }
        }
        assert(before.classes.skip(count as int) =~= Seq::empty());
        assert(self@.classes =~= before.without_class(id).classes);
        Ok(())
    }
}

} // verus!
