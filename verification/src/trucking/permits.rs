//! Edits of calendars and rules, and what the rules permit.
use vstd::prelude::*;

use crate::error::ScheduleError;
use crate::listing::{flat, folded};
use crate::scalar::Scalar;
use crate::trucking::calendar::{CalendarView, TruckCalendar};
use crate::trucking::fleet::{
    allowed_step, class_at, edit_step, edited, fleet_order, members, once_after, once_step, repeated, rule_at,
    rule_keeper, rule_taken, same_cell, strangers, with_once, ClassView, FleetView, Outcome, ProposedName,
    TruckCellEdit, TruckFleetConfig,
};
use crate::trucking::rules::{
    DestinationId, DestinationSelection, LoaderAgentId, LoaderSelection, MovementSourceScope, MovementSourceSelection,
    RouteContext, RuleView, Selected, TruckClassId, TruckingRule, TruckingRuleId,
};

verus! {

/// A scope of ground that makes no sense.
pub open spec fn invalid_scope(scope: MovementSourceScope) -> bool {
    scope matches MovementSourceScope::Ground(ground) && !ground.valid
}

pub open spec fn any_invalid(scopes: Seq<MovementSourceScope>) -> bool {
    exists|i: int| 0 <= i < scopes.len() && invalid_scope(#[trigger] scopes[i])
}

/// Whether any of the scopes makes no sense.
pub fn has_invalid(scopes: &Vec<MovementSourceScope>) -> (r: bool)
    ensures
        r == any_invalid(scopes@),
{
    for i in 0..scopes.len()
        invariant
            forall|j: int| 0 <= j < i ==> !invalid_scope(#[trigger] scopes@[j]),
    {
        if let MovementSourceScope::Ground(ground) = scopes[i] {
            if !ground.valid {
                assert(invalid_scope(scopes@[i as int]));
                return true;
            }
        }
    }
    false
}

/// The agents given, in order of id and each once.
pub open spec fn sorted_once(given: Seq<LoaderAgentId>, kept: Seq<LoaderAgentId>) -> bool {
    &&& forall|i: int, j: int| 0 <= i < j < kept.len() ==> (#[trigger] kept[i]).0 < (#[trigger] kept[j]).0
    &&& forall|agent: LoaderAgentId| kept.contains(agent) <==> given.contains(agent)
}

fn sort_once(given: &Vec<LoaderAgentId>) -> (r: Vec<LoaderAgentId>)
    ensures
        sorted_once(given@, r@),
        r@.len() == 0 <==> given@.len() == 0,
{
    let mut kept: Vec<LoaderAgentId> = Vec::new();
    for i in 0..given.len()
        invariant
            sorted_once(given@.take(i as int), kept@),
    {
        let agent = given[i];
        let ghost before = kept@;
        let mut at: usize = 0;
        while at < kept.len() && kept[at].0 < agent.0
            invariant
                at <= kept@.len(),
                kept@ == before,
                forall|j: int| 0 <= j < at ==> (#[trigger] kept@[j]).0 < agent.0,
            decreases kept@.len() - at,
        {
            at = at + 1;
        }
        let held: bool = at < kept.len() && kept[at] == agent;
        if !held {
            kept.insert(at, agent);
            assert(kept@ == before.insert(at as int, agent));
        }
        assert forall|other: LoaderAgentId| kept@.contains(other) <==> given@.take(i + 1).contains(other) by {
            let earlier = given@.take(i as int);
            let now = given@.take(i + 1);
            if earlier.contains(other) {
                let j = choose|j: int| 0 <= j < earlier.len() && earlier[j] == other;
                assert(now[j] == other);
            }
            assert(now[i as int] == agent);
            if now.contains(other) {
                let j = choose|j: int| 0 <= j < now.len() && now[j] == other;
                if j < i {
                    assert(earlier[j] == other);
                }
            }
            if before.contains(other) {
                let j = choose|j: int| 0 <= j < before.len() && before[j] == other;
                if !held {
                    let k = if j < at { j } else { j + 1 };
                    assert(kept@[k] == other);
                }
            }
            if kept@.contains(other) && !held {
                let k = choose|k: int| 0 <= k < kept@.len() && kept@[k] == other;
                if k < at {
                    assert(before[k] == other);
                } else if k > at {
                    assert(before[k - 1] == other);
                }
            }
            if held {
                assert(kept@[at as int] == agent);
            } else {
                assert(kept@[at as int] == agent);
            }
        }
        assert forall|a: int, b: int| 0 <= a < b < kept@.len() implies (#[trigger] kept@[a]).0 < (
        #[trigger] kept@[b]).0 by {
            if !held {
                let p = if a < at { a } else { a - 1 };
                let q = if b < at { b } else { b - 1 };
                if a != at && b != at {
                    assert(kept@[a] == before[p] && kept@[b] == before[q]);
                } else if a == at {
                    assert(kept@[b] == before[q]);
                    assert(before[at as int].0 >= agent.0 && before[at as int] != agent);
                    assert(before[at as int].0 != agent.0);
                    if q > at {
                        assert(before[at as int].0 < before[q].0);
                    }
                } else {
                    assert(kept@[a] == before[p]);
                }
            }
        }
    }
    assert(given@.take(given@.len() as int) =~= given@);
    proof {
        if given@.len() > 0 {
            assert(given@.contains(given@[0]));
            assert(kept@.contains(given@[0]));
        }
        if kept@.len() > 0 {
            assert(kept@.contains(kept@[0]));
            assert(given@.contains(kept@[0]));
        }
    }
    kept
}

/// Adds `item` where it is missing.
fn push_class(items: &mut Vec<TruckClassId>, item: TruckClassId)
    ensures
        final(items)@ == with_once(old(items)@, item),
{
    for i in 0..items.len()
        invariant
            items@ == old(items)@,
            forall|j: int| 0 <= j < i ==> items@[j] != item,
    {
        if items[i] == item {
            assert(items@.contains(item));
            return;
        }
    }
    items.push(item);
}

fn add_once(items: &mut Vec<TruckClassId>, more: &Vec<TruckClassId>)
    ensures
        final(items)@ == once_after(old(items)@, more@),
{
    let ghost start = items@;
    let ghost step = once_step(more@);
    for i in 0..more.len()
        invariant
            step == once_step(more@),
            items@ == folded(i as nat, start, step),
    {
        push_class(items, more[i]);
    }
}

fn scopes_once(scopes: &Vec<MovementSourceScope>) -> (r: Vec<MovementSourceScope>)
    ensures
        r@ == once_after(Seq::empty(), scopes@),
{
    let mut kept: Vec<MovementSourceScope> = Vec::new();
    let ghost step = once_step(scopes@);
    for i in 0..scopes.len()
        invariant
            step == once_step(scopes@),
            kept@ == folded(i as nat, Seq::empty(), step),
    {
        let mut held: bool = false;
        for j in 0..kept.len()
            invariant
                i < scopes@.len(),
                held == exists|q: int| 0 <= q < j && (#[trigger] kept@[q]) == scopes@[i as int],
        {
            if kept[j] == scopes[i] {
                assert(kept@[j as int] == scopes@[i as int]);
                held = true;
            }
        }
        assert(held == kept@.contains(scopes@[i as int]));
        if !held {
            kept.push(scopes[i]);
        }
    }
    kept
}

fn destinations_once(ids: &Vec<DestinationId>) -> (r: Vec<DestinationId>)
    ensures
        r@ == once_after(Seq::empty(), ids@),
{
    let mut kept: Vec<DestinationId> = Vec::new();
    let ghost step = once_step(ids@);
    for i in 0..ids.len()
        invariant
            step == once_step(ids@),
            kept@ == folded(i as nat, Seq::empty(), step),
    {
        let mut held: bool = false;
        for j in 0..kept.len()
            invariant
                i < ids@.len(),
                held == exists|q: int| 0 <= q < j && (#[trigger] kept@[q]) == ids@[i as int],
        {
            if kept[j] == ids[i] {
                assert(kept@[j as int] == ids@[i as int]);
                held = true;
            }
        }
        assert(held == kept@.contains(ids@[i as int]));
        if !held {
            kept.push(ids[i]);
        }
    }
    kept
}

impl<N: Scalar> FleetView<N> {
    /// The fleet with one rule replaced.
    pub open spec fn with_rule(self, id: TruckingRuleId, change: spec_fn(RuleView) -> RuleView) -> Outcome<N, ()> {
        match rule_at(self.rules, id) {
            None => Err(ScheduleError::UnknownTruckingRule),
            Some(at) => Ok((FleetView { rules: self.rules.update(at, change(self.rules[at])), ..self }, ())),
        }
    }

    pub open spec fn add_rule(
        self,
        checked: Result<String, ScheduleError>,
        same: Seq<bool>,
        ids: Seq<TruckClassId>,
    ) -> Outcome<N, TruckingRuleId> {
        match checked {
            Err(error) => Err(error),
            Ok(name) => if rule_taken(self.rules, same, None) {
                Err(ScheduleError::DuplicateName(name))
            } else {
                match self.checked_classes(ids) {
                    Err(error) => Err(error),
                    Ok(classes) => if self.next_rule_id == u64::MAX {
                        Err(ScheduleError::IdsExhausted)
                    } else {
                        let id = TruckingRuleId(self.next_rule_id);
                        Ok(
                            (
                                FleetView {
                                    rules: self.rules.push(
                                        RuleView {
                                            id,
                                            enabled: true,
                                            name,
                                            loaders: Selected::All,
                                            sources: Selected::All,
                                            destinations: Selected::All,
                                            classes,
                                        },
                                    ),
                                    next_rule_id: (self.next_rule_id + 1) as u64,
                                    ..self
                                },
                                id,
                            ),
                        )
                    },
                }
            },
        }
    }

    pub open spec fn duplicate_rule(
        self,
        id: TruckingRuleId,
        checked: Result<String, ScheduleError>,
        same: Seq<bool>,
    ) -> Outcome<N, TruckingRuleId> {
        match checked {
            Err(error) => Err(error),
            Ok(name) => if rule_taken(self.rules, same, None) {
                Err(ScheduleError::DuplicateName(name))
            } else {
                match rule_at(self.rules, id) {
                    None => Err(ScheduleError::UnknownTruckingRule),
                    Some(at) => if self.next_rule_id == u64::MAX {
                        Err(ScheduleError::IdsExhausted)
                    } else {
                        let given = TruckingRuleId(self.next_rule_id);
                        Ok(
                            (
                                FleetView {
                                    rules: self.rules.insert(
                                        at + 1,
                                        RuleView { id: given, name, ..self.rules[at] },
                                    ),
                                    next_rule_id: (self.next_rule_id + 1) as u64,
                                    ..self
                                },
                                given,
                            ),
                        )
                    },
                }
            },
        }
    }

    pub open spec fn remove_rule(self, id: TruckingRuleId) -> Outcome<N, ()> {
        let kept = flat(self.rules.len(), rule_keeper(self.rules, id));
        if kept.len() == self.rules.len() {
            Err(ScheduleError::UnknownTruckingRule)
        } else {
            Ok((FleetView { rules: kept, ..self }, ()))
        }
    }

    pub open spec fn rename_rule(
        self,
        id: TruckingRuleId,
        checked: Result<String, ScheduleError>,
        same: Seq<bool>,
    ) -> Outcome<N, ()> {
        match checked {
            Err(error) => Err(error),
            Ok(name) => if rule_taken(self.rules, same, Some(id)) {
                Err(ScheduleError::DuplicateName(name))
            } else {
                self.with_rule(id, |rule: RuleView| RuleView { name, ..rule })
            },
        }
    }

    pub open spec fn set_rule_enabled(self, id: TruckingRuleId, enabled: bool) -> Outcome<N, ()> {
        self.with_rule(id, |rule: RuleView| RuleView { enabled, ..rule })
    }

    pub open spec fn set_rule_sources(self, id: TruckingRuleId, sources: Selected<MovementSourceScope>) -> Outcome<
        N,
        (),
    > {
        match sources {
            Selected::All => self.with_rule(id, |rule: RuleView| RuleView { sources: Selected::All, ..rule }),
            Selected::Only(scopes) => if scopes.len() == 0 {
                Err(ScheduleError::EmptyRuleSelection)
            } else if any_invalid(scopes) {
                Err(ScheduleError::InvalidSourceScope)
            } else {
                self.with_rule(
                    id,
                    |rule: RuleView|
                        RuleView { sources: Selected::Only(once_after(Seq::empty(), scopes)), ..rule },
                )
            },
        }
    }

    pub open spec fn set_rule_destinations(self, id: TruckingRuleId, destinations: Selected<DestinationId>) -> Outcome<
        N,
        (),
    > {
        match destinations {
            Selected::All => self.with_rule(id, |rule: RuleView| RuleView { destinations: Selected::All, ..rule }),
            Selected::Only(ids) => if ids.len() == 0 {
                Err(ScheduleError::EmptyRuleSelection)
            } else {
                self.with_rule(
                    id,
                    |rule: RuleView|
                        RuleView { destinations: Selected::Only(once_after(Seq::empty(), ids)), ..rule },
                )
            },
        }
    }

    pub open spec fn set_rule_classes(self, id: TruckingRuleId, ids: Seq<TruckClassId>) -> Outcome<N, ()> {
        match self.checked_classes(ids) {
            Err(error) => Err(error),
            Ok(classes) => self.with_rule(id, |rule: RuleView| RuleView { classes, ..rule }),
        }
    }
}

impl<N: Scalar> TruckFleetConfig<N> {
    /// Edits calendars, all cells or none. Two edits of one cell are refused, so
    /// that their order cannot decide.
    pub fn set_truck_cells(&mut self, edits: &Vec<TruckCellEdit<N>>) -> (r: Result<(), ScheduleError>)
        ensures
            match old(self)@.set_truck_cells(edits@) {
                Ok((now, _)) => r is Ok && final(self)@ == now,
                Err(error) => r == Err::<(), ScheduleError>(error) && final(self)@ == old(self)@,
            },
    {
        let mut calendars: Vec<TruckCalendar<N>> = Vec::new();
        for c in 0..self.classes.len()
            invariant
                calendars@.len() == c,
                forall|q: int| 0 <= q < c ==> (#[trigger] calendars@[q])@ == self.classes@[q].calendar@,
        {
            calendars.push(self.classes[c].calendar.copy());
        }
        let ghost start = Seq::new(self@.classes.len(), |c: int| self@.classes[c].calendar);
        let ghost step = edit_step(self@.classes, edits@);
        let ghost blank = Ok::<Seq<CalendarView<N>>, ScheduleError>(start);
        assert(Seq::new(calendars@.len(), |c: int| calendars@[c]@) =~= start);
        assert(edited(self@.classes, edits@) == folded(edits@.len(), blank, step));
        for e in 0..edits.len()
            invariant
                self@ == old(self)@,
                step == edit_step(self@.classes, edits@),
                edited(self@.classes, edits@) == folded(edits@.len(), blank, step),
                calendars@.len() == self.classes@.len(),
                folded(e as nat, blank, step) == Ok::<Seq<CalendarView<N>>, ScheduleError>(
                    Seq::new(calendars@.len(), |c: int| calendars@[c]@),
                ),
        {
            let edit = edits[e];
            let ghost shown = Seq::new(calendars@.len(), |c: int| calendars@[c]@);
            let mut again: bool = false;
            for q in 0..e
                invariant
                    e < edits@.len(),
                    edit == edits@[e as int],
                    again == exists|k: int| 0 <= k < q && same_cell(#[trigger] edits@[k], edits@[e as int]),
            {
                if edits[q].class == edit.class && edits[q].cell == edit.cell && edits[q].field == edit.field {
                    assert(same_cell(edits@[q as int], edits@[e as int]));
                    again = true;
                }
            }
            assert(again == repeated(edits@, e as int));
            proof {
                assert(folded((e + 1) as nat, blank, step) == step(folded(e as nat, blank, step), e as int));
                stays_refused(edits@.len(), (e + 1) as nat, blank, self@.classes, edits@);
            }
            if again {
                return Err(ScheduleError::DuplicateCalendarCell);
            }
            let at: usize = match self.find_class(edit.class) {
                Some(at) => at,
                None => {
                    return Err(ScheduleError::UnknownTruckClass);
                },
            };
            let mut calendar = calendars[at].copy();
            match calendar.set(edit.cell, edit.field, edit.value) {
                Ok(()) => {
                    let ghost now = calendar@;
                    calendars.set(at, calendar);
                    assert(Seq::new(calendars@.len(), |c: int| calendars@[c]@) =~= shown.update(at as int, now));
                },
                Err(error) => {
                    return Err(error);
                },
            }
        }
        let ghost before = self@;
        let ghost done = Seq::new(calendars@.len(), |c: int| calendars@[c]@);
        for c in 0..calendars.len()
            invariant
                calendars@.len() == self.classes@.len(),
                done == Seq::new(calendars@.len(), |c: int| calendars@[c]@),
                before.classes.len() == self.classes@.len(),
                self@.rules == before.rules,
                self@.next_class_id == before.next_class_id,
                self@.next_rule_id == before.next_rule_id,
                self@.classes =~= Seq::new(
                    before.classes.len(),
                    |q: int|
                        if q < c {
                            ClassView { calendar: done[q], ..before.classes[q] }
                        } else {
                            before.classes[q]
                        },
                ),
        {
            let ghost held = self@.classes;
            let calendar = calendars[c].copy();
            self.classes[c].calendar = calendar;
            assert(self@.classes =~= held.update(
                c as int,
                ClassView { calendar: done[c as int], ..held[c as int] },
            ));
        }
        assert(self@.classes =~= Seq::new(
            before.classes.len(),
            |c: int| ClassView { calendar: done[c], ..before.classes[c] },
        ));
        Ok(())
    }

    /// Puts ids in the order of the fleet.
    fn order_classes(&self, ids: &Vec<TruckClassId>) -> (r: Vec<TruckClassId>)
        ensures
            r@ == fleet_order(self@.classes, ids@),
    {
        let mut out: Vec<TruckClassId> = Vec::new();
        let ghost f = strangers(self@.classes, ids@);
        for i in 0..ids.len()
            invariant
                f == strangers(self@.classes, ids@),
                out@ == flat(i as nat, f),
        {
            if self.find_class(ids[i]).is_none() {
                out.push(ids[i]);
            }
            assert(out@ =~= flat(i as nat, f) + f(i as int));
        }
        let ghost first = out@;
        let ghost g = members(self@.classes, ids@);
        assert(first + flat(0, g) =~= first);
        for c in 0..self.classes.len()
            invariant
                g == members(self@.classes, ids@),
                out@ == first + flat(c as nat, g),
        {
            let id = self.classes[c].id;
            assert(self@.classes[c as int].id == id);
            let mut held: bool = false;
            for i in 0..ids.len()
                invariant
                    held == exists|q: int| 0 <= q < i && (#[trigger] ids@[q]) == id,
            {
                if ids[i] == id {
                    assert(ids@[i as int] == id);
                    held = true;
                }
            }
            assert(held == ids@.contains(id));
            let own: bool = match self.find_class(id) {
                Some(at) => at == c,
                None => false,
            };
            if own && held {
                out.push(id);
            }
            assert(out@ =~= first + (flat(c as nat, g) + g(c as int)));
        }
        out
    }

    /// A rule's classes: in the order of the fleet, each once, at least one.
    pub fn checked_classes(&self, classes: &Vec<TruckClassId>) -> (r: Result<Vec<TruckClassId>, ScheduleError>)
        ensures
            match self@.checked_classes(classes@) {
                Ok(ordered) => r matches Ok(kept) && kept@ == ordered,
                Err(error) => r == Err::<Vec<TruckClassId>, ScheduleError>(error),
            },
    {
        for i in 0..classes.len()
            invariant
                forall|j: int| 0 <= j < i ==> class_at(self@.classes, #[trigger] classes@[j]) is Some,
        {
            if self.find_class(classes[i]).is_none() {
                assert(class_at(self@.classes, classes@[i as int]) is None);
                return Err(ScheduleError::UnknownTruckClass);
            }
        }
        if classes.len() == 0 {
            return Err(ScheduleError::EmptyRuleSelection);
        }
        let mut kept: Vec<TruckClassId> = Vec::new();
        add_once(&mut kept, classes);
        Ok(self.order_classes(&kept))
    }

    /// Every class that may serve a movement. None means that no rule speaks of
    /// it.
    pub fn allowed_classes(&self, route: &RouteContext) -> (r: Vec<TruckClassId>)
        ensures
            r@ == self@.allowed(*route),
    {
        let mut allowed: Vec<TruckClassId> = Vec::new();
        let ghost step = allowed_step(self@.rules, *route);
        for i in 0..self.rules.len()
            invariant
                step == allowed_step(self@.rules, *route),
                allowed@ == folded(i as nat, Seq::empty(), step),
        {
            assert(self@.rules[i as int] == self.rules@[i as int]@);
            if self.rules[i].matches(route) {
                add_once(&mut allowed, &self.rules[i].classes);
            }
        }
        self.order_classes(&allowed)
    }

    /// Adds a rule that speaks of every movement.
    pub fn add_rule(&mut self, name: ProposedName, classes: &Vec<TruckClassId>) -> (r: Result<
        TruckingRuleId,
        ScheduleError,
    >)
        requires
            name.same@.len() == old(self)@.rules.len(),
        ensures
            match old(self)@.add_rule(name.checked, name.same@, classes@) {
                Ok((now, id)) => r == Ok::<TruckingRuleId, ScheduleError>(id) && final(self)@ == now,
                Err(error) => r == Err::<TruckingRuleId, ScheduleError>(error) && final(self)@ == old(self)@,
            },
    {
        let taken: bool = self.rule_name_taken(&name.same, None);
        match name.checked {
            Err(error) => Err(error),
            Ok(name) => {
                if taken {
                    return Err(ScheduleError::DuplicateName(name));
                }
                let classes = match self.checked_classes(classes) {
                    Ok(classes) => classes,
                    Err(error) => {
                        return Err(error);
                    },
                };
                if self.next_rule_id == u64::MAX {
                    return Err(ScheduleError::IdsExhausted);
                }
                let ghost before = self@;
                let id = TruckingRuleId(self.next_rule_id);
                self.next_rule_id = self.next_rule_id + 1;
                self.rules.push(
                    TruckingRule {
                        id,
                        enabled: true,
                        name,
                        loaders: LoaderSelection::All,
                        sources: MovementSourceSelection::All,
                        destinations: DestinationSelection::All,
                        classes,
                    },
                );
                assert(self@.rules =~= before.rules.push(self.rules@.last()@));
                Ok(id)
            },
        }
    }

    /// Copies a rule under a fresh id, right after it.
    pub fn duplicate_rule(&mut self, id: TruckingRuleId, name: ProposedName) -> (r: Result<
        TruckingRuleId,
        ScheduleError,
    >)
        requires
            name.same@.len() == old(self)@.rules.len(),
        ensures
            match old(self)@.duplicate_rule(id, name.checked, name.same@) {
                Ok((now, given)) => r == Ok::<TruckingRuleId, ScheduleError>(given) && final(self)@ == now,
                Err(error) => r == Err::<TruckingRuleId, ScheduleError>(error) && final(self)@ == old(self)@,
            },
    {
        let taken: bool = self.rule_name_taken(&name.same, None);
        match name.checked {
            Err(error) => Err(error),
            Ok(name) => {
                if taken {
                    return Err(ScheduleError::DuplicateName(name));
                }
                let at: usize = match self.find_rule(id) {
                    Some(at) => at,
                    None => {
                        return Err(ScheduleError::UnknownTruckingRule);
                    },
                };
                if self.next_rule_id == u64::MAX {
                    return Err(ScheduleError::IdsExhausted);
                }
                let ghost before = self@;
                let given = TruckingRuleId(self.next_rule_id);
                self.next_rule_id = self.next_rule_id + 1;
                let count: usize = self.rules.len();
                assert(at < count);
                let copy = self.rules[at].copy_as(given, name);
                let ghost shown = copy@;
                self.rules.insert(at + 1, copy);
                assert(self@.rules =~= before.rules.insert(at + 1, shown));
                Ok(given)
            },
        }
    }

    /// Removes a rule.
    pub fn remove_rule(&mut self, id: TruckingRuleId) -> (r: Result<(), ScheduleError>)
        ensures
            match old(self)@.remove_rule(id) {
                Ok((now, _)) => r is Ok && final(self)@ == now,
                Err(error) => r == Err::<(), ScheduleError>(error) && final(self)@ == old(self)@,
            },
    {
        let ghost before = self@;
        let ghost keep = rule_keeper(before.rules, id);
        let count: usize = self.rules.len();
        let mut at: usize = 0;
        assert(flat(0, keep) + before.rules.skip(0) =~= before.rules);
        for done in 0..count
            invariant
                keep == rule_keeper(before.rules, id),
                count == before.rules.len(),
                self@ == (FleetView { rules: flat(done as nat, keep) + before.rules.skip(done as int), ..before }),
                at == flat(done as nat, keep).len(),
        {
            let ghost now = self@.rules;
            let ghost rest = before.rules.skip(done as int);
            let left: usize = self.rules.len();
            assert(rest.len() == count - done && now == flat(done as nat, keep) + rest);
            assert(left == now.len() && at < left);
            assert(now[at as int] == rest[0]);
            assert(rest[0] == before.rules[done as int]);
            assert(self.rules@[at as int]@ == now[at as int]);
            if self.rules[at].id == id {
                self.rules.remove(at);
                assert(self@.rules =~= now.remove(at as int));
                assert(self@.rules =~= (flat(done as nat, keep) + keep(done as int)) + before.rules.skip(done + 1));
            } else {
                at = at + 1;
                assert(self@.rules =~= (flat(done as nat, keep) + keep(done as int)) + before.rules.skip(done + 1));
            }
        }
        assert(before.rules.skip(count as int) =~= Seq::empty());
        assert(self@.rules =~= flat(before.rules.len(), keep));
        if self.rules.len() == count {
            proof {
                kept_all(before.rules, id, before.rules.len());
            }
            return Err(ScheduleError::UnknownTruckingRule);
        }
        Ok(())
    }

    /// Gives a rule another name.
    pub fn rename_rule(&mut self, id: TruckingRuleId, name: ProposedName) -> (r: Result<(), ScheduleError>)
        requires
            name.same@.len() == old(self)@.rules.len(),
        ensures
            match old(self)@.rename_rule(id, name.checked, name.same@) {
                Ok((now, _)) => r is Ok && final(self)@ == now,
                Err(error) => r == Err::<(), ScheduleError>(error) && final(self)@ == old(self)@,
            },
    {
        let taken: bool = self.rule_name_taken(&name.same, Some(id));
        match name.checked {
            Err(error) => Err(error),
            Ok(name) => {
                if taken {
                    return Err(ScheduleError::DuplicateName(name));
                }
                match self.find_rule(id) {
                    None => Err(ScheduleError::UnknownTruckingRule),
                    Some(at) => {
                        let ghost before = self@;
                        self.rules[at].name = name;
                        assert(self@.rules =~= before.rules.update(
                            at as int,
                            RuleView { name, ..before.rules[at as int] },
                        ));
                        Ok(())
                    },
                }
            },
        }
    }

    pub fn set_rule_enabled(&mut self, id: TruckingRuleId, enabled: bool) -> (r: Result<(), ScheduleError>)
        ensures
            match old(self)@.set_rule_enabled(id, enabled) {
                Ok((now, _)) => r is Ok && final(self)@ == now,
                Err(error) => r == Err::<(), ScheduleError>(error) && final(self)@ == old(self)@,
            },
    {
        match self.find_rule(id) {
            None => Err(ScheduleError::UnknownTruckingRule),
            Some(at) => {
                let ghost before = self@;
                self.rules[at].enabled = enabled;
                assert(self@.rules =~= before.rules.update(
                    at as int,
                    RuleView { enabled, ..before.rules[at as int] },
                ));
                Ok(())
            },
        }
    }

    /// Selects loaders; they are kept in order of id, each once.
    pub fn set_rule_loaders(&mut self, id: TruckingRuleId, loaders: LoaderSelection) -> (r: Result<(), ScheduleError>)
        ensures
            if loaders@.nothing() {
                r == Err::<(), ScheduleError>(ScheduleError::EmptyRuleSelection) && final(self)@ == old(self)@
            } else {
                match rule_at(old(self)@.rules, id) {
                    None => {
                        &&& r == Err::<(), ScheduleError>(ScheduleError::UnknownTruckingRule)
                        &&& final(self)@ == old(self)@
                    },
                    Some(at) => {
                        &&& r is Ok
                        &&& final(self)@ == (FleetView {
                            rules: old(self)@.rules.update(
                                at,
                                RuleView { loaders: final(self)@.rules[at].loaders, ..old(self)@.rules[at] },
                            ),
                            ..old(self)@
                        })
                        &&& match loaders@ {
                            Selected::All => final(self)@.rules[at].loaders is All,
                            Selected::Only(given) => final(self)@.rules[at].loaders matches Selected::Only(kept)
                                && sorted_once(given, kept),
                        }
                    },
                }
            },
    {
        let kept = match &loaders {
            LoaderSelection::All => LoaderSelection::All,
            LoaderSelection::Only(agents) => {
                if agents.len() == 0 {
                    return Err(ScheduleError::EmptyRuleSelection);
                }
                LoaderSelection::Only(sort_once(agents))
            },
        };
        match self.find_rule(id) {
            None => Err(ScheduleError::UnknownTruckingRule),
            Some(at) => {
                let ghost before = self@;
                let ghost shown = kept@;
                self.rules[at].loaders = kept;
                assert(self@.rules =~= before.rules.update(
                    at as int,
                    RuleView { loaders: shown, ..before.rules[at as int] },
                ));
                Ok(())
            },
        }
    }

    /// Selects sources; they are kept in the order given, each once.
    pub fn set_rule_sources(&mut self, id: TruckingRuleId, sources: MovementSourceSelection) -> (r: Result<
        (),
        ScheduleError,
    >)
        ensures
            match old(self)@.set_rule_sources(id, sources@) {
                Ok((now, _)) => r is Ok && final(self)@ == now,
                Err(error) => r == Err::<(), ScheduleError>(error) && final(self)@ == old(self)@,
            },
    {
        let kept = match &sources {
            MovementSourceSelection::All => MovementSourceSelection::All,
            MovementSourceSelection::Only(scopes) => {
                if scopes.len() == 0 {
                    return Err(ScheduleError::EmptyRuleSelection);
                }
                if has_invalid(scopes) {
                    return Err(ScheduleError::InvalidSourceScope);
                }
                MovementSourceSelection::Only(scopes_once(scopes))
            },
        };
        match self.find_rule(id) {
            None => Err(ScheduleError::UnknownTruckingRule),
            Some(at) => {
                let ghost before = self@;
                let ghost shown = kept@;
                self.rules[at].sources = kept;
                assert(self@.rules =~= before.rules.update(
                    at as int,
                    RuleView { sources: shown, ..before.rules[at as int] },
                ));
                Ok(())
            },
        }
    }

    /// Selects destinations; they are kept in the order given, each once.
    pub fn set_rule_destinations(&mut self, id: TruckingRuleId, destinations: DestinationSelection) -> (r: Result<
        (),
        ScheduleError,
    >)
        ensures
            match old(self)@.set_rule_destinations(id, destinations@) {
                Ok((now, _)) => r is Ok && final(self)@ == now,
                Err(error) => r == Err::<(), ScheduleError>(error) && final(self)@ == old(self)@,
            },
    {
        let kept = match &destinations {
            DestinationSelection::All => DestinationSelection::All,
            DestinationSelection::Only(ids) => {
                if ids.len() == 0 {
                    return Err(ScheduleError::EmptyRuleSelection);
                }
                DestinationSelection::Only(destinations_once(ids))
            },
        };
        match self.find_rule(id) {
            None => Err(ScheduleError::UnknownTruckingRule),
            Some(at) => {
                let ghost before = self@;
                let ghost shown = kept@;
                self.rules[at].destinations = kept;
                assert(self@.rules =~= before.rules.update(
                    at as int,
                    RuleView { destinations: shown, ..before.rules[at as int] },
                ));
                Ok(())
            },
        }
    }

    /// Says which classes a rule permits.
    pub fn set_rule_classes(&mut self, id: TruckingRuleId, classes: &Vec<TruckClassId>) -> (r: Result<
        (),
        ScheduleError,
    >)
        ensures
            match old(self)@.set_rule_classes(id, classes@) {
                Ok((now, _)) => r is Ok && final(self)@ == now,
                Err(error) => r == Err::<(), ScheduleError>(error) && final(self)@ == old(self)@,
            },
    {
        let kept = match self.checked_classes(classes) {
            Ok(kept) => kept,
            Err(error) => {
                return Err(error);
            },
        };
        match self.find_rule(id) {
            None => Err(ScheduleError::UnknownTruckingRule),
            Some(at) => {
                let ghost before = self@;
                let ghost shown = kept@;
                self.rules[at].classes = kept;
                assert(self@.rules =~= before.rules.update(
                    at as int,
                    RuleView { classes: shown, ..before.rules[at as int] },
                ));
                Ok(())
            },
        }
    }
}

/// Once an edit is refused, the batch is.
proof fn stays_refused<N: Scalar>(
    n: nat,
    m: nat,
    start: Result<Seq<CalendarView<N>>, ScheduleError>,
    classes: Seq<ClassView<N>>,
    edits: Seq<TruckCellEdit<N>>,
)
    requires
        m <= n,
    ensures
        folded(m, start, edit_step(classes, edits)) matches Err(error) ==> folded(n, start, edit_step(classes, edits))
            == Err::<Seq<CalendarView<N>>, ScheduleError>(error),
    decreases n,
{
    if m < n {
        stays_refused((n - 1) as nat, m, start, classes, edits);
    }
}

/// Where nothing is left out, everything is there.
proof fn kept_all(rules: Seq<RuleView>, id: TruckingRuleId, n: nat)
    requires
        n <= rules.len(),
    ensures
        flat(n, rule_keeper(rules, id)).len() <= n,
        flat(n, rule_keeper(rules, id)).len() == n ==> flat(n, rule_keeper(rules, id)) == rules.take(n as int),
    decreases n,
{
    if n > 0 {
        kept_all(rules, id, (n - 1) as nat);
        assert(rules.take(n as int) =~= rules.take(n - 1).push(rules[n - 1]));
    } else {
        assert(rules.take(0) =~= Seq::empty());
    }
    assert(rules.take(rules.len() as int) =~= rules);
}

} // verus!
