//! Checking a fleet that was read from a file.
use vstd::prelude::*;

use crate::error::ScheduleError;
use crate::listing::{first_from, folded};
use crate::scalar::Scalar;
use crate::trucking::calendar::{checked_positive, is_positive};
use crate::trucking::fleet::{class_at, ClassView, FleetView, TruckFleetConfig};
use crate::trucking::permits::{any_invalid, has_invalid};
use crate::trucking::rules::{
    DestinationSelection, LoaderSelection, MovementSourceSelection, RuleView, Selected, TruckClassId,
};

verus! {

/// A name that was read: whether it can be one, and for each entry before it,
/// whether that reads the same.
#[derive(Clone, Debug)]
pub struct LoadedName {
    pub valid: bool,
    pub same: Vec<bool>,
}

/// There is a name for every entry, held against all before it.
pub open spec fn names_fit(names: Seq<LoadedName>, count: nat) -> bool {
    names.len() == count && forall|i: int| 0 <= i < names.len() ==> (#[trigger] names[i]).same@.len() >= i
}

/// A name reads as one before it does.
pub open spec fn name_repeats(name: LoadedName, i: int) -> bool {
    exists|j: int| 0 <= j < i && (#[trigger] name.same@[j])
}

fn does_name_repeat(name: &LoadedName, i: usize) -> (r: bool)
    requires
        name.same@.len() >= i,
    ensures
        r == name_repeats(*name, i as int),
{
    for j in 0..i
        invariant
            name.same@.len() >= i,
            forall|q: int| 0 <= q < j ==> !#[trigger] name.same@[q],
    {
        if name.same[j] {
            assert(name.same@[j as int]);
            return true;
        }
    }
    false
}

/// What is wrong with the class at a place.
pub open spec fn class_fault<N: Scalar>(classes: Seq<ClassView<N>>, names: Seq<LoadedName>) -> spec_fn(int) -> Option<
    ScheduleError,
> {
    |i: int|
        if exists|j: int| 0 <= j < i && (#[trigger] classes[j]).id == classes[i].id {
            Some(ScheduleError::DuplicateId)
        } else if !names[i].valid {
            Some(ScheduleError::InvalidName)
        } else if name_repeats(names[i], i) {
            Some(ScheduleError::DuplicateName(classes[i].name))
        } else if !is_positive(classes[i].payload_t) {
            Some(ScheduleError::InvalidPayload)
        } else if !is_positive(classes[i].loaded_speed_kph) || !is_positive(classes[i].unloaded_speed_kph) {
            Some(ScheduleError::InvalidSpeed)
        } else {
            classes[i].calendar.error()
        }
}

/// What is wrong with the class that a rule names at a place.
pub open spec fn mention_fault<N: Scalar>(classes: Seq<ClassView<N>>, ids: Seq<TruckClassId>) -> spec_fn(
    int,
) -> Option<ScheduleError> {
    |k: int|
        if exists|j: int| 0 <= j < k && (#[trigger] ids[j]) == ids[k] {
            Some(ScheduleError::DuplicateId)
        } else if class_at(classes, ids[k]) is None {
            Some(ScheduleError::UnknownTruckClass)
        } else {
            None
        }
}

/// What is wrong with what a rule selects.
pub open spec fn selection_fault(rule: RuleView) -> Option<ScheduleError> {
    if rule.loaders.nothing() || rule.sources.nothing() {
        Some(ScheduleError::EmptyRuleSelection)
    } else if rule.sources matches Selected::Only(scopes) && any_invalid(scopes) {
        Some(ScheduleError::InvalidSourceScope)
    } else if rule.destinations.nothing() || rule.classes.len() == 0 {
        Some(ScheduleError::EmptyRuleSelection)
    } else {
        None
    }
}

/// What is wrong with the rule at a place.
pub open spec fn rule_fault<N: Scalar>(
    classes: Seq<ClassView<N>>,
    rules: Seq<RuleView>,
    names: Seq<LoadedName>,
) -> spec_fn(int) -> Option<ScheduleError> {
    |i: int|
        if exists|j: int| 0 <= j < i && (#[trigger] rules[j]).id == rules[i].id {
            Some(ScheduleError::DuplicateId)
        } else if !names[i].valid {
            Some(ScheduleError::InvalidName)
        } else if name_repeats(names[i], i) {
            Some(ScheduleError::DuplicateName(rules[i].name))
        } else {
            match selection_fault(rules[i]) {
                Some(error) => Some(error),
                None => first_from(
                    0,
                    rules[i].classes.len() as int,
                    mention_fault(classes, rules[i].classes),
                ),
            }
        }
}

pub open spec fn class_id_step<N: Scalar>(classes: Seq<ClassView<N>>) -> spec_fn(Option<u64>, int) -> Option<u64> {
    |most: Option<u64>, i: int| larger_id(most, classes[i].id.0)
}

pub open spec fn rule_id_step(rules: Seq<RuleView>) -> spec_fn(Option<u64>, int) -> Option<u64> {
    |most: Option<u64>, i: int| larger_id(most, rules[i].id.0)
}

pub open spec fn larger_id(most: Option<u64>, id: u64) -> Option<u64> {
    match most {
        Some(held) => if held < id {
            Some(id)
        } else {
            most
        },
        None => Some(id),
    }
}

fn find_larger_id(most: Option<u64>, id: u64) -> (r: Option<u64>)
    ensures
        r == larger_id(most, id),
{
    match most {
        Some(held) => if held < id {
            Some(id)
        } else {
            most
        },
        None => Some(id),
    }
}

/// The next id after one is held, or that there is none.
pub open spec fn raised_past(counter: u64, most: Option<u64>) -> Option<u64> {
    match most {
        None => Some(counter),
        Some(id) => if id == u64::MAX {
            None
        } else if counter < id + 1 {
            Some((id + 1) as u64)
        } else {
            Some(counter)
        },
    }
}

fn raise_past(counter: u64, most: Option<u64>) -> (r: Option<u64>)
    ensures
        r == raised_past(counter, most),
{
    match most {
        None => Some(counter),
        Some(id) => if id == u64::MAX {
            None
        } else if counter < id + 1 {
            Some(id + 1)
        } else {
            Some(counter)
        },
    }
}

impl<N: Scalar> FleetView<N> {
    /// The first thing that is wrong with a fleet.
    pub open spec fn fault(self, class_names: Seq<LoadedName>, rule_names: Seq<LoadedName>) -> Option<ScheduleError> {
        match first_from(0, self.classes.len() as int, class_fault(self.classes, class_names)) {
            Some(error) => Some(error),
            None => first_from(0, self.rules.len() as int, rule_fault(self.classes, self.rules, rule_names)),
        }
    }

    /// The highest id of a class.
    pub open spec fn highest_class(self) -> Option<u64> {
        folded(self.classes.len(), None, class_id_step(self.classes))
    }

    /// The highest id of a rule.
    pub open spec fn highest_rule(self) -> Option<u64> {
        folded(self.rules.len(), None, rule_id_step(self.rules))
    }
}

impl<N: Scalar> TruckFleetConfig<N> {
    fn check_class(&self, i: usize, names: &Vec<LoadedName>) -> (r: Result<(), ScheduleError>)
        requires
            names_fit(names@, self@.classes.len()),
            i < self@.classes.len(),
        ensures
            r == (match class_fault(self@.classes, names@)(i as int) {
                Some(error) => Err(error),
                None => Ok(()),
            }),
    {
        let class = &self.classes[i];
        assert(self@.classes[i as int] == class@);
        for j in 0..i
            invariant
                i < self@.classes.len(),
                class@ == self@.classes[i as int],
                forall|q: int| 0 <= q < j ==> (#[trigger] self@.classes[q]).id != self@.classes[i as int].id,
        {
            assert(self@.classes[j as int].id == self.classes@[j as int].id);
            if self.classes[j].id == class.id {
                return Err(ScheduleError::DuplicateId);
            }
        }
        assert(names@[i as int].same@.len() >= i);
        if !names[i].valid {
            return Err(ScheduleError::InvalidName);
        }
        if does_name_repeat(&names[i], i) {
            return Err(ScheduleError::DuplicateName(class.name.clone()));
        }
        if let Err(error) = checked_positive(class.payload_t, ScheduleError::InvalidPayload) {
            return Err(error);
        }
        if let Err(error) = checked_positive(class.loaded_speed_kph, ScheduleError::InvalidSpeed) {
            return Err(error);
        }
        if let Err(error) = checked_positive(class.unloaded_speed_kph, ScheduleError::InvalidSpeed) {
            return Err(error);
        }
        class.calendar.validate()
    }

    fn check_selections(&self, i: usize) -> (r: Result<(), ScheduleError>)
        requires
            i < self@.rules.len(),
        ensures
            r == (match selection_fault(self@.rules[i as int]) {
                Some(error) => Err(error),
                None => Ok(()),
            }),
    {
        let rule = &self.rules[i];
        assert(self@.rules[i as int] == rule@);
        let no_loaders: bool = match &rule.loaders {
            LoaderSelection::All => false,
            LoaderSelection::Only(agents) => agents.len() == 0,
        };
        if no_loaders {
            return Err(ScheduleError::EmptyRuleSelection);
        }
        match &rule.sources {
            MovementSourceSelection::All => {},
            MovementSourceSelection::Only(scopes) => {
                if scopes.len() == 0 {
                    return Err(ScheduleError::EmptyRuleSelection);
                }
                if has_invalid(scopes) {
                    return Err(ScheduleError::InvalidSourceScope);
                }
            },
        }
        let no_destinations: bool = match &rule.destinations {
            DestinationSelection::All => false,
            DestinationSelection::Only(ids) => ids.len() == 0,
        };
        if no_destinations || rule.classes.len() == 0 {
            return Err(ScheduleError::EmptyRuleSelection);
        }
        Ok(())
    }

    fn check_mentions(&self, ids: &Vec<TruckClassId>) -> (r: Result<(), ScheduleError>)
        ensures
            r == (match first_from(0, ids@.len() as int, mention_fault(self@.classes, ids@)) {
                Some(error) => Err(error),
                None => Ok(()),
            }),
    {
        let ghost f = mention_fault(self@.classes, ids@);
        for k in 0..ids.len()
            invariant
                f == mention_fault(self@.classes, ids@),
                first_from(0, ids@.len() as int, f) == first_from(k as int, ids@.len() as int, f),
        {
            let id = ids[k];
            let mut again: bool = false;
            for j in 0..k
                invariant
                    k < ids@.len(),
                    id == ids@[k as int],
                    again == exists|q: int| 0 <= q < j && (#[trigger] ids@[q]) == ids@[k as int],
            {
                if ids[j] == id {
                    assert(ids@[j as int] == ids@[k as int]);
                    again = true;
                }
            }
            if again {
                return Err(ScheduleError::DuplicateId);
            }
            if self.find_class(id).is_none() {
                return Err(ScheduleError::UnknownTruckClass);
            }
        }
        Ok(())
    }

    fn check_rule(&self, i: usize, names: &Vec<LoadedName>) -> (r: Result<(), ScheduleError>)
        requires
            names_fit(names@, self@.rules.len()),
            i < self@.rules.len(),
        ensures
            r == (match rule_fault(self@.classes, self@.rules, names@)(i as int) {
                Some(error) => Err(error),
                None => Ok(()),
            }),
    {
        let rule = &self.rules[i];
        assert(self@.rules[i as int] == rule@);
        for j in 0..i
            invariant
                i < self@.rules.len(),
                rule@ == self@.rules[i as int],
                forall|q: int| 0 <= q < j ==> (#[trigger] self@.rules[q]).id != self@.rules[i as int].id,
        {
            assert(self@.rules[j as int].id == self.rules@[j as int].id);
            if self.rules[j].id == rule.id {
                return Err(ScheduleError::DuplicateId);
            }
        }
        assert(names@[i as int].same@.len() >= i);
        if !names[i].valid {
            return Err(ScheduleError::InvalidName);
        }
        if does_name_repeat(&names[i], i) {
            return Err(ScheduleError::DuplicateName(rule.name.clone()));
        }
        match self.check_selections(i) {
            Err(error) => Err(error),
            Ok(()) => self.check_mentions(&rule.classes),
        }
    }

    /// Checks a fleet that was read, and moves its counters past every id that
    /// it holds.
    pub fn validate_loaded(&mut self, class_names: &Vec<LoadedName>, rule_names: &Vec<LoadedName>) -> (r: Result<
        (),
        ScheduleError,
    >)
        requires
            names_fit(class_names@, old(self)@.classes.len()),
            names_fit(rule_names@, old(self)@.rules.len()),
        ensures
            ({
                let before = old(self)@;
                match before.fault(class_names@, rule_names@) {
                    Some(error) => r == Err::<(), ScheduleError>(error) && final(self)@ == before,
                    None => match (
                        raised_past(before.next_class_id, before.highest_class()),
                        raised_past(before.next_rule_id, before.highest_rule()),
                    ) {
                        (Some(class), Some(rule)) => r is Ok && final(self)@ == (FleetView {
                            next_class_id: class,
                            next_rule_id: rule,
                            ..before
                        }),
                        (Some(class), None) => {
                            &&& r == Err::<(), ScheduleError>(ScheduleError::IdsExhausted)
                            &&& final(self)@ == (FleetView { next_class_id: class, ..before })
                        },
                        _ => r == Err::<(), ScheduleError>(ScheduleError::IdsExhausted) && final(self)@ == before,
                    },
                }
            }),
    {
        let ghost f = class_fault(self@.classes, class_names@);
        for i in 0..self.classes.len()
            invariant
                self@ == old(self)@,
                names_fit(class_names@, self@.classes.len()),
                f == class_fault(self@.classes, class_names@),
                first_from(0, self@.classes.len() as int, f) == first_from(i as int, self@.classes.len() as int, f),
        {
            if let Err(error) = self.check_class(i, class_names) {
                return Err(error);
            }
        }
        let ghost g = rule_fault(self@.classes, self@.rules, rule_names@);
        for i in 0..self.rules.len()
            invariant
                self@ == old(self)@,
                names_fit(rule_names@, self@.rules.len()),
                first_from(0, self@.classes.len() as int, class_fault(self@.classes, class_names@)) is None,
                g == rule_fault(self@.classes, self@.rules, rule_names@),
                first_from(0, self@.rules.len() as int, g) == first_from(i as int, self@.rules.len() as int, g),
        {
            if let Err(error) = self.check_rule(i, rule_names) {
                return Err(error);
            }
        }
        let mut highest_class: Option<u64> = None;
        let ghost step = class_id_step(self@.classes);
        for i in 0..self.classes.len()
            invariant
                step == class_id_step(self@.classes),
                highest_class == folded(i as nat, None, step),
        {
            assert(self@.classes[i as int].id == self.classes@[i as int].id);
            highest_class = find_larger_id(highest_class, self.classes[i].id.0);
        }
        let mut highest_rule: Option<u64> = None;
        let ghost step = rule_id_step(self@.rules);
        for i in 0..self.rules.len()
            invariant
                step == rule_id_step(self@.rules),
                highest_rule == folded(i as nat, None, step),
        {
            assert(self@.rules[i as int].id == self.rules@[i as int].id);
            highest_rule = find_larger_id(highest_rule, self.rules[i].id.0);
        }
        match raise_past(self.next_class_id, highest_class) {
            Some(next) => {
                self.next_class_id = next;
            },
            None => {
                return Err(ScheduleError::IdsExhausted);
            },
        }
        match raise_past(self.next_rule_id, highest_rule) {
            Some(next) => {
                self.next_rule_id = next;
                Ok(())
            },
            None => Err(ScheduleError::IdsExhausted),
        }
    }
}

} // verus!
