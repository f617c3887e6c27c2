//! What every edit of a fleet keeps, and what the rules permit.
use vstd::prelude::*;

use crate::error::ScheduleError;
use crate::listing::{first_from, first_where_finds, flat, folded};
use crate::scalar::Scalar;
use crate::trucking::fleet::{
    all_known, allowed_step, class_at, class_is, class_keeper, fleet_order, members, once_after, once_step, rule_at,
    rule_is, rule_keeper, strangers, user_names, with_once, ClassView, FleetView, TruckCellEdit,
};
use crate::trucking::loading::{
    class_fault, class_id_step, mention_fault, raised_past, rule_fault, rule_id_step, LoadedName,
};
use crate::trucking::rules::{
    DestinationId, MovementSourceScope, RouteContext, RuleView, Selected, TruckClassId, TruckingRuleId,
};

verus! {

/// Adding items once keeps what is there, adds what is missing, and repeats
/// nothing.
/// Items taken each once are the same items.
pub proof fn once_holds<T>(kept: Seq<T>, items: Seq<T>, n: nat)
    requires
        n <= items.len(),
        kept.no_duplicates(),
    ensures
        folded(n, kept, once_step(items)).no_duplicates(),
        forall|x: T|
            #[trigger] folded(n, kept, once_step(items)).contains(x) <==> kept.contains(x) || items.take(
                n as int,
            ).contains(x),
        n > 0 ==> folded(n, kept, once_step(items)).len() > 0,
    decreases n,
{
    let now = folded(n, kept, once_step(items));
    if n == 0 {
        assert(items.take(0) =~= Seq::empty());
    } else {
        once_holds(kept, items, (n - 1) as nat);
        let before = folded((n - 1) as nat, kept, once_step(items));
        let item = items[n - 1];
        assert(now == with_once(before, item));
        assert(items.take(n as int) =~= items.take(n - 1).push(item));
        assert forall|x: T| #[trigger] now.contains(x) <==> kept.contains(x) || items.take(n as int).contains(x) by {
            let fewer = items.take(n - 1);
            let more = fewer.push(item);
            assert(more[n - 1] == item);
            if more.contains(x) {
                let j = choose|j: int| 0 <= j < more.len() && more[j] == x;
                if j < n - 1 {
                    assert(fewer[j] == x);
                }
            }
            if fewer.contains(x) {
                let j = choose|j: int| 0 <= j < fewer.len() && fewer[j] == x;
                assert(more[j] == x);
            }
            if before.contains(x) {
                let j = choose|j: int| 0 <= j < before.len() && before[j] == x;
                assert(now[j] == x);
            }
            if now.contains(x) && !before.contains(item) {
                let j = choose|j: int| 0 <= j < now.len() && now[j] == x;
                if j < before.len() {
                    assert(before[j] == x);
                }
            }
            if !before.contains(item) {
                assert(now[before.len() as int] == item);
            }
        }
        assert(now.contains(item)) by {
            assert(items.take(n as int)[n - 1] == item);
        }
    }
}

/// Without strangers there are none to put first.
proof fn no_strangers<N: Scalar>(classes: Seq<ClassView<N>>, ids: Seq<TruckClassId>, n: nat)
    requires
        all_known(classes, ids),
        n <= ids.len(),
    ensures
        flat(n, strangers(classes, ids)) == Seq::<TruckClassId>::empty(),
    decreases n,
{
    if n > 0 {
        no_strangers(classes, ids, (n - 1) as nat);
        assert(class_at(classes, ids[n - 1]) is Some);
        assert(flat(n, strangers(classes, ids)) =~= Seq::empty());
    }
}

proof fn members_rise<N: Scalar>(classes: Seq<ClassView<N>>, ids: Seq<TruckClassId>, n: nat)
    requires
        n <= classes.len(),
    ensures
        ({
            let kept = flat(n, members(classes, ids));
            &&& forall|a: int|
                0 <= a < kept.len() ==> class_at(classes, #[trigger] kept[a]) is Some && class_at(
                    classes,
                    kept[a],
                )->0 < n && ids.contains(kept[a])
            &&& forall|a: int, b: int|
                0 <= a < b < kept.len() ==> class_at(classes, #[trigger] kept[a])->0 < class_at(
                    classes,
                    #[trigger] kept[b],
                )->0
            &&& forall|c: int|
                0 <= c < n && class_at(classes, #[trigger] classes[c].id) == Some(c) && ids.contains(classes[c].id)
                    ==> kept.contains(classes[c].id)
        }),
    decreases n,
{
    if n > 0 {
        members_rise(classes, ids, (n - 1) as nat);
        let before = flat((n - 1) as nat, members(classes, ids));
        let kept = flat(n, members(classes, ids));
        let id = classes[n - 1].id;
        if class_at(classes, id) == Some(n - 1) && ids.contains(id) {
            assert(kept =~= before.push(id));
            assert(kept[before.len() as int] == id);
        } else {
            assert(kept =~= before);
        }
        assert forall|c: int|
            0 <= c < n && class_at(classes, #[trigger] classes[c].id) == Some(c) && ids.contains(
                classes[c].id,
            ) implies kept.contains(classes[c].id) by {
            if c < n - 1 {
                let j = choose|j: int| 0 <= j < before.len() && before[j] == classes[c].id;
                assert(kept[j] == classes[c].id);
            }
        }
    }
}

/// Known ids put in the order of the fleet are the same ids, each once, at
/// rising places.
pub proof fn fleet_order_holds<N: Scalar>(classes: Seq<ClassView<N>>, ids: Seq<TruckClassId>)
    requires
        all_known(classes, ids),
    ensures
        ({
            let kept = fleet_order(classes, ids);
            &&& forall|id: TruckClassId| #[trigger] kept.contains(id) <==> ids.contains(id)
            &&& forall|a: int, b: int|
                0 <= a < b < kept.len() ==> class_at(classes, #[trigger] kept[a])->0 < class_at(
                    classes,
                    #[trigger] kept[b],
                )->0
            &&& kept.no_duplicates()
            &&& all_known(classes, kept)
            &&& ids.len() > 0 ==> kept.len() > 0
        }),
{
    let kept = fleet_order(classes, ids);
    no_strangers(classes, ids, ids.len());
    members_rise(classes, ids, classes.len());
    assert(kept =~= flat(classes.len(), members(classes, ids)));
    assert forall|id: TruckClassId| #[trigger] kept.contains(id) <==> ids.contains(id) by {
        if ids.contains(id) {
            let i = choose|i: int| 0 <= i < ids.len() && ids[i] == id;
            assert(class_at(classes, ids[i]) is Some);
            first_where_finds(0, classes.len() as int, class_is(classes, id));
            let c = class_at(classes, id)->0;
            assert(class_is(classes, id)(c));
            assert(classes[c].id == id);
        }
    }
    if ids.len() > 0 {
        assert(ids.contains(ids[0]));
        assert(kept.contains(ids[0]));
    }
}

/// What a rule may be given is a list of classes of the fleet, each once, at
/// least one, in the order of the fleet, and the same classes as were asked for.
pub proof fn checked_classes_hold<N: Scalar>(fleet: FleetView<N>, ids: Seq<TruckClassId>)
    ensures
        fleet.checked_classes(ids) matches Ok(kept) ==> {
            &&& kept.len() > 0
            &&& kept.no_duplicates()
            &&& all_known(fleet.classes, kept)
            &&& forall|id: TruckClassId| #[trigger] kept.contains(id) <==> ids.contains(id)
        },
{
    if let Ok(kept) = fleet.checked_classes(ids) {
        let once = once_after(Seq::empty(), ids);
        once_holds(Seq::<TruckClassId>::empty(), ids, ids.len());
        assert(ids.take(ids.len() as int) =~= ids);
        assert forall|i: int| 0 <= i < once.len() implies class_at(fleet.classes, #[trigger] once[i]) is Some by {
            assert(once.contains(once[i]));
            assert(ids.contains(once[i]));
        }
        fleet_order_holds(fleet.classes, once);
    }
}

proof fn allowed_so_far<N: Scalar>(fleet: FleetView<N>, route: RouteContext, n: nat)
    requires
        n <= fleet.rules.len(),
    ensures
        ({
            let allowed = folded(n, Seq::empty(), allowed_step(fleet.rules, route));
            &&& allowed.no_duplicates()
            &&& forall|id: TruckClassId|
                #[trigger] allowed.contains(id) <==> exists|i: int|
                    0 <= i < n && (#[trigger] fleet.rules[i]).fits(route) && fleet.rules[i].classes.contains(id)
        }),
    decreases n,
{
    let allowed = folded(n, Seq::empty(), allowed_step(fleet.rules, route));
    if n > 0 {
        allowed_so_far(fleet, route, (n - 1) as nat);
        let before = folded((n - 1) as nat, Seq::empty(), allowed_step(fleet.rules, route));
        let rule = fleet.rules[n - 1];
        if rule.fits(route) {
            once_holds(before, rule.classes, rule.classes.len());
            assert(rule.classes.take(rule.classes.len() as int) =~= rule.classes);
            assert(allowed == once_after(before, rule.classes));
        } else {
            assert(allowed == before);
        }
        assert forall|id: TruckClassId|
            #[trigger] allowed.contains(id) <==> exists|i: int|
                0 <= i < n && (#[trigger] fleet.rules[i]).fits(route) && fleet.rules[i].classes.contains(id) by {
            if before.contains(id) {
                let i = choose|i: int|
                    0 <= i < n - 1 && (#[trigger] fleet.rules[i]).fits(route) && fleet.rules[i].classes.contains(id);
                assert(fleet.rules[i].fits(route));
            }
        }
    }
}

/// A class may serve a movement exactly where an enabled rule that speaks of
/// the movement names it: the order of the rules means nothing. Each class is
/// listed once, in the order of the fleet, and where no rule speaks of the
/// movement there is none.
pub proof fn allowed_is_union<N: Scalar>(fleet: FleetView<N>, route: RouteContext)
    requires
        fleet.well_formed(),
    ensures
        forall|id: TruckClassId|
            #[trigger] fleet.allowed(route).contains(id) <==> exists|i: int|
                0 <= i < fleet.rules.len() && (#[trigger] fleet.rules[i]).fits(route)
                    && fleet.rules[i].classes.contains(id),
        fleet.allowed(route).no_duplicates(),
        forall|a: int, b: int|
            0 <= a < b < fleet.allowed(route).len() ==> class_at(
                fleet.classes,
                #[trigger] fleet.allowed(route)[a],
            )->0 < class_at(fleet.classes, #[trigger] fleet.allowed(route)[b])->0,
{
    allowed_so_far(fleet, route, fleet.rules.len());
    let allowed = folded(fleet.rules.len(), Seq::empty(), allowed_step(fleet.rules, route));
    assert forall|i: int| 0 <= i < allowed.len() implies class_at(fleet.classes, #[trigger] allowed[i]) is Some by {
        assert(allowed.contains(allowed[i]));
        let r = choose|r: int|
            0 <= r < fleet.rules.len() && (#[trigger] fleet.rules[r]).fits(route) && fleet.rules[r].classes.contains(
                allowed[i],
            );
        let classes = fleet.rules[r].classes;
        let k = choose|k: int| 0 <= k < classes.len() && classes[k] == allowed[i];
        assert(class_at(fleet.classes, classes[k]) is Some);
    }
    fleet_order_holds(fleet.classes, allowed);
    assert forall|id: TruckClassId|
        #[trigger] fleet.allowed(route).contains(id) <==> exists|i: int|
            0 <= i < fleet.rules.len() && (#[trigger] fleet.rules[i]).fits(route) && fleet.rules[i].classes.contains(
                id,
            ) by {
        assert(allowed.contains(id) <==> fleet.allowed(route).contains(id));
    }
}

/// A class has an id.
pub open spec fn has_class<N>(classes: Seq<ClassView<N>>, id: TruckClassId) -> bool {
    exists|c: int| 0 <= c < classes.len() && (#[trigger] classes[c]).id == id
}

/// A class is found under its id.
proof fn class_found<N: Scalar>(classes: Seq<ClassView<N>>, id: TruckClassId)
    ensures
        class_at(classes, id) is Some <==> has_class(classes, id),
        class_at(classes, id) matches Some(c) ==> 0 <= c < classes.len() && classes[c].id == id,
{
    first_where_finds(0, classes.len() as int, class_is(classes, id));
    if class_at(classes, id) is Some {
        let c = class_at(classes, id)->0;
        assert(class_is(classes, id)(c));
        assert(classes[c].id == id);
    } else {
        assert forall|c: int| 0 <= c < classes.len() implies (#[trigger] classes[c]).id != id by {
            assert(!class_is(classes, id)(c));
        }
    }
}

/// Rules still name classes that are there where no id goes.
proof fn rules_keep<N: Scalar>(before: FleetView<N>, after: FleetView<N>)
    requires
        before.well_formed(),
        after.rules == before.rules,
        after.next_rule_id == before.next_rule_id,
        after.classes_stand(),
        forall|id: TruckClassId| has_class(before.classes, id) ==> #[trigger] has_class(after.classes, id),
    ensures
        after.well_formed(),
{
    assert forall|i: int| 0 <= i < after.rules.len() implies {
        let classes = (#[trigger] after.rules[i]).classes;
        classes.len() > 0 && classes.no_duplicates() && all_known(after.classes, classes)
    } by {
        let classes = before.rules[i].classes;
        assert forall|k: int| 0 <= k < classes.len() implies class_at(after.classes, #[trigger] classes[k]) is Some by {
            assert(class_at(before.classes, classes[k]) is Some);
            class_found(before.classes, classes[k]);
            class_found(after.classes, classes[k]);
        }
    }
}

/// A new class has an id that was never given before, and everything stands.
pub proof fn add_class_keeps<N: Scalar>(
    fleet: FleetView<N>,
    checked: Result<String, ScheduleError>,
    same: Seq<bool>,
)
    requires
        fleet.well_formed(),
    ensures
        fleet.add_class(checked, same) matches Ok((now, id)) ==> {
            &&& now.well_formed()
            &&& class_at(fleet.classes, id) is None
            &&& id.0 >= fleet.next_class_id
            &&& now.next_class_id > id.0
        },
{
    if let Ok((now, id)) = fleet.add_class(checked, same) {
        class_found(fleet.classes, id);
        assert forall|other: TruckClassId| has_class(fleet.classes, other) implies #[trigger] has_class(
            now.classes,
            other,
        ) by {
            let c = choose|c: int| 0 <= c < fleet.classes.len() && (#[trigger] fleet.classes[c]).id == other;
            assert(now.classes[c].id == other);
        }
        rules_keep(fleet, now);
    }
}

/// A copied class has an id that was never given before, and everything stands.
pub proof fn duplicate_class_keeps<N: Scalar>(
    fleet: FleetView<N>,
    id: TruckClassId,
    checked: Result<String, ScheduleError>,
    same: Seq<bool>,
)
    requires
        fleet.well_formed(),
    ensures
        fleet.duplicate_class(id, checked, same) matches Ok((now, given)) ==> {
            &&& now.well_formed()
            &&& class_at(fleet.classes, given) is None
            &&& now.next_class_id > given.0 >= fleet.next_class_id
        },
{
    if let Ok((now, given)) = fleet.duplicate_class(id, checked, same) {
        class_found(fleet.classes, given);
        class_found(fleet.classes, id);
        let at = class_at(fleet.classes, id)->0;
        assert forall|other: TruckClassId| has_class(fleet.classes, other) implies #[trigger] has_class(
            now.classes,
            other,
        ) by {
            let c = choose|c: int| 0 <= c < fleet.classes.len() && (#[trigger] fleet.classes[c]).id == other;
            let d = if c <= at { c } else { c + 1 };
            assert(now.classes[d] == fleet.classes[c]);
        }
        assert forall|i: int, j: int| 0 <= i < j < now.classes.len() implies (#[trigger] now.classes[i]).id != (
        #[trigger] now.classes[j]).id by {
            let a = if i <= at { i } else { i - 1 };
            let b = if j <= at { j } else { j - 1 };
            if i != at + 1 {
                assert(now.classes[i] == fleet.classes[a]);
            }
            if j != at + 1 {
                assert(now.classes[j] == fleet.classes[b]);
            }
        }
        assert forall|i: int| 0 <= i < now.classes.len() implies (#[trigger] now.classes[i]).id.0
            < now.next_class_id by {
            let a = if i <= at { i } else { i - 1 };
            if i != at + 1 {
                assert(now.classes[i] == fleet.classes[a]);
            }
        }
        rules_keep(fleet, now);
    }
}

/// A class that stays under its id keeps everything standing.
proof fn class_update_keeps<N: Scalar>(fleet: FleetView<N>, now: FleetView<N>)
    requires
        fleet.well_formed(),
        now.rules == fleet.rules,
        now.next_rule_id == fleet.next_rule_id,
        now.next_class_id == fleet.next_class_id,
        now.classes.len() == fleet.classes.len(),
        forall|c: int| 0 <= c < now.classes.len() ==> (#[trigger] now.classes[c]).id == fleet.classes[c].id,
    ensures
        now.well_formed(),
{
    assert forall|other: TruckClassId| has_class(fleet.classes, other) implies #[trigger] has_class(
        now.classes,
        other,
    ) by {
        let c = choose|c: int| 0 <= c < fleet.classes.len() && (#[trigger] fleet.classes[c]).id == other;
        assert(now.classes[c].id == other);
    }
    assert(now.classes_stand()) by {
        assert forall|i: int| 0 <= i < now.classes.len() implies (#[trigger] now.classes[i]).id.0
            < now.next_class_id by {
            assert(fleet.classes[i].id.0 < fleet.next_class_id);
        }
        assert forall|i: int, j: int| 0 <= i < j < now.classes.len() implies (#[trigger] now.classes[i]).id != (
        #[trigger] now.classes[j]).id by {
            assert(fleet.classes[i].id != fleet.classes[j].id);
        }
    }
    rules_keep(fleet, now);
}

/// Edits of one class keep everything standing, and no edit takes an id away.
pub proof fn class_edits_keep<N: Scalar>(
    fleet: FleetView<N>,
    id: TruckClassId,
    checked: Result<String, ScheduleError>,
    same: Seq<bool>,
    first: N,
    second: N,
)
    requires
        fleet.well_formed(),
    ensures
        fleet.rename_class(id, checked, same) matches Ok((now, _)) ==> now.well_formed(),
        fleet.set_class_payload(id, first) matches Ok((now, _)) ==> now.well_formed(),
        fleet.set_class_speeds(id, first, second) matches Ok((now, _)) ==> now.well_formed(),
{
    class_found(fleet.classes, id);
    if let Ok((now, _)) = fleet.rename_class(id, checked, same) {
        class_update_keeps(fleet, now);
    }
    if let Ok((now, _)) = fleet.set_class_payload(id, first) {
        class_update_keeps(fleet, now);
    }
    if let Ok((now, _)) = fleet.set_class_speeds(id, first, second) {
        class_update_keeps(fleet, now);
    }
}

/// Edits of calendars keep everything standing.
pub proof fn cell_edits_keep<N: Scalar>(fleet: FleetView<N>, edits: Seq<TruckCellEdit<N>>)
    requires
        fleet.well_formed(),
    ensures
        fleet.set_truck_cells(edits) matches Ok((now, _)) ==> now.well_formed(),
{
    if let Ok((now, _)) = fleet.set_truck_cells(edits) {
        class_update_keeps(fleet, now);
    }
}

proof fn kept_classes<N: Scalar>(fleet: FleetView<N>, id: TruckClassId, n: nat)
    requires
        n <= fleet.classes.len(),
        fleet.classes_stand(),
    ensures
        ({
            let kept = flat(n, class_keeper(fleet.classes, id));
            &&& forall|other: TruckClassId|
                #[trigger] has_class(kept, other) <==> other != id && has_class(fleet.classes.take(n as int), other)
            &&& forall|i: int, j: int| 0 <= i < j < kept.len() ==> (#[trigger] kept[i]).id != (#[trigger] kept[j]).id
            &&& forall|i: int| 0 <= i < kept.len() ==> (#[trigger] kept[i]).id.0 < fleet.next_class_id
        }),
    decreases n,
{
    let kept = flat(n, class_keeper(fleet.classes, id));
    if n > 0 {
        kept_classes(fleet, id, (n - 1) as nat);
        let before = flat((n - 1) as nat, class_keeper(fleet.classes, id));
        let fewer = fleet.classes.take(n - 1);
        let more = fleet.classes.take(n as int);
        let last = fleet.classes[n - 1];
        assert(more =~= fewer.push(last));
        has_one_more(fewer, last);
        if last.id != id {
            assert(kept =~= before.push(last));
            has_one_more(before, last);
            assert forall|i: int| 0 <= i < before.len() implies (#[trigger] before[i]).id != last.id by {
                assert(has_class(before, before[i].id));
                assert(has_class(fewer, before[i].id));
                let c = choose|c: int| 0 <= c < fewer.len() && (#[trigger] fewer[c]).id == before[i].id;
                assert(fleet.classes[c].id != fleet.classes[n - 1].id);
            }
            assert forall|i: int, j: int| 0 <= i < j < kept.len() implies (#[trigger] kept[i]).id != (
            #[trigger] kept[j]).id by {
                assert(kept[i] == before[i]);
                if j < before.len() {
                    assert(kept[j] == before[j]);
                }
            }
            assert forall|i: int| 0 <= i < kept.len() implies (#[trigger] kept[i]).id.0 < fleet.next_class_id by {
                if i < before.len() {
                    assert(kept[i] == before[i]);
                }
            }
        } else {
            assert(kept =~= before);
        }
    }
}

proof fn has_one_more<N: Scalar>(classes: Seq<ClassView<N>>, class: ClassView<N>)
    ensures
        forall|other: TruckClassId|
            #[trigger] has_class(classes.push(class), other) <==> has_class(classes, other) || other == class.id,
{
    let more = classes.push(class);
    assert forall|other: TruckClassId| #[trigger] has_class(more, other) <==> has_class(classes, other) || other
        == class.id by {
        if has_class(classes, other) {
            let c = choose|c: int| 0 <= c < classes.len() && (#[trigger] classes[c]).id == other;
            assert(more[c].id == other);
        }
        assert(more[classes.len() as int] == class);
        if has_class(more, other) {
            let c = choose|c: int| 0 <= c < more.len() && (#[trigger] more[c]).id == other;
            if c < classes.len() {
                assert(classes[c].id == other);
            }
        }
    }
}

proof fn no_users<N: Scalar>(fleet: FleetView<N>, id: TruckClassId, n: nat)
    requires
        n <= fleet.rules.len(),
    ensures
        flat(n, user_names(fleet.rules, id)).len() == 0 <==> forall|i: int|
            0 <= i < n ==> !(#[trigger] fleet.rules[i]).classes.contains(id),
    decreases n,
{
    if n > 0 {
        no_users(fleet, id, (n - 1) as nat);
    }
}

/// A class is removed only where no rule names it, it is gone then, every other
/// class stays, and everything stands.
pub proof fn remove_class_keeps<N: Scalar>(fleet: FleetView<N>, id: TruckClassId, other: TruckClassId)
    requires
        fleet.well_formed(),
    ensures
        fleet.users(id).len() == 0 <==> forall|i: int|
            0 <= i < fleet.rules.len() ==> !(#[trigger] fleet.rules[i]).classes.contains(id),
        fleet.users(id).len() == 0 ==> {
            let now = fleet.without_class(id);
            &&& now.well_formed()
            &&& class_at(now.classes, id) is None
            &&& other != id ==> (class_at(now.classes, other) is Some <==> class_at(fleet.classes, other) is Some)
        },
{
    no_users(fleet, id, fleet.rules.len());
    if fleet.users(id).len() == 0 {
        let now = fleet.without_class(id);
        kept_classes(fleet, id, fleet.classes.len());
        assert(fleet.classes.take(fleet.classes.len() as int) =~= fleet.classes);
        class_found(now.classes, id);
        class_found(now.classes, other);
        class_found(fleet.classes, other);
        assert(has_class(now.classes, other) <==> other != id && has_class(fleet.classes, other));
        assert(!has_class(now.classes, id));
        assert forall|i: int| 0 <= i < now.rules.len() implies {
            let classes = (#[trigger] now.rules[i]).classes;
            classes.len() > 0 && classes.no_duplicates() && all_known(now.classes, classes)
        } by {
            let classes = fleet.rules[i].classes;
            assert forall|k: int| 0 <= k < classes.len() implies class_at(
                now.classes,
                #[trigger] classes[k],
            ) is Some by {
                assert(classes.contains(classes[k]));
                assert(classes[k] != id);
                assert(class_at(fleet.classes, classes[k]) is Some);
                class_found(fleet.classes, classes[k]);
                class_found(now.classes, classes[k]);
                assert(has_class(now.classes, classes[k]));
            }
        }
    }
}

proof fn rule_found(rules: Seq<RuleView>, id: TruckingRuleId)
    ensures
        rule_at(rules, id) is Some <==> exists|c: int| 0 <= c < rules.len() && (#[trigger] rules[c]).id == id,
        rule_at(rules, id) matches Some(c) ==> 0 <= c < rules.len() && rules[c].id == id,
{
    first_where_finds(0, rules.len() as int, rule_is(rules, id));
    if rule_at(rules, id) is Some {
        let c = rule_at(rules, id)->0;
        assert(rule_is(rules, id)(c));
        assert(rules[c].id == id);
    } else {
        assert forall|c: int| 0 <= c < rules.len() implies (#[trigger] rules[c]).id != id by {
            assert(!rule_is(rules, id)(c));
        }
    }
}

/// A new or copied rule has an id that was never given before, and everything
/// stands.
pub proof fn new_rules_keep<N: Scalar>(
    fleet: FleetView<N>,
    id: TruckingRuleId,
    checked: Result<String, ScheduleError>,
    same: Seq<bool>,
    classes: Seq<TruckClassId>,
)
    requires
        fleet.well_formed(),
    ensures
        fleet.add_rule(checked, same, classes) matches Ok((now, given)) ==> now.well_formed() && rule_at(
            fleet.rules,
            given,
        ) is None && now.next_rule_id > given.0 >= fleet.next_rule_id,
        fleet.duplicate_rule(id, checked, same) matches Ok((now, given)) ==> now.well_formed() && rule_at(
            fleet.rules,
            given,
        ) is None && now.next_rule_id > given.0 >= fleet.next_rule_id,
{
    rule_found(fleet.rules, id);
    if let Ok((now, given)) = fleet.add_rule(checked, same, classes) {
        rule_found(fleet.rules, given);
        checked_classes_hold(fleet, classes);
        assert forall|i: int| 0 <= i < now.rules.len() implies {
            let kept = (#[trigger] now.rules[i]).classes;
            kept.len() > 0 && kept.no_duplicates() && all_known(now.classes, kept)
        } by {
            if i < fleet.rules.len() {
                assert(now.rules[i] == fleet.rules[i]);
            }
        }
    }
    if let Ok((now, given)) = fleet.duplicate_rule(id, checked, same) {
        rule_found(fleet.rules, given);
        let at = rule_at(fleet.rules, id)->0;
        assert forall|i: int| 0 <= i < now.rules.len() implies {
            let kept = (#[trigger] now.rules[i]).classes;
            kept.len() > 0 && kept.no_duplicates() && all_known(now.classes, kept)
        } by {
            let a = if i <= at { i } else { i - 1 };
            assert(now.rules[i].classes == fleet.rules[a].classes);
        }
        assert forall|i: int, j: int| 0 <= i < j < now.rules.len() implies (#[trigger] now.rules[i]).id != (
        #[trigger] now.rules[j]).id by {
            let a = if i <= at { i } else { i - 1 };
            let b = if j <= at { j } else { j - 1 };
            if i != at + 1 {
                assert(now.rules[i] == fleet.rules[a]);
            }
            if j != at + 1 {
                assert(now.rules[j] == fleet.rules[b]);
            }
        }
        assert forall|i: int| 0 <= i < now.rules.len() implies (#[trigger] now.rules[i]).id.0 < now.next_rule_id by {
            let a = if i <= at { i } else { i - 1 };
            if i != at + 1 {
                assert(now.rules[i] == fleet.rules[a]);
            }
        }
    }
}

/// A rule that stays under its id, with classes that may stand, keeps
/// everything standing.
pub proof fn rule_update_keeps<N: Scalar>(fleet: FleetView<N>, now: FleetView<N>, at: int)
    requires
        fleet.well_formed(),
        0 <= at < fleet.rules.len(),
        now == (FleetView { rules: fleet.rules.update(at, now.rules[at]), ..fleet }),
        now.rules[at].id == fleet.rules[at].id,
        now.rules[at].classes.len() > 0,
        now.rules[at].classes.no_duplicates(),
        all_known(fleet.classes, now.rules[at].classes),
    ensures
        now.well_formed(),
{
    assert forall|i: int| 0 <= i < now.rules.len() implies {
        let kept = (#[trigger] now.rules[i]).classes;
        kept.len() > 0 && kept.no_duplicates() && all_known(now.classes, kept)
    } by {
        if i != at {
            assert(now.rules[i] == fleet.rules[i]);
        }
    }
    assert forall|i: int| 0 <= i < now.rules.len() implies (#[trigger] now.rules[i]).id.0 < now.next_rule_id by {
        assert(now.rules[i].id == fleet.rules[i].id);
    }
    assert forall|i: int, j: int| 0 <= i < j < now.rules.len() implies (#[trigger] now.rules[i]).id != (
    #[trigger] now.rules[j]).id by {
        assert(now.rules[i].id == fleet.rules[i].id);
        assert(now.rules[j].id == fleet.rules[j].id);
    }
}

/// Edits of one rule keep everything standing.
pub proof fn rule_edits_keep<N: Scalar>(
    fleet: FleetView<N>,
    id: TruckingRuleId,
    checked: Result<String, ScheduleError>,
    same: Seq<bool>,
    enabled: bool,
    sources: Selected<MovementSourceScope>,
    destinations: Selected<DestinationId>,
    classes: Seq<TruckClassId>,
)
    requires
        fleet.well_formed(),
    ensures
        fleet.rename_rule(id, checked, same) matches Ok((now, _)) ==> now.well_formed(),
        fleet.set_rule_enabled(id, enabled) matches Ok((now, _)) ==> now.well_formed(),
        fleet.set_rule_sources(id, sources) matches Ok((now, _)) ==> now.well_formed(),
        fleet.set_rule_destinations(id, destinations) matches Ok((now, _)) ==> now.well_formed(),
        fleet.set_rule_classes(id, classes) matches Ok((now, _)) ==> now.well_formed(),
{
    rule_found(fleet.rules, id);
    checked_classes_hold(fleet, classes);
    if rule_at(fleet.rules, id) is Some {
        let at = rule_at(fleet.rules, id)->0;
        let kept = fleet.rules[at].classes;
        assert(kept.len() > 0 && kept.no_duplicates() && all_known(fleet.classes, kept));
        if let Ok((now, _)) = fleet.rename_rule(id, checked, same) {
            rule_update_keeps(fleet, now, at);
        }
        if let Ok((now, _)) = fleet.set_rule_enabled(id, enabled) {
            rule_update_keeps(fleet, now, at);
        }
        if let Ok((now, _)) = fleet.set_rule_sources(id, sources) {
            rule_update_keeps(fleet, now, at);
        }
        if let Ok((now, _)) = fleet.set_rule_destinations(id, destinations) {
            rule_update_keeps(fleet, now, at);
        }
        if let Ok((now, _)) = fleet.set_rule_classes(id, classes) {
            rule_update_keeps(fleet, now, at);
        }
    }
}

/// A rule has an id.
pub open spec fn has_rule(rules: Seq<RuleView>, id: TruckingRuleId) -> bool {
    exists|c: int| 0 <= c < rules.len() && (#[trigger] rules[c]).id == id
}

proof fn has_one_more_rule(rules: Seq<RuleView>, rule: RuleView)
    ensures
        forall|other: TruckingRuleId|
            #[trigger] has_rule(rules.push(rule), other) <==> has_rule(rules, other) || other == rule.id,
{
    let more = rules.push(rule);
    assert forall|other: TruckingRuleId| #[trigger] has_rule(more, other) <==> has_rule(rules, other) || other
        == rule.id by {
        if has_rule(rules, other) {
            let c = choose|c: int| 0 <= c < rules.len() && (#[trigger] rules[c]).id == other;
            assert(more[c].id == other);
        }
        assert(more[rules.len() as int] == rule);
        if has_rule(more, other) {
            let c = choose|c: int| 0 <= c < more.len() && (#[trigger] more[c]).id == other;
            if c < rules.len() {
                assert(rules[c].id == other);
            }
        }
    }
}

proof fn kept_rules<N: Scalar>(fleet: FleetView<N>, id: TruckingRuleId, n: nat)
    requires
        n <= fleet.rules.len(),
        fleet.rules_stand(),
    ensures
        ({
            let kept = flat(n, rule_keeper(fleet.rules, id));
            &&& forall|other: TruckingRuleId|
                #[trigger] has_rule(kept, other) <==> other != id && has_rule(fleet.rules.take(n as int), other)
            &&& (FleetView { rules: kept, ..fleet }).rules_stand()
        }),
    decreases n,
{
    let kept = flat(n, rule_keeper(fleet.rules, id));
    if n > 0 {
        kept_rules(fleet, id, (n - 1) as nat);
        let before = flat((n - 1) as nat, rule_keeper(fleet.rules, id));
        let fewer = fleet.rules.take(n - 1);
        let last = fleet.rules[n - 1];
        let earlier = FleetView { rules: before, ..fleet };
        assert(fleet.rules.take(n as int) =~= fewer.push(last));
        has_one_more_rule(fewer, last);
        if last.id != id {
            assert(kept =~= before.push(last));
            has_one_more_rule(before, last);
            assert forall|i: int| 0 <= i < before.len() implies (#[trigger] before[i]).id != last.id by {
                assert(has_rule(before, before[i].id));
                assert(has_rule(fewer, before[i].id));
                let c = choose|c: int| 0 <= c < fewer.len() && (#[trigger] fewer[c]).id == before[i].id;
                assert(fleet.rules[c].id != fleet.rules[n - 1].id);
            }
            assert forall|i: int, j: int| 0 <= i < j < kept.len() implies (#[trigger] kept[i]).id != (
            #[trigger] kept[j]).id by {
                assert(kept[i] == before[i]);
                if j < before.len() {
                    assert(kept[j] == before[j]);
                    assert(earlier.rules[i].id != earlier.rules[j].id);
                }
            }
            assert forall|i: int| 0 <= i < kept.len() implies (#[trigger] kept[i]).id.0 < fleet.next_rule_id
                && kept[i].classes.len() > 0 && kept[i].classes.no_duplicates() && all_known(
                fleet.classes,
                kept[i].classes,
            ) by {
                if i < before.len() {
                    assert(kept[i] == earlier.rules[i]);
                }
            }
        } else {
            assert(kept =~= before);
        }
    }
}

/// A removed rule is gone, every other rule stays, and everything stands.
pub proof fn remove_rule_keeps<N: Scalar>(fleet: FleetView<N>, id: TruckingRuleId, other: TruckingRuleId)
    requires
        fleet.well_formed(),
    ensures
        fleet.remove_rule(id) matches Ok((now, _)) ==> {
            &&& now.well_formed()
            &&& rule_at(now.rules, id) is None
            &&& other != id ==> (rule_at(now.rules, other) is Some <==> rule_at(fleet.rules, other) is Some)
        },
{
    if let Ok((now, _)) = fleet.remove_rule(id) {
        kept_rules(fleet, id, fleet.rules.len());
        assert(fleet.rules.take(fleet.rules.len() as int) =~= fleet.rules);
        rule_found(now.rules, id);
        rule_found(now.rules, other);
        rule_found(fleet.rules, other);
        assert(!has_rule(now.rules, id));
        assert(has_rule(now.rules, other) <==> other != id && has_rule(fleet.rules, other));
    }
}

proof fn first_none<E>(f: spec_fn(int) -> Option<E>, i: int, n: int)
    ensures
        first_from(i, n, f) is None ==> forall|j: int| i <= j < n ==> (#[trigger] f(j)) is None,
    decreases n - i,
{
    if i < n && f(i) is None {
        first_none(f, i + 1, n);
    }
}

proof fn highest_class_holds<N: Scalar>(classes: Seq<ClassView<N>>, n: nat)
    requires
        n <= classes.len(),
    ensures
        ({
            let most = folded(n, None, class_id_step(classes));
            &&& n > 0 ==> most is Some
            &&& forall|i: int| 0 <= i < n ==> (#[trigger] classes[i]).id.0 <= most->0
        }),
    decreases n,
{
    if n > 0 {
        highest_class_holds(classes, (n - 1) as nat);
    }
}

proof fn highest_rule_holds(rules: Seq<RuleView>, n: nat)
    requires
        n <= rules.len(),
    ensures
        ({
            let most = folded(n, None, rule_id_step(rules));
            &&& n > 0 ==> most is Some
            &&& forall|i: int| 0 <= i < n ==> (#[trigger] rules[i]).id.0 <= most->0
        }),
    decreases n,
{
    if n > 0 {
        highest_rule_holds(rules, (n - 1) as nat);
    }
}

/// A fleet that was read and found without fault stands once its counters are
/// past every id it holds.
pub proof fn loaded_stands<N: Scalar>(
    fleet: FleetView<N>,
    class_names: Seq<LoadedName>,
    rule_names: Seq<LoadedName>,
    class: u64,
    rule: u64,
)
    requires
        fleet.fault(class_names, rule_names) is None,
        raised_past(fleet.next_class_id, fleet.highest_class()) == Some(class),
        raised_past(fleet.next_rule_id, fleet.highest_rule()) == Some(rule),
    ensures
        (FleetView { next_class_id: class, next_rule_id: rule, ..fleet }).well_formed(),
{
    let now = FleetView { next_class_id: class, next_rule_id: rule, ..fleet };
    let f = class_fault(fleet.classes, class_names);
    let g = rule_fault(fleet.classes, fleet.rules, rule_names);
    first_none(f, 0, fleet.classes.len() as int);
    first_none(g, 0, fleet.rules.len() as int);
    highest_class_holds(fleet.classes, fleet.classes.len());
    highest_rule_holds(fleet.rules, fleet.rules.len());
    assert forall|i: int, j: int| 0 <= i < j < now.classes.len() implies (#[trigger] now.classes[i]).id != (
    #[trigger] now.classes[j]).id by {
        assert(f(j) is None);
    }
    assert forall|i: int, j: int| 0 <= i < j < now.rules.len() implies (#[trigger] now.rules[i]).id != (
    #[trigger] now.rules[j]).id by {
        assert(g(j) is None);
    }
    assert forall|i: int| 0 <= i < now.rules.len() implies {
        let kept = (#[trigger] now.rules[i]).classes;
        kept.len() > 0 && kept.no_duplicates() && all_known(now.classes, kept)
    } by {
        assert(g(i) is None);
        let kept = fleet.rules[i].classes;
        let h = mention_fault(fleet.classes, kept);
        first_none(h, 0, kept.len() as int);
        assert forall|a: int, b: int| 0 <= a < kept.len() && 0 <= b < kept.len() && a != b implies kept[a]
            != kept[b] by {
            if a < b {
                assert(h(b) is None);
            } else {
                assert(h(a) is None);
            }
        }
        assert forall|k: int| 0 <= k < kept.len() implies class_at(now.classes, #[trigger] kept[k]) is Some by {
            assert(h(k) is None);
        }
    }
}

} // verus!
