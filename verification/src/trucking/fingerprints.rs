//! That what goes into a fingerprint tells calendars, classes and rules apart.
use vstd::prelude::*;

use crate::listing::flat;
use crate::scalar::Scalar;
use crate::trucking::calendar::CalendarView;
use crate::trucking::fleet::ClassView;
use crate::trucking::rules::{Hashed, RuleView, Selected};
use crate::trucking::transport::share_bits;

verus! {

/// Parts of four items, one after another.
proof fn fours_in_line<A>(n: nat, f: spec_fn(int) -> Seq<A>)
    requires
        forall|i: int| 0 <= i < n ==> (#[trigger] f(i)).len() == 4,
    ensures
        flat(n, f).len() == n * 4,
        forall|i: int|
            #![trigger f(i)]
            0 <= i < n ==> {
                &&& flat(n, f)[i * 4] == f(i)[0]
                &&& flat(n, f)[i * 4 + 1] == f(i)[1]
                &&& flat(n, f)[i * 4 + 2] == f(i)[2]
                &&& flat(n, f)[i * 4 + 3] == f(i)[3]
            },
    decreases n,
{
    if n > 0 {
        let m = (n - 1) as nat;
        fours_in_line(m, f);
        let (before, all) = (flat(m, f), flat(n, f));
        assert(all == before + f(m as int));
        assert forall|i: int|
            #![trigger f(i)]
            0 <= i < n implies {
            &&& all[i * 4] == f(i)[0]
            &&& all[i * 4 + 1] == f(i)[1]
            &&& all[i * 4 + 2] == f(i)[2]
            &&& all[i * 4 + 3] == f(i)[3]
        } by {
            if i < m {
                assert(before[i * 4] == f(i)[0]);
            }
        }
    }
}

/// The bits of two settings are the same, or neither is set.
pub open spec fn same_bits<N: Scalar>(a: Option<N>, b: Option<N>) -> bool {
    match (a, b) {
        (Some(x), Some(y)) => x.bits() == y.bits(),
        (None, None) => true,
        _ => false,
    }
}

/// Calendars with the same fingerprint have the same defaults, and set the same
/// in the same periods.
pub proof fn calendars_are_told_apart<N: Scalar>(a: CalendarView<N>, b: CalendarView<N>)
    requires
        a.items() == b.items(),
    ensures
        a.default_units == b.default_units,
        a.default_availability.bits() == b.default_availability.bits(),
        a.default_utilisation.bits() == b.default_utilisation.bits(),
        a.periods.len() == b.periods.len(),
        forall|i: int|
            0 <= i < a.periods.len() ==> {
                let (x, y) = (#[trigger] a.periods[i], b.periods[i]);
                &&& x.0 == y.0
                &&& x.1.units == y.1.units
                &&& same_bits(x.1.availability, y.1.availability)
                &&& same_bits(x.1.utilisation, y.1.utilisation)
            },
{
    let (f, g) = (a.period_items(), b.period_items());
    let (n, m) = (a.periods.len(), b.periods.len());
    fours_in_line(n, f);
    fours_in_line(m, g);
    assert(a.items()[0] == Hashed::Count(a.default_units) && b.items()[0] == Hashed::Count(b.default_units));
    assert(a.items()[1] == Hashed::Number(a.default_availability.bits()));
    assert(b.items()[1] == Hashed::Number(b.default_availability.bits()));
    assert(a.items()[2] == Hashed::Number(a.default_utilisation.bits()));
    assert(b.items()[2] == Hashed::Number(b.default_utilisation.bits()));
    assert(a.items().len() == 3 + n * 4 && b.items().len() == 3 + m * 4);
    assert(n == m);
    let (x, y) = (flat(n, f), flat(m, g));
    assert forall|k: int| 0 <= k < x.len() implies #[trigger] x[k] == y[k] by {
        assert(a.items()[3 + k] == x[k] && b.items()[3 + k] == y[k]);
    }
    assert forall|i: int| 0 <= i < n implies {
        let (s, t) = (#[trigger] a.periods[i], b.periods[i]);
        &&& s.0 == t.0
        &&& s.1.units == t.1.units
        &&& same_bits(s.1.availability, t.1.availability)
        &&& same_bits(s.1.utilisation, t.1.utilisation)
    } by {
        assert(f(i)[0] == g(i)[0]) by {
            assert(x[i * 4] == y[i * 4]);
        }
        assert(f(i)[1] == g(i)[1]) by {
            assert(x[i * 4 + 1] == y[i * 4 + 1]);
        }
        assert(f(i)[2] == g(i)[2]) by {
            assert(x[i * 4 + 2] == y[i * 4 + 2]);
        }
        assert(f(i)[3] == g(i)[3]) by {
            assert(x[i * 4 + 3] == y[i * 4 + 3]);
        }
        let (s, t) = (a.periods[i].1, b.periods[i].1);
        assert(f(i)[2] == Hashed::MaybeNumber(share_bits(s.availability)));
        assert(g(i)[2] == Hashed::MaybeNumber(share_bits(t.availability)));
        assert(f(i)[3] == Hashed::MaybeNumber(share_bits(s.utilisation)));
        assert(g(i)[3] == Hashed::MaybeNumber(share_bits(t.utilisation)));
    }
}

/// Classes with the same fingerprint have the same id, name, payload, speeds and
/// calendar.
pub proof fn classes_are_told_apart<N: Scalar>(a: ClassView<N>, b: ClassView<N>)
    requires
        a.items() == b.items(),
    ensures
        a.id == b.id,
        a.name == b.name,
        a.payload_t.bits() == b.payload_t.bits(),
        a.loaded_speed_kph.bits() == b.loaded_speed_kph.bits(),
        a.unloaded_speed_kph.bits() == b.unloaded_speed_kph.bits(),
        a.calendar.items() == b.calendar.items(),
{
    let (x, y) = (a.items(), b.items());
    assert(x[0] == y[0] && x[1] == y[1] && x[2] == y[2] && x[3] == y[3] && x[4] == y[4]);
    assert(x.skip(5) =~= a.calendar.items());
    assert(y.skip(5) =~= b.calendar.items());
}

/// Rules with the same fingerprint have the same id and name, are enabled or not
/// alike, select the same loaders and name the same classes.
pub proof fn rules_are_told_apart(a: RuleView, b: RuleView)
    requires
        a.items() == b.items(),
    ensures
        a.id == b.id,
        a.enabled == b.enabled,
        a.name == b.name,
        a.loaders is All <==> b.loaders is All,
        match (a.loaders, b.loaders) {
            (Selected::Only(x), Selected::Only(y)) => x == y,
            _ => true,
        },
        a.classes == b.classes,
{
    let (x, y) = (a.items(), b.items());
    assert(x[0] == y[0] && x[1] == y[1] && x[2] == y[2] && x[3] == y[3] && x[4] == y[4]);
    assert(x[3] == a.loader_items()[0]);
    assert(y[3] == b.loader_items()[0]);
    let (p, q) = (
        Seq::new(a.classes.len(), |i: int| a.classes[i].0),
        Seq::new(b.classes.len(), |i: int| b.classes[i].0),
    );
    assert(x.last() == Hashed::Numbers(p));
    assert(y.last() == Hashed::Numbers(q));
    assert(p == q);
    assert(p.len() == a.classes.len() && q.len() == b.classes.len());
    assert forall|i: int| 0 <= i < a.classes.len() implies a.classes[i] == b.classes[i] by {
        assert(p[i] == q[i]);
    }
    assert(a.classes =~= b.classes);
    if let (Selected::Only(s), Selected::Only(t)) = (a.loaders, b.loaders) {
        let (u, v) = (Seq::new(s.len(), |i: int| s[i].0), Seq::new(t.len(), |i: int| t[i].0));
        assert(x[4] == Hashed::Numbers(u));
        assert(y[4] == Hashed::Numbers(v));
        assert(u == v);
        assert(u.len() == s.len() && v.len() == t.len());
        assert forall|i: int| 0 <= i < s.len() implies s[i] == t[i] by {
            assert(u[i] == v[i]);
        }
        assert(s =~= t);
    }
}

} // verus!
