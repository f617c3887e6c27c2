//! What hauling costs, told of distances, speeds and payloads alone.
use vstd::prelude::*;

use crate::error::ScheduleError;
use crate::scalar::{held, quotient, Fixed, Scalar, STEPS};
use crate::trucking::fleet::ClassView;
use crate::trucking::transport::{coefficients_of, cycle_of, tonnes_moved, TransportCoefficients};

verus! {

proof fn parts(a: int, b: int)
    requires
        0 <= a,
        0 < b,
    ensures
        quotient(a, b) == a / b,
        0 <= a / b,
        (a / b) * b <= a < (a / b) * b + b,
{
    vstd::arithmetic::div_mod::lemma_fundamental_div_mod(a, b);
    vstd::arithmetic::div_mod::lemma_mod_bound(a, b);
    vstd::arithmetic::div_mod::lemma_div_pos_is_pos(a, b);
    assert(b * (a / b) == (a / b) * b) by (nonlinear_arith);
}

/// A number is above zero and in range.
pub open spec fn stands(value: Fixed) -> bool {
    0 < value.0 < i64::MAX
}

/// Hauling is refused, the distance first, then the speeds, then the payload,
/// exactly where they are not above zero.
pub proof fn hauls_are_refused(class: ClassView<Fixed>, distance: Fixed)
    ensures
        (coefficients_of(class, distance) == Err::<TransportCoefficients<Fixed>, ScheduleError>(
            ScheduleError::InvalidDistance,
        )) == !stands(distance),
        (coefficients_of(class, distance) == Err::<TransportCoefficients<Fixed>, ScheduleError>(
            ScheduleError::InvalidSpeed,
        )) == (stands(distance) && !(stands(class.loaded_speed_kph) && stands(class.unloaded_speed_kph))),
        (coefficients_of(class, distance) == Err::<TransportCoefficients<Fixed>, ScheduleError>(
            ScheduleError::InvalidPayload,
        )) == (stands(distance) && stands(class.loaded_speed_kph) && stands(class.unloaded_speed_kph) && !stands(
            class.payload_t,
        )),
{
}

/// A cycle takes the distance over the loaded speed and the distance over the
/// unloaded speed, and a tonne takes the cycle over the payload, each to a
/// billionth of an hour; and hauling succeeds wherever a tonne takes at least
/// that and the cycle stays in range.
pub proof fn hauls_cost_their_cycle(class: ClassView<Fixed>, distance: Fixed)
    requires
        stands(distance),
        stands(class.loaded_speed_kph),
        stands(class.unloaded_speed_kph),
        stands(class.payload_t),
        distance.0 * STEPS * (class.loaded_speed_kph.0 + class.unloaded_speed_kph.0) < (i64::MAX)
            * class.loaded_speed_kph.0 * class.unloaded_speed_kph.0,
    ensures
        ({
            let (d, l, u, p) = (
                distance.0 as int,
                class.loaded_speed_kph.0 as int,
                class.unloaded_speed_kph.0 as int,
                class.payload_t.0 as int,
            );
            let cost = coefficients_of(class, distance);
            &&& cost matches Ok(found) ==> {
                let (c, h) = (found.travel_cycle_h.0 as int, found.truck_hours_per_tonne.0 as int);
                &&& c * l * u <= d * STEPS * (l + u) < (c + 2) * l * u
                &&& 0 < h
                &&& h * p <= c * STEPS
                &&& h < i64::MAX ==> c * STEPS < (h + 1) * p
            }
            &&& d * STEPS * (l + u) * STEPS >= (p + 2 * STEPS) * l * u && d * STEPS * (l + u) < p * l * u
                ==> cost is Ok
        }),
{
    let (d, l, u, p) = (
        distance.0 as int,
        class.loaded_speed_kph.0 as int,
        class.unloaded_speed_kph.0 as int,
        class.payload_t.0 as int,
    );
    let s = STEPS as int;
    assert(0 < d * s) by (nonlinear_arith)
        requires
            0 < d,
            s == 1_000_000_000,
    ;
    parts(d * s, l);
    parts(d * s, u);
    let (x, y) = ((d * s) / l, (d * s) / u);
    let m = i64::MAX as int;
    let c = x + y;
    assert(c * l * u <= d * s * (l + u) < (c + 2) * l * u) by (nonlinear_arith)
        requires
            x * l <= d * s < x * l + l,
            y * u <= d * s < y * u + u,
            c == x + y,
            0 < l,
            0 < u,
    ;
    assert(c < m) by (nonlinear_arith)
        requires
            c * l * u <= d * s * (l + u),
            d * s * (l + u) < m * l * u,
            0 < l,
            0 < u,
    ;
    assert(distance.over(class.loaded_speed_kph).0 == x);
    assert(distance.over(class.unloaded_speed_kph).0 == y);
    assert(cycle_of(class, distance).0 == c);
    parts(c * s, p);
    let h = (c * s) / p;
    let hours = cycle_of(class, distance).over(class.payload_t);
    assert(hours.0 == held(h));
    assert(held(h) * p <= c * s) by (nonlinear_arith)
        requires
            held(h) <= h,
            h * p <= c * s,
            0 < p,
    ;
    assert((h + 1) * p == h * p + p) by (nonlinear_arith);
    if d * s * (l + u) * s >= (p + 2 * s) * l * u && d * s * (l + u) < p * l * u {
        assert(c * s >= p) by (nonlinear_arith)
            requires
                d * s * (l + u) * s >= (p + 2 * s) * l * u,
                d * s * (l + u) < (c + 2) * l * u,
                s == 1_000_000_000,
                0 < l,
                0 < u,
        ;
        assert(h >= 1) by (nonlinear_arith)
            requires
                c * s >= p,
                c * s < h * p + p,
                0 < p,
        ;
        assert(c < p) by (nonlinear_arith)
            requires
                c * l * u <= d * s * (l + u),
                d * s * (l + u) < p * l * u,
                0 < l,
                0 < u,
        ;
        assert(h < 1_000_000_000) by (nonlinear_arith)
            requires
                h * p <= c * s,
                c < p,
                0 < p,
                s == 1_000_000_000,
        ;
    }
}

/// So many truck-hours move the tonnes that take so long: the tonnes times the
/// hours that one takes are the hours, to what a billionth of a tonne takes. A
/// tonne that takes no time moves nothing.
pub proof fn hours_move_their_tonnes(hours: Fixed, cost: TransportCoefficients<Fixed>)
    ensures
        cost.truck_hours_per_tonne.0 <= 0 ==> tonnes_moved(hours, cost).0 == 0,
        0 < cost.truck_hours_per_tonne.0 && 0 <= hours.0 ==> {
            let tonnes = tonnes_moved(hours, cost).0 as int;
            &&& 0 <= tonnes
            &&& tonnes * cost.truck_hours_per_tonne.0 <= hours.0 * STEPS
            &&& tonnes < i64::MAX ==> hours.0 * STEPS < (tonnes + 1) * cost.truck_hours_per_tonne.0
        },
{
    if 0 < cost.truck_hours_per_tonne.0 && 0 <= hours.0 {
        let (a, b) = (hours.0 * STEPS, cost.truck_hours_per_tonne.0 as int);
        parts(a, b);
        let q = a / b;
        assert(held(q) * b <= a) by (nonlinear_arith)
            requires
                held(q) <= q,
                q * b <= a,
                0 < b,
        ;
        assert((q + 1) * b == q * b + b) by (nonlinear_arith);
    }
}

} // verus!
