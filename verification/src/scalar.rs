//! The numbers that quantities are measured in.
//!
//! Every rule of this library is written over [`Scalar`], a number with named
//! operations, so that one rule serves any representation of tonnes, hours,
//! grades and money. Contracts speak of the operations by name and do not rest
//! on any law of arithmetic beyond the order laws that the trait itself states.
//! [`Fixed`] is the representation this library brings: exact billionths.
use vstd::prelude::*;

use crate::text::{append_padded, decimal_digits, decimal_text, padded_digits};

verus! {

/// A number with the operations that schedules are computed with.
///
/// The executable methods return what the spec function beside them names. A
/// value that is not [`Scalar::number`] compares with nothing.
pub trait Scalar: Copy + Sized {
    /// The number of a whole count.
    spec fn of_whole(count: u64) -> Self;

    /// The number written as `digits` with `places` decimal places.
    spec fn of_decimal(digits: u64, places: u32) -> Self;

    /// The upper end of the range.
    spec fn of_infinity() -> Self;

    spec fn plus(self, other: Self) -> Self;

    spec fn minus(self, other: Self) -> Self;

    spec fn times(self, other: Self) -> Self;

    spec fn over(self, other: Self) -> Self;

    spec fn opposite(self) -> Self;

    spec fn magnitude(self) -> Self;

    /// The larger of the two.
    spec fn upper(self, other: Self) -> Self;

    /// The smaller of the two.
    spec fn lower(self, other: Self) -> Self;

    /// Strictly smaller.
    spec fn below(self, other: Self) -> bool;

    /// Smaller or the same.
    spec fn at_most(self, other: Self) -> bool;

    /// Neither smaller nor larger.
    spec fn same(self, other: Self) -> bool;

    spec fn finite(self) -> bool;

    /// Whether the value takes part in comparison at all.
    spec fn number(self) -> bool;

    /// The total order that sorting goes by.
    spec fn precedes(self, other: Self) -> bool;

    /// The largest whole number not above the value, held to the range.
    spec fn floored(self) -> u32;

    /// The smallest whole number not below the value, held to the range.
    spec fn raised(self) -> u64;

    /// The nearest whole number, halves away from zero, held to the range.
    spec fn nearest(self) -> i64;

    /// The bits the value is stored in.
    spec fn bits(self) -> u64;

    fn whole(count: u64) -> (r: Self)
        ensures
            r == Self::of_whole(count),
    ;

    fn decimal(digits: u64, places: u32) -> (r: Self)
        ensures
            r == Self::of_decimal(digits, places),
    ;

    fn infinity() -> (r: Self)
        ensures
            r == Self::of_infinity(),
    ;

    fn add(self, other: Self) -> (r: Self)
        ensures
            r == self.plus(other),
    ;

    fn sub(self, other: Self) -> (r: Self)
        ensures
            r == self.minus(other),
    ;

    fn mul(self, other: Self) -> (r: Self)
        ensures
            r == self.times(other),
    ;

    fn div(self, other: Self) -> (r: Self)
        ensures
            r == self.over(other),
    ;

    fn neg(self) -> (r: Self)
        ensures
            r == self.opposite(),
    ;

    fn abs(self) -> (r: Self)
        ensures
            r == self.magnitude(),
    ;

    fn larger(self, other: Self) -> (r: Self)
        ensures
            r == self.upper(other),
    ;

    fn smaller(self, other: Self) -> (r: Self)
        ensures
            r == self.lower(other),
    ;

    fn is_below(self, other: Self) -> (r: bool)
        ensures
            r == self.below(other),
    ;

    fn is_at_most(self, other: Self) -> (r: bool)
        ensures
            r == self.at_most(other),
    ;

    fn is_same(self, other: Self) -> (r: bool)
        ensures
            r == self.same(other),
    ;

    fn is_finite(self) -> (r: bool)
        ensures
            r == self.finite(),
    ;

    fn comes_before(self, other: Self) -> (r: bool)
        ensures
            r == self.precedes(other),
    ;

    fn floor(self) -> (r: u32)
        ensures
            r == self.floored(),
    ;

    fn ceil(self) -> (r: u64)
        ensures
            r == self.raised(),
    ;

    fn round(self) -> (r: i64)
        ensures
            r == self.nearest(),
    ;

    fn to_bits(self) -> (r: u64)
        ensures
            r == self.bits(),
    ;

    /// Numbers are totally ordered by comparison, and finite values are numbers.
    proof fn comparison_laws(a: Self, b: Self, c: Self)
        ensures
            a.finite() ==> a.number(),
            a.number() ==> a.at_most(a),
            a.number() && b.number() ==> a.at_most(b) || b.at_most(a),
            a.number() && b.number() ==> (a.below(b) <==> !b.at_most(a)),
            a.number() && b.number() ==> (a.same(b) <==> a.at_most(b) && b.at_most(a)),
            a.number() && b.number() && c.number() && a.at_most(b) && b.at_most(c) ==> a.at_most(c),
            Self::of_whole(0).finite(),
            a.below(b) ==> a.number() && b.number(),
            a.at_most(b) ==> a.number() && b.number(),
            a.number() && b.number() ==> {
                &&& a.upper(b) == a || a.upper(b) == b
                &&& a.at_most(a.upper(b)) && b.at_most(a.upper(b))
            },
    ;

    /// The order that sorting goes by is a total order on all values.
    proof fn sorting_laws(a: Self, b: Self, c: Self)
        ensures
            a.precedes(a),
            a.precedes(b) || b.precedes(a),
            a.precedes(b) && b.precedes(a) ==> a == b,
            a.precedes(b) && b.precedes(c) ==> a.precedes(c),
    ;
}

/// A number that can be written out.
pub trait Shown: Scalar {
    /// The value written out.
    spec fn shown(self) -> Seq<char>;

    fn text(self) -> (r: String)
        ensures
            r@ == self.shown(),
    ;
}

/// How many steps of [`Fixed`] make one.
pub const STEPS: i64 = 1_000_000_000;

/// An exact number of billionths. Results outside the range stop at its ends,
/// which stand for the infinities; dividing zero by zero gives zero.
#[derive(Clone, Copy, Debug, PartialEq, Eq, Structural)]
pub struct Fixed(pub i64);

/// `v` held to the range of an `i64`.
pub open spec fn held(v: int) -> i64 {
    if v > i64::MAX {
        i64::MAX
    } else if v < i64::MIN {
        i64::MIN
    } else {
        v as i64
    }
}

/// The size of `v`.
pub open spec fn size(v: int) -> int {
    if v < 0 {
        -v
    } else {
        v
    }
}

/// `p / q` rounded toward zero.
pub open spec fn quotient(p: int, q: int) -> int {
    if (p < 0) == (q < 0) {
        size(p) / size(q)
    } else {
        -(size(p) / size(q))
    }
}

/// `v` divided by ten, rounded down, `places` times over.
pub open spec fn shrunk(v: nat, places: nat) -> nat
    decreases places,
{
    if places == 0 {
        v
    } else {
        shrunk(v / 10, (places - 1) as nat)
    }
}

fn hold(v: i128) -> (r: i64)
    ensures
        r == held(v as int),
{
    if v > i64::MAX as i128 {
        i64::MAX
    } else if v < i64::MIN as i128 {
        i64::MIN
    } else {
        v as i64
    }
}

fn size_of_value(v: i128) -> (r: u128)
    requires
        v > i128::MIN,
    ensures
        r == size(v as int),
{
    if v < 0 {
        (-v) as u128
    } else {
        v as u128
    }
}

fn quotient_of(p: i128, q: i128) -> (r: i128)
    requires
        -0x4000_0000_0000_0000_0000_0000_0000_0000 <= p <= 0x4000_0000_0000_0000_0000_0000_0000_0000,
        q > i128::MIN,
        q != 0,
    ensures
        r == quotient(p as int, q as int),
{
    let a: u128 = size_of_value(p);
    let b: u128 = size_of_value(q);
    let c: u128 = a / b;
    proof {
        assert(c <= a) by (nonlinear_arith)
            requires
                c == a / b,
                b > 0,
        ;
    }
    if (p < 0) == (q < 0) {
        c as i128
    } else {
        -(c as i128)
    }
}

impl Scalar for Fixed {
    open spec fn of_whole(count: u64) -> Self {
        Fixed(held(count * STEPS))
    }

    open spec fn of_decimal(digits: u64, places: u32) -> Self {
        Fixed(held(shrunk((digits * STEPS) as nat, places as nat) as int))
    }

    open spec fn of_infinity() -> Self {
        Fixed(i64::MAX)
    }

    open spec fn plus(self, other: Self) -> Self {
        Fixed(held(self.0 + other.0))
    }

    open spec fn minus(self, other: Self) -> Self {
        Fixed(held(self.0 - other.0))
    }

    open spec fn times(self, other: Self) -> Self {
        Fixed(held(quotient(self.0 * other.0, STEPS as int)))
    }

    open spec fn over(self, other: Self) -> Self {
        if other.0 != 0 {
            Fixed(held(quotient(self.0 * STEPS, other.0 as int)))
        } else if self.0 > 0 {
            Fixed(i64::MAX)
        } else if self.0 < 0 {
            Fixed(i64::MIN)
        } else {
            Fixed(0)
        }
    }

    open spec fn opposite(self) -> Self {
        Fixed(held(-self.0))
    }

    open spec fn magnitude(self) -> Self {
        Fixed(held(size(self.0 as int)))
    }

    open spec fn upper(self, other: Self) -> Self {
        if self.0 < other.0 {
            other
        } else {
            self
        }
    }

    open spec fn lower(self, other: Self) -> Self {
        if other.0 < self.0 {
            other
        } else {
            self
        }
    }

    open spec fn below(self, other: Self) -> bool {
        self.0 < other.0
    }

    open spec fn at_most(self, other: Self) -> bool {
        self.0 <= other.0
    }

    open spec fn same(self, other: Self) -> bool {
        self.0 == other.0
    }

    open spec fn finite(self) -> bool {
        i64::MIN < self.0 < i64::MAX
    }

    open spec fn number(self) -> bool {
        true
    }

    open spec fn precedes(self, other: Self) -> bool {
        self.0 <= other.0
    }

    open spec fn floored(self) -> u32 {
        if self.0 < 0 {
            0
        } else if self.0 as int / STEPS as int > u32::MAX {
            u32::MAX
        } else {
            (self.0 as int / STEPS as int) as u32
        }
    }

    open spec fn raised(self) -> u64 {
        if self.0 <= 0 {
            0
        } else {
            ((self.0 + STEPS - 1) / STEPS as int) as u64
        }
    }

    open spec fn nearest(self) -> i64 {
        let up = (size(self.0 as int) + STEPS as int / 2) / STEPS as int;
        if self.0 < 0 {
            (-up) as i64
        } else {
            up as i64
        }
    }

    open spec fn bits(self) -> u64 {
        self.0 as u64
    }

    fn whole(count: u64) -> (r: Self) {
        Fixed(hold(count as i128 * STEPS as i128))
    }

    fn decimal(digits: u64, places: u32) -> (r: Self) {
        let mut value: u128 = digits as u128 * 1_000_000_000;
        let mut left: u32 = places;
        while left > 0
            invariant
                value <= 0xffff_ffff_ffff_ffff * 1_000_000_000,
                shrunk(value as nat, left as nat) == shrunk((digits * STEPS) as nat, places as nat),
            decreases left,
        {
            value = value / 10;
            left = left - 1;
        }
        Fixed(hold(value as i128))
    }

    fn infinity() -> (r: Self) {
        Fixed(i64::MAX)
    }

    fn add(self, other: Self) -> (r: Self) {
        Fixed(hold(self.0 as i128 + other.0 as i128))
    }

    fn sub(self, other: Self) -> (r: Self) {
        Fixed(hold(self.0 as i128 - other.0 as i128))
    }

    fn mul(self, other: Self) -> (r: Self) {
        let a: i128 = self.0 as i128;
        let b: i128 = other.0 as i128;
        proof {
            assert(-0x4000_0000_0000_0000_0000_0000_0000_0000 <= a * b <= 0x4000_0000_0000_0000_0000_0000_0000_0000) by (nonlinear_arith)
                requires
                    -0x8000_0000_0000_0000 <= a <= 0x7fff_ffff_ffff_ffff,
                    -0x8000_0000_0000_0000 <= b <= 0x7fff_ffff_ffff_ffff,
            ;
        }
        Fixed(hold(quotient_of(a * b, STEPS as i128)))
    }

    fn div(self, other: Self) -> (r: Self) {
        if other.0 != 0 {
            Fixed(hold(quotient_of(self.0 as i128 * STEPS as i128, other.0 as i128)))
        } else if self.0 > 0 {
            Fixed(i64::MAX)
        } else if self.0 < 0 {
            Fixed(i64::MIN)
        } else {
            Fixed(0)
        }
    }

    fn neg(self) -> (r: Self) {
        Fixed(hold(-(self.0 as i128)))
    }

    fn abs(self) -> (r: Self) {
        Fixed(hold(size_of_value(self.0 as i128) as i128))
    }

    fn larger(self, other: Self) -> (r: Self) {
        if self.0 < other.0 {
            other
        } else {
            self
        }
    }

    fn smaller(self, other: Self) -> (r: Self) {
        if other.0 < self.0 {
            other
        } else {
            self
        }
    }

    fn is_below(self, other: Self) -> (r: bool) {
        self.0 < other.0
    }

    fn is_at_most(self, other: Self) -> (r: bool) {
        self.0 <= other.0
    }

    fn is_same(self, other: Self) -> (r: bool) {
        self.0 == other.0
    }

    fn is_finite(self) -> (r: bool) {
        i64::MIN < self.0 && self.0 < i64::MAX
    }

    fn comes_before(self, other: Self) -> (r: bool) {
        self.0 <= other.0
    }

    fn floor(self) -> (r: u32) {
        if self.0 < 0 {
            0
        } else {
            let down: u64 = self.0 as u64 / STEPS as u64;
            if down > u32::MAX as u64 {
                u32::MAX
            } else {
                down as u32
            }
        }
    }

    fn ceil(self) -> (r: u64) {
        if self.0 <= 0 {
            0
        } else {
            (self.0 as u64 + (STEPS as u64 - 1)) / STEPS as u64
        }
    }

    fn round(self) -> (r: i64) {
        let up: u128 = (size_of_value(self.0 as i128) + STEPS as u128 / 2) / STEPS as u128;
        if self.0 < 0 {
            -(up as i64)
        } else {
            up as i64
        }
    }

    fn to_bits(self) -> (r: u64) {
        self.0 as u64
    }

    proof fn comparison_laws(a: Self, b: Self, c: Self) {
    }

    proof fn sorting_laws(a: Self, b: Self, c: Self) {
    }
}

impl Shown for Fixed {
    /// A sign where there is one, the whole part, and nine places where the
    /// value is not whole.
    open spec fn shown(self) -> Seq<char> {
        let whole = (size(self.0 as int) / STEPS as int) as nat;
        let part = (size(self.0 as int) % STEPS as int) as nat;
        let sign = if self.0 < 0 {
            "-"@
        } else {
            ""@
        };
        if part == 0 {
            sign + decimal_digits(whole)
        } else {
            sign + decimal_digits(whole) + "."@ + padded_digits(part, 9)
        }
    }

    fn text(self) -> (r: String) {
        let value: u64 = size_of_value(self.0 as i128) as u64;
        let whole: u64 = value / STEPS as u64;
        let part: u64 = value % STEPS as u64;
        let mut out = String::from_str(if self.0 < 0 {
            "-"
        } else {
            ""
        });
        out.append(decimal_text(whole).as_str());
        if part != 0 {
            out.append(".");
            append_padded(&mut out, part, 9);
        }
        out
    }
}

} // verus!
