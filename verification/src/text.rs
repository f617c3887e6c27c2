//! Writing whole numbers out in decimal.
use vstd::prelude::*;

verus! {

/// The character of a digit.
pub open spec fn digit(d: nat) -> Seq<char> {
    if d == 0 {
        "0"@
    } else if d == 1 {
        "1"@
    } else if d == 2 {
        "2"@
    } else if d == 3 {
        "3"@
    } else if d == 4 {
        "4"@
    } else if d == 5 {
        "5"@
    } else if d == 6 {
        "6"@
    } else if d == 7 {
        "7"@
    } else if d == 8 {
        "8"@
    } else {
        "9"@
    }
}

/// A number in decimal, without leading zeros.
pub open spec fn decimal_digits(n: nat) -> Seq<char>
    decreases n,
{
    if n < 10 {
        digit(n)
    } else {
        decimal_digits(n / 10) + digit(n % 10)
    }
}

/// The last `places` digits of a number, with leading zeros.
pub open spec fn padded_digits(n: nat, places: nat) -> Seq<char>
    decreases places,
{
    if places == 0 {
        ""@
    } else {
        padded_digits(n / 10, (places - 1) as nat) + digit(n % 10)
    }
}

fn digit_text(d: u64) -> (r: &'static str)
    ensures
        r@ == digit(d as nat),
{
    if d == 0 {
        "0"
    } else if d == 1 {
        "1"
    } else if d == 2 {
        "2"
    } else if d == 3 {
        "3"
    } else if d == 4 {
        "4"
    } else if d == 5 {
        "5"
    } else if d == 6 {
        "6"
    } else if d == 7 {
        "7"
    } else if d == 8 {
        "8"
    } else {
        "9"
    }
}

/// Writes a number in decimal.
pub fn decimal_text(n: u64) -> (r: String)
    ensures
        r@ == decimal_digits(n as nat),
    decreases n,
{
    if n < 10 {
        String::from_str(digit_text(n))
    } else {
        let mut out = decimal_text(n / 10);
        out.append(digit_text(n % 10));
        out
    }
}

/// Appends the last `places` digits of a number.
pub fn append_padded(out: &mut String, n: u64, places: u32)
    ensures
        final(out)@ == old(out)@ + padded_digits(n as nat, places as nat),
    decreases places,
{
    if places == 0 {
        proof {
            reveal_strlit("");
        }
        assert(out@ + ""@ =~= out@);
    } else {
        append_padded(out, n / 10, places - 1);
        out.append(digit_text(n % 10));
        assert(old(out)@ + padded_digits((n / 10) as nat, (places - 1) as nat) + digit((n % 10) as nat) =~= old(out)@
            + (padded_digits((n / 10) as nat, (places - 1) as nat) + digit((n % 10) as nat)));
    }
}

} // verus!
