use vstd::prelude::*;

verus! {

/// The character of a decimal digit.
pub open spec fn digit_char(d: nat) -> char {
    if d == 0 { '0' }
    else if d == 1 { '1' }
    else if d == 2 { '2' }
    else if d == 3 { '3' }
    else if d == 4 { '4' }
    else if d == 5 { '5' }
    else if d == 6 { '6' }
    else if d == 7 { '7' }
    else if d == 8 { '8' }
    else { '9' }
}

/// The decimal digits of a natural number, most significant first, without leading zeros.
pub open spec fn digits(n: nat) -> Seq<char>
    decreases n,
{
    if n < 10 {
        seq![digit_char(n)]
    } else {
        digits(n / 10).push(digit_char(n % 10))
    }
}

/// An integer written in decimal, with a leading minus sign when negative.
pub open spec fn decimal(x: int) -> Seq<char> {
    if x < 0 {
        seq!['-'] + digits((-x) as nat)
    } else {
        digits(x as nat)
    }
}

/// Relies on `i64`'s `Display` impl (through `ToString::to_string`): the value in
/// decimal, with a minus sign when negative and no leading zeros.
#[verifier::external_body]
pub(crate) fn decimal_text(x: i64) -> (r: String)
    ensures
        r@ == decimal(x as int),
{
    x.to_string()
}

/// Relies on `usize`'s `Display` impl (through `ToString::to_string`): the value in
/// decimal, with no leading zeros.
#[verifier::external_body]
pub(crate) fn count_text(x: usize) -> (r: String)
    ensures
        r@ == decimal(x as int),
{
    x.to_string()
}

} // verus!
