//! Trusted interface to `num_bigint::BigUint`, the arbitrary-precision
//! integers that rule numbers are carried in.
//!
//! A `BigUint` is opaque to the verifier; `big_value` names the natural
//! number it holds, and each wrapper below states, in terms of that name,
//! what the one `num_bigint` operation it calls does.

use crate::digits::char_digit;
use vstd::prelude::*;

verus! {

#[verifier::external_type_specification]
#[verifier::external_body]
pub struct ExBigUint(num_bigint::BigUint);

/// The natural number that a `BigUint` holds.
pub uninterp spec fn big_value(x: num_bigint::BigUint) -> nat;

/// A leading `+` is dropped from a numeric literal, unless another `+`
/// follows it.
pub open spec fn strip_plus(s: Seq<char>) -> Seq<char> {
    if s.len() > 0 && s[0] == '+' && !(s.len() > 1 && s[1] == '+') {
        s.subrange(1, s.len() as int)
    } else {
        s
    }
}

/// A numeric literal (after `+`-stripping) is accepted when it is non-empty,
/// does not open with a separator, and holds only `_` separators and digits
/// below the radix.
pub open spec fn lit_valid(s: Seq<char>, radix: nat) -> bool {
    &&& s.len() > 0
    &&& s[0] != '_'
    &&& forall|i: int| 0 <= i < s.len() ==> s[i] == '_' || char_digit(s[i]) < radix
}

/// The value of a numeric literal read most-significant digit first,
/// skipping `_` separators.
pub open spec fn lit_value(s: Seq<char>, radix: nat) -> nat
    decreases s.len(),
{
    if s.len() == 0 {
        0
    } else if s.last() == '_' {
        lit_value(s.drop_last(), radix)
    } else {
        lit_value(s.drop_last(), radix) * radix + char_digit(s.last())
    }
}

/// Relies on `num_bigint::BigUint::parse_bytes` (through
/// `BigUint::from_str_radix`): parses an optionally `+`-prefixed literal of
/// digits `0-9a-zA-Z` below the radix, with embedded `_` separators allowed,
/// and returns `None` on any other input.
#[verifier::external_body]
pub(crate) fn parse_big(s: &str, radix: u32) -> (r: Option<num_bigint::BigUint>)
    requires
        2 <= radix <= 36,
    ensures
        match r {
            Some(n) => lit_valid(strip_plus(s@), radix as nat) && big_value(n) == lit_value(
                strip_plus(s@),
                radix as nat,
            ),
            None => !lit_valid(strip_plus(s@), radix as nat),
        },
{
    num_bigint::BigUint::parse_bytes(s.as_bytes(), radix)
}

/// Relies on `Clone` for `BigUint`: an equal copy.
pub assume_specification[ <num_bigint::BigUint as Clone>::clone ](x: &num_bigint::BigUint) -> (r:
    num_bigint::BigUint)
    ensures
        big_value(r) == big_value(*x),
;

/// Relies on `Rem<u32>` for `&BigUint`: the remainder of division by a
/// non-zero small modulus.
#[verifier::external_body]
pub(crate) fn big_rem(x: &num_bigint::BigUint, m: u32) -> (r: num_bigint::BigUint)
    requires
        m >= 1,
    ensures
        big_value(r) == big_value(*x) % (m as nat),
{
    x % m
}

/// Relies on `Div<u32>` for `&BigUint`: the quotient of division by a
/// non-zero small divisor.
#[verifier::external_body]
pub(crate) fn big_div(x: &num_bigint::BigUint, m: u32) -> (r: num_bigint::BigUint)
    requires
        m >= 1,
    ensures
        big_value(r) == big_value(*x) / (m as nat),
{
    x / m
}

/// Relies on `num_traits::Zero::is_zero` for `BigUint`: whether the value
/// is zero.
#[verifier::external_body]
pub(crate) fn big_is_zero(x: &num_bigint::BigUint) -> (r: bool)
    ensures
        r == (big_value(*x) == 0),
{
    num_traits::Zero::is_zero(x)
}

/// Relies on `num_traits::ToPrimitive::to_u8` for `BigUint`: the value as a
/// byte when it fits, `None` otherwise.
#[verifier::external_body]
pub(crate) fn big_to_u8(x: &num_bigint::BigUint) -> (r: Option<u8>)
    ensures
        match r {
            Some(v) => v as nat == big_value(*x),
            None => big_value(*x) > 255,
        },
{
    num_traits::ToPrimitive::to_u8(x)
}

} // verus!
