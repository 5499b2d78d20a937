//! Parsing a textual rule specification.
//!
//! A specification is an optional mode marker (`rule=` or `code=`, the
//! former being the default), an optional base marker (`0z`, `0x`, `0o`,
//! `0b`, otherwise decimal), and a numeric literal in that base, parsed
//! into an arbitrary-precision integer.

use crate::bignum::{big_value, lit_valid, lit_value, parse_big, strip_plus};
use crate::text::str_eq;
use vstd::prelude::*;

verus! {

/// A parsed rule specification: the rule number, tagged with the
/// evaluation mode it was given under. `Rule` selects positional
/// neighborhood encoding, `Code` totalistic encoding.
#[derive(Debug, PartialEq, Clone)]
pub enum CAEvalType {
    Rule(num_bigint::BigUint),
    Code(num_bigint::BigUint),
}

/// The mode marker: `code=` selects totalistic evaluation; `rule=`, or no
/// marker at all, positional evaluation.
pub open spec fn spec_strip_mode(s: Seq<char>) -> (bool, Seq<char>) {
    if s.len() >= 5 && s.subrange(0, 5) == "rule="@ {
        (false, s.skip(5))
    } else if s.len() >= 5 && s.subrange(0, 5) == "code="@ {
        (true, s.skip(5))
    } else {
        (false, s)
    }
}

/// The base marker: `0z`, `0x`, `0o` and `0b` select base 36, 16, 8 and 2;
/// any other opening, or a literal of at most two characters, is decimal.
pub open spec fn spec_strip_base(s: Seq<char>) -> (nat, Seq<char>) {
    if s.len() <= 2 {
        (10, s)
    } else if s[0] == '0' && s[1] == 'z' {
        (36, s.skip(2))
    } else if s[0] == '0' && s[1] == 'x' {
        (16, s.skip(2))
    } else if s[0] == '0' && s[1] == 'o' {
        (8, s.skip(2))
    } else if s[0] == '0' && s[1] == 'b' {
        (2, s.skip(2))
    } else {
        (10, s)
    }
}

/// What parsing a rule specification yields: the mode flag (true for
/// totalistic) and the rule number, or nothing when the literal is not a
/// valid numeral in the resolved base.
pub open spec fn spec_parse(s: Seq<char>) -> Option<(bool, nat)> {
    let (code, rest) = spec_strip_mode(s);
    let (radix, numpart) = spec_strip_base(rest);
    let lit = strip_plus(numpart);
    if lit_valid(lit, radix) {
        Some((code, lit_value(lit, radix)))
    } else {
        None
    }
}

impl CAEvalType {
    /// The rule number this specification holds.
    pub open spec fn spec_value(&self) -> nat {
        match self {
            CAEvalType::Rule(n) => big_value(*n),
            CAEvalType::Code(n) => big_value(*n),
        }
    }

    /// Whether the totalistic (code) evaluation mode was selected.
    pub open spec fn spec_is_code(&self) -> bool {
        self is Code
    }

    /// Parses a rule specification, failing exactly on literals that are
    /// not numerals of the resolved base.
    pub fn new(input: &str) -> (r: Result<Self, &'static str>)
        ensures
            match r {
                Ok(v) => spec_parse(input@) == Some((v.spec_is_code(), v.spec_value())),
                Err(_) => spec_parse(input@) is None,
            },
    {
        let mut code = false;
        let n = input.unicode_len();
        let s: &str = if n >= 5 && str_eq(input.substring_char(0, 5), "rule=") {
            input.substring_char(5, n)
        } else if n >= 5 && str_eq(input.substring_char(0, 5), "code=") {
            code = true;
            input.substring_char(5, n)
        } else {
            input
        };
        let (radix, numportion) = Self::get_radix(s);
        match parse_big(numportion, radix) {
            None => Err("Failed to parse given rule"),
            Some(bn) => if code {
                Ok(CAEvalType::Code(bn))
            } else {
                Ok(CAEvalType::Rule(bn))
            },
        }
    }

    /// Resolves the base marker and returns the base with the literal that
    /// follows it.
    fn get_radix(s: &str) -> (r: (u32, &str))
        ensures
            ({
                let (radix, rest) = spec_strip_base(s@);
                &&& r.0 as nat == radix
                &&& r.1@ == rest
                &&& 2 <= r.0 <= 36
            }),
    {
        let n = s.unicode_len();
        if n <= 2 {
            return (10, s);
        }
        let c0 = s.get_char(0);
        let c1 = s.get_char(1);
        if c0 == '0' && c1 == 'z' {
            (36, s.substring_char(2, n))
        } else if c0 == '0' && c1 == 'x' {
            (16, s.substring_char(2, n))
        } else if c0 == '0' && c1 == 'o' {
            (8, s.substring_char(2, n))
        } else if c0 == '0' && c1 == 'b' {
            (2, s.substring_char(2, n))
        } else {
            (10, s)
        }
    }
}

impl core::str::FromStr for CAEvalType {
    type Err = &'static str;

    fn from_str(input: &str) -> Result<CAEvalType, Self::Err> {
        CAEvalType::new(input)
    }
}

} // verus!
