//! Validation of run parameters and construction of the initial lattice.

use crate::automaton::index_fits;
use crate::digits::{char_digit, from_char, Cell, Lattice, CELL0};
use crate::text::str_eq;
use vstd::arithmetic::div_mod::lemma_fundamental_div_mod;
use vstd::arithmetic::mul::lemma_mul_inequality;
use vstd::arithmetic::power::{lemma_pow1, pow};
use vstd::prelude::*;

verus! {

/// Acceptable run parameters: radix in `[2, 36]`, odd neighborhood size, a
/// neighbor mask that is either the default `0` or one `0`/`1` per
/// neighbor, and an initial configuration that is either the random marker
/// `@` or digits below the radix.
pub open spec fn spec_valid_opts(
    radix: u32,
    nabor_size: u32,
    mask: Seq<char>,
    config: Seq<char>,
) -> bool {
    &&& 2 <= radix <= 36
    &&& nabor_size % 2 == 1
    &&& (mask == "0"@ || mask.len() == nabor_size)
    &&& forall|i: int| 0 <= i < mask.len() ==> mask[i] == '0' || mask[i] == '1'
    &&& (config == "@"@ || forall|i: int| 0 <= i < config.len() ==> char_digit(config[i]) < radix)
}

/// Checks the run parameters as the command line hands them over.
pub fn validate_opts(radix: u32, nabor_size: u32, nabor_mask: &str, start_config: &str) -> (r:
    bool)
    ensures
        r == spec_valid_opts(radix, nabor_size, nabor_mask@, start_config@),
{
    if radix < 2 || radix > 36 {
        return false;
    }
    if nabor_size % 2 == 0 {
        return false;
    }
    let mask_default = str_eq(nabor_mask, "0");
    let mask_len = nabor_mask.unicode_len();
    if !mask_default && (mask_len as u64) != (nabor_size as u64) {
        return false;
    }
    let mut i: usize = 0;
    while i < mask_len
        invariant
            mask_len == nabor_mask@.len(),
            i <= mask_len,
            forall|j: int| 0 <= j < i ==> nabor_mask@[j] == '0' || nabor_mask@[j] == '1',
        decreases mask_len - i,
    {
        let c = nabor_mask.get_char(i);
        if c != '0' && c != '1' {
            return false;
        }
        i += 1;
    }
    if str_eq(start_config, "@") {
        return true;
    }
    let cfg_len = start_config.unicode_len();
    let mut k: usize = 0;
    while k < cfg_len
        invariant
            cfg_len == start_config@.len(),
            radix <= 36,
            start_config@ != "@"@,
            k <= cfg_len,
            forall|j: int| 0 <= j < k ==> char_digit(start_config@[j]) < radix,
        decreases cfg_len - k,
    {
        let c = start_config.get_char(k);
        let d = digit_value(c);
        if d >= radix as u8 {
            proof {
                assert(radix as u8 as nat == radix as nat);
                assert(char_digit(start_config@[k as int]) >= radix);
            }
            return false;
        }
        k += 1;
    }
    true
}

/// The numeric value of a digit character, 36 marking anything that is not
/// a digit at all.
fn digit_value(c: char) -> (r: u8)
    ensures
        r as nat == char_digit(c),
{
    if '0' <= c && c <= '9' || 'a' <= c && c <= 'z' || 'A' <= c && c <= 'Z' {
        from_char(c)
    } else {
        36
    }
}

/// The initial lattice for a textual configuration: its digits, centered
/// with runs of the zero symbol on both sides. When the leftover width is
/// odd the lattice comes out one cell short of `width`, as the padding is
/// split evenly.
pub open spec fn spec_make_config(width: nat, s: Seq<char>) -> Seq<Cell> {
    let pad = ((width - s.len()) / 2) as nat;
    crate::canon::zero_run(pad) + s.map_values(|c: char| (char_digit(c) as u8) as Cell)
        + crate::canon::zero_run(pad)
}

/// Builds the initial lattice from a configuration string, centered in
/// `width` cells with zero padding on both sides.
pub fn make_config(width: usize, radix: u32, start_config: &str) -> (r: Lattice)
    requires
        start_config@.len() <= width,
        2 <= radix <= 36,
        forall|i: int|
            0 <= i < start_config@.len() ==> char_digit(#[trigger] start_config@[i]) < radix,
    ensures
        r@ == spec_make_config(width as nat, start_config@),
        forall|i: int| 0 <= i < r@.len() ==> #[trigger] r@[i] < radix,
{
    let ghost s = start_config@;
    let cfg_len = start_config.unicode_len();
    let padding = (width - cfg_len) / 2;
    let mut config: Vec<Cell> = Vec::with_capacity(width);
    let mut i: usize = 0;
    while i < padding
        invariant
            i <= padding,
            config@ =~= crate::canon::zero_run(i as nat),
        decreases padding - i,
    {
        config.push(CELL0);
        proof {
            assert(config@ =~= crate::canon::zero_run((i + 1) as nat));
        }
        i += 1;
    }
    let ghost digits = s.map_values(|c: char| (char_digit(c) as u8) as Cell);
    let mut k: usize = 0;
    while k < cfg_len
        invariant
            cfg_len == s.len(),
            s == start_config@,
            radix <= 36,
            forall|j: int| 0 <= j < s.len() ==> char_digit(#[trigger] s[j]) < radix,
            k <= cfg_len,
            digits == s.map_values(|c: char| (char_digit(c) as u8) as Cell),
            config@ =~= crate::canon::zero_run(padding as nat) + digits.take(k as int),
        decreases cfg_len - k,
    {
        let c = start_config.get_char(k);
        config.push(from_char(c));
        proof {
            assert(digits.take(k + 1) =~= digits.take(k as int).push(digits[k as int]));
            assert(config@ =~= crate::canon::zero_run(padding as nat) + digits.take(k + 1));
        }
        k += 1;
    }
    let mut j: usize = 0;
    while j < padding
        invariant
            cfg_len == s.len(),
            digits == s.map_values(|c: char| (char_digit(c) as u8) as Cell),
            j <= padding,
            config@ =~= crate::canon::zero_run(padding as nat) + digits + crate::canon::zero_run(
                j as nat,
            ),
        decreases padding - j,
    {
        config.push(CELL0);
        proof {
            assert(config@ =~= crate::canon::zero_run(padding as nat) + digits
                + crate::canon::zero_run((j + 1) as nat));
        }
        j += 1;
    }
    proof {
        assert(digits.take(cfg_len as int) =~= digits);
    }
    config
}

/// Decides at run time whether every window index of an automaton with
/// these parameters fits the native index type: the totalistic bound is a
/// product, the positional bound the power `radix ^ nabor_size`, watched
/// for overflow as it is built up.
pub fn check_index_fits(code: bool, radix: u32, nabor_size: u32) -> (r: bool)
    requires
        2 <= radix <= 36,
    ensures
        r == index_fits(code, radix, nabor_size),
{
    if code {
        let a: usize = (radix - 1) as usize;
        let b = usize::MAX / a;
        proof {
            lemma_fundamental_div_mod(usize::MAX as int, a as int);
            if nabor_size as int <= b as int {
                lemma_mul_inequality(nabor_size as int, b as int, a as int);
                assert((a as int) * (b as int) <= usize::MAX as int) by (nonlinear_arith)
                    requires
                        usize::MAX as int == (a as int) * (b as int) + usize::MAX as int % (
                        a as int),
                        usize::MAX as int % (a as int) >= 0,
                ;
                vstd::arithmetic::mul::lemma_mul_is_commutative(nabor_size as int, a as int);
            } else {
                assert((a as int) * (nabor_size as int) > usize::MAX as int) by (nonlinear_arith)
                    requires
                        usize::MAX as int == (a as int) * (b as int) + usize::MAX as int % (
                        a as int),
                        usize::MAX as int % (a as int) < a as int,
                        nabor_size as int >= b as int + 1,
                        a >= 1,
                ;
            }
        }
        (nabor_size as u64) <= (b as u64)
    } else {
        let r: usize = radix as usize;
        let limit = usize::MAX / r;
        let mut acc: usize = 1;
        let mut e: u32 = 0;
        proof {
            vstd::arithmetic::power::lemma_pow0(r as int);
            lemma_fundamental_div_mod(usize::MAX as int, r as int);
        }
        while e < nabor_size
            invariant
                !code,
                2 <= r <= 36,
                r == radix,
                limit == usize::MAX as int / r as int,
                usize::MAX as int == (r as int) * (limit as int) + usize::MAX as int % (r as int),
                0 <= usize::MAX as int % (r as int) < r as int,
                e <= nabor_size,
                acc as int == pow(r as int, e as nat),
            decreases nabor_size - e,
        {
            if acc > limit {
                proof {
                    assert((acc as int) * (r as int) > usize::MAX as int) by (nonlinear_arith)
                        requires
                            usize::MAX as int == (r as int) * (limit as int) + usize::MAX as int % (
                            r as int),
                            usize::MAX as int % (r as int) < r as int,
                            acc as int >= limit as int + 1,
                            r >= 1,
                    ;
                    vstd::arithmetic::power::lemma_pow_adds(r as int, e as nat, 1);
                    lemma_pow1(r as int);
                    assert(pow(r as int, (e + 1) as nat) == pow(r as int, e as nat) * (r as int));
                    assert(pow(r as int, (e + 1) as nat) > usize::MAX as int);
                    vstd::arithmetic::power::lemma_pow_increases(
                        r as nat,
                        (e + 1) as nat,
                        nabor_size as nat,
                    );
                    assert(pow(r as int, nabor_size as nat) >= pow(r as int, (e + 1) as nat));
                }
                return false;
            }
            proof {
                lemma_mul_inequality(acc as int, limit as int, r as int);
                assert((r as int) * (limit as int) <= usize::MAX as int);
                vstd::arithmetic::mul::lemma_mul_is_commutative(limit as int, r as int);
                vstd::arithmetic::power::lemma_pow_adds(r as int, e as nat, 1);
                lemma_pow1(r as int);
            }
            acc = acc * r;
            e += 1;
        }
        true
    }
}

} // verus!
