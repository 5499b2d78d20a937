//! What the renderers share with the core: the output-type selector and
//! the symbol-to-palette index mapping. The renderers themselves only
//! consume already-computed lattices and live outside this library.

use crate::text::str_eq;
use vstd::arithmetic::div_mod::lemma_fundamental_div_mod;
use vstd::arithmetic::mul::lemma_mul_inequality;
use vstd::prelude::*;

verus! {

/// The output variant selected at startup.
#[derive(Debug, PartialEq, Eq, Structural, Copy, Clone)]
pub enum Output {
    Null,
    Ascii,
    AnsiGrey,
    Unicode,
    UnicodeAnsi,
    Cell,
    PNG,
    Raw,
}

/// The name each output variant is selected by.
pub open spec fn spec_output_name(o: Output) -> Seq<char> {
    match o {
        Output::Null => "Null"@,
        Output::Ascii => "Ascii"@,
        Output::AnsiGrey => "AnsiGrey"@,
        Output::Unicode => "Unicode"@,
        Output::UnicodeAnsi => "UnicodeAnsi"@,
        Output::Cell => "Cell"@,
        Output::PNG => "PNG"@,
        Output::Raw => "Raw"@,
    }
}

impl Output {
    /// Parses the output name used on the command line.
    pub fn parse(input: &str) -> (r: Result<Output, &'static str>)
        ensures
            match r {
                Ok(o) => spec_output_name(o) == input@,
                Err(_) => forall|o: Output| spec_output_name(o) != input@,
            },
    {
        if str_eq(input, "Null") {
            Ok(Output::Null)
        } else if str_eq(input, "Ascii") {
            Ok(Output::Ascii)
        } else if str_eq(input, "AnsiGrey") {
            Ok(Output::AnsiGrey)
        } else if str_eq(input, "Unicode") {
            Ok(Output::Unicode)
        } else if str_eq(input, "UnicodeAnsi") {
            Ok(Output::UnicodeAnsi)
        } else if str_eq(input, "Cell") {
            Ok(Output::Cell)
        } else if str_eq(input, "PNG") {
            Ok(Output::PNG)
        } else if str_eq(input, "Raw") {
            Ok(Output::Raw)
        } else {
            proof {
                assert forall|o: Output| spec_output_name(o) != input@ by {
                    match o {
                        Output::Null => {},
                        Output::Ascii => {},
                        Output::AnsiGrey => {},
                        Output::Unicode => {},
                        Output::UnicodeAnsi => {},
                        Output::Cell => {},
                        Output::PNG => {},
                        Output::Raw => {},
                    }
                }
            }
            Err("invalid output type")
        }
    }
}

impl core::str::FromStr for Output {
    type Err = &'static str;

    fn from_str(input: &str) -> Result<Output, Self::Err> {
        Output::parse(input)
    }
}

/// The palette slot of a symbol: slots are spaced evenly over the palette,
/// and the last slot also catches the rounding overshoot of the top symbol.
pub open spec fn spec_idx_select(sym_num: nat, sym_count: nat, array_len: nat) -> nat {
    let space = array_len / ((sym_count - 1) as nat);
    if sym_num * space < array_len - 1 {
        sym_num * space
    } else {
        (array_len - 1) as nat
    }
}

/// Maps a symbol in `[0, sym_count)` to an index in `[0, array_len)`,
/// spacing the symbols evenly over the array.
pub fn idx_select(sym_num: u8, sym_count: u32, array_len: usize) -> (r: usize)
    requires
        sym_count > 1,
        array_len > 1,
        (sym_num as nat) < sym_count,
        sym_count <= array_len,
    ensures
        r == spec_idx_select(sym_num as nat, sym_count as nat, array_len as nat),
        r < array_len,
{
    let sym_num: usize = sym_num as usize;
    let sym_count: usize = sym_count as usize;
    let space = array_len / (sym_count - 1);
    proof {
        lemma_fundamental_div_mod(array_len as int, sym_count - 1);
        lemma_mul_inequality(sym_num as int, sym_count - 1, space as int);
        vstd::arithmetic::mul::lemma_mul_is_commutative(sym_count - 1, space as int);
        assert(sym_num * space <= (sym_count - 1) * space);
    }
    let scaled = sym_num * space;
    if scaled < array_len - 1 {
        scaled
    } else {
        array_len - 1
    }
}

} // verus!
