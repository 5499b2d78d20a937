//! Cells, lattices, and the digit alphabet `0-9a-z` that renders them.

use vstd::prelude::*;

verus! {

/// One cell of the automaton: a symbol in `[0, radix)`, `radix <= 36`.
pub type Cell = u8;

/// An ordered, fixed-length row of cells: one generation of the automaton.
pub type Lattice = Vec<Cell>;

/// The lowest symbol. It is the value of every absent rule-table entry and
/// of every out-of-range cell under the fixed border.
pub const CELL0: Cell = 0;

/// Numeric value of a digit character over `0-9`, `a-z` and `A-Z`
/// (letters of either case count from 10); 36 marks any other character.
pub open spec fn char_digit(c: char) -> nat {
    if '0' <= c && c <= '9' {
        (c as u32 - '0' as u32) as nat
    } else if 'a' <= c && c <= 'z' {
        (c as u32 - 'a' as u32 + 10) as nat
    } else if 'A' <= c && c <= 'Z' {
        (c as u32 - 'A' as u32 + 10) as nat
    } else {
        36
    }
}

/// The lower-case digit character for a value below 36.
pub open spec fn digit_char(d: nat) -> char {
    if d < 10 {
        ((d + 48) as u8) as char
    } else {
        ((d + 87) as u8) as char
    }
}

/// Rendering a symbol and reading the character back returns the symbol.
pub proof fn lemma_digit_char_roundtrip(d: nat)
    requires
        d < 36,
    ensures
        char_digit(digit_char(d)) == d,
{
}

/// The digit character of each symbol below 36, lower case.
pub fn from_digit(c: &Cell) -> (r: char)
    requires
        *c < 36,
    ensures
        r == digit_char(*c as nat),
{
    if *c < 10 {
        (48 + *c) as char
    } else {
        (87 + *c) as char
    }
}

/// The symbol denoted by a digit character of either case.
pub fn from_char(c: char) -> (r: Cell)
    requires
        char_digit(c) < 36,
    ensures
        r as nat == char_digit(c),
{
    if '0' <= c && c <= '9' {
        (c as u32 - '0' as u32) as u8
    } else if 'a' <= c && c <= 'z' {
        (c as u32 - 'a' as u32 + 10) as u8
    } else {
        (c as u32 - 'A' as u32 + 10) as u8
    }
}

} // verus!
