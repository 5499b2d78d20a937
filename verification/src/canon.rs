//! The canonical string of a lattice: its cells as digits over `0-9a-z`,
//! with the leading and trailing zero-symbol runs stripped. Used for
//! reproducible logging of a final configuration.

use crate::automaton::CA;
use crate::digits::{digit_char, from_digit, Cell, Lattice, CELL0};
use crate::text::push_char;
use vstd::prelude::*;

verus! {

/// The lattice with its leading zero-symbol run removed.
pub open spec fn trim_leading(l: Seq<Cell>) -> Seq<Cell>
    decreases l.len(),
{
    if l.len() > 0 && l[0] == 0 {
        trim_leading(l.drop_first())
    } else {
        l
    }
}

/// The lattice with its trailing zero-symbol run removed.
pub open spec fn trim_trailing(l: Seq<Cell>) -> Seq<Cell>
    decreases l.len(),
{
    if l.len() > 0 && l.last() == 0 {
        trim_trailing(l.drop_last())
    } else {
        l
    }
}

/// The canonical form: both zero runs stripped, each remaining cell
/// rendered as its digit character.
pub open spec fn spec_canon(l: Seq<Cell>) -> Seq<char> {
    trim_trailing(trim_leading(l)).map_values(|c: Cell| digit_char(c as nat))
}

/// A run of zero symbols.
pub open spec fn zero_run(n: nat) -> Seq<Cell> {
    Seq::new(n, |i: int| CELL0)
}

/// A leading run of zeros is trimmed away entirely.
proof fn lemma_trim_leading_zeros(a: nat, s: Seq<Cell>)
    ensures
        trim_leading(zero_run(a) + s) == trim_leading(s),
    decreases a,
{
    if a == 0 {
        assert(zero_run(0) + s =~= s);
    } else {
        assert((zero_run(a) + s)[0] == 0);
        assert((zero_run(a) + s).drop_first() =~= zero_run((a - 1) as nat) + s);
        lemma_trim_leading_zeros((a - 1) as nat, s);
    }
}

/// A trailing run of zeros is trimmed away entirely.
proof fn lemma_trim_trailing_zeros(s: Seq<Cell>, b: nat)
    ensures
        trim_trailing(s + zero_run(b)) == trim_trailing(s),
    decreases b,
{
    if b == 0 {
        assert(s + zero_run(0) =~= s);
    } else {
        assert((s + zero_run(b)).last() == 0);
        assert((s + zero_run(b)).drop_last() =~= s + zero_run((b - 1) as nat));
        lemma_trim_trailing_zeros(s, (b - 1) as nat);
    }
}

/// Trailing zeros do not change the doubly-trimmed lattice.
proof fn lemma_trim_both(x: Seq<Cell>, b: nat)
    ensures
        trim_trailing(trim_leading(x + zero_run(b))) == trim_trailing(trim_leading(x)),
    decreases x.len(),
{
    if x.len() == 0 {
        assert(x + zero_run(b) =~= zero_run(b) + x);
        lemma_trim_leading_zeros(b, x);
    } else if x[0] == 0 {
        assert((x + zero_run(b)).drop_first() =~= x.drop_first() + zero_run(b));
        assert((x + zero_run(b))[0] == 0);
        lemma_trim_both(x.drop_first(), b);
    } else {
        assert((x + zero_run(b))[0] != 0);
        assert(trim_leading(x + zero_run(b)) == x + zero_run(b));
        assert(trim_leading(x) == x);
        lemma_trim_trailing_zeros(x, b);
    }
}

/// Padding a lattice with zero symbols at either end leaves its canonical
/// string unchanged.
pub proof fn lemma_canon_padding(l: Seq<Cell>, a: nat, b: nat)
    ensures
        spec_canon(zero_run(a) + l + zero_run(b)) == spec_canon(l),
{
    assert(zero_run(a) + l + zero_run(b) =~= zero_run(a) + (l + zero_run(b)));
    lemma_trim_leading_zeros(a, l + zero_run(b));
    lemma_trim_both(l, b);
}

/// The trimmed head: a scan that stops at the first non-zero cell finds
/// exactly where `trim_leading` stops.
proof fn lemma_trim_leading_exact(l: Seq<Cell>, a: int)
    requires
        0 <= a <= l.len(),
        forall|j: int| 0 <= j < a ==> l[j] == 0,
        a < l.len() ==> l[a] != 0,
    ensures
        trim_leading(l) == l.subrange(a, l.len() as int),
    decreases a,
{
    if a == 0 {
        assert(l.subrange(0, l.len() as int) =~= l);
    } else {
        assert(l[0] == 0);
        lemma_trim_leading_exact(l.drop_first(), a - 1);
        assert(l.drop_first().subrange(a - 1, l.len() - 1) =~= l.subrange(a, l.len() as int));
    }
}

/// The trimmed tail: a scan that stops at the last non-zero cell finds
/// exactly where `trim_trailing` stops.
proof fn lemma_trim_trailing_exact(l: Seq<Cell>, b: int)
    requires
        -1 <= b < l.len(),
        forall|j: int| b < j < l.len() ==> l[j] == 0,
        b >= 0 ==> l[b] != 0,
    ensures
        trim_trailing(l) == l.subrange(0, b + 1),
    decreases l.len() - b,
{
    if b == l.len() - 1 {
        assert(l.subrange(0, l.len() as int) =~= l);
    } else {
        assert(l.last() == 0);
        lemma_trim_trailing_exact(l.drop_last(), b);
        assert(l.drop_last().subrange(0, b + 1) =~= l.subrange(0, b + 1));
    }
}

impl CA {
    /// Renders a lattice as digits over `0-9a-z`, with the leading and
    /// trailing zero-symbol runs stripped.
    pub fn print_config(l: Lattice) -> (r: String)
        requires
            forall|i: int| 0 <= i < l@.len() ==> l@[i] < 36,
        ensures
            r@ == spec_canon(l@),
    {
        let n = l.len();
        let mut a: usize = 0;
        while a < n && l[a] == CELL0
            invariant
                n == l@.len(),
                a <= n,
                forall|j: int| 0 <= j < a ==> l@[j] == 0,
            decreases n - a,
        {
            a += 1;
        }
        if a == n {
            proof {
                lemma_trim_leading_exact(l@, n as int);
                assert(l@.subrange(n as int, n as int) =~= Seq::<Cell>::empty());
                assert(spec_canon(l@) =~= Seq::<char>::empty());
            }
            return String::new();
        }
        let mut b: usize = n - 1;
        while l[b] == CELL0
            invariant
                n == l@.len(),
                a <= b < n,
                l@[a as int] != 0,
                forall|j: int| b < j < n ==> l@[j] == 0,
            decreases b,
        {
            b -= 1;
        }
        let mut s = String::new();
        let mut i: usize = a;
        while i <= b
            invariant
                n == l@.len(),
                forall|q: int| 0 <= q < n ==> l@[q] < 36,
                a <= i <= b + 1,
                b < n,
                s@ == l@.subrange(a as int, i as int).map_values(
                    |c: Cell| digit_char(c as nat),
                ),
            decreases b + 1 - i,
        {
            let cell = l[i];
            let c = from_digit(&cell);
            push_char(&mut s, c);
            proof {
                assert(l@.subrange(a as int, i + 1).drop_last() =~= l@.subrange(
                    a as int,
                    i as int,
                ));
                assert(l@.subrange(a as int, i + 1).map_values(
                    |c: Cell| digit_char(c as nat),
                ) =~= l@.subrange(a as int, i as int).map_values(
                    |c: Cell| digit_char(c as nat),
                ).push(digit_char(l@[i as int] as nat)));
            }
            i += 1;
        }
        proof {
            lemma_trim_leading_exact(l@, a as int);
            let mid = l@.subrange(a as int, n as int);
            lemma_trim_trailing_exact(mid, b - a);
            assert(mid.subrange(0, b - a + 1) =~= l@.subrange(a as int, b + 1));
        }
        s
    }
}

} // verus!
