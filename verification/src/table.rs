//! The rule table and the two neighborhood encodings.
//!
//! A rule number `n` is decomposed radix-wise, least-significant digit
//! first, into a sparse index-to-symbol table: only non-zero digits are
//! stored, and any absent index reads back as symbol 0. A neighborhood
//! window is turned into a table index either positionally (the window read
//! as a base-radix numeral) or totalistically (the sum of its symbols).

use crate::bignum::{big_div, big_is_zero, big_rem, big_to_u8, big_value};
use crate::digits::{Cell, Lattice, CELL0};
use crate::rulespec::CAEvalType;
use std::collections::BTreeMap;
use vstd::arithmetic::div_mod::{lemma_div_denominator, lemma_div_is_ordered_by_denominator};
use vstd::arithmetic::power::{lemma_pow_adds, pow};
use vstd::prelude::*;

verus! {

broadcast use
    vstd::std_specs::btree::group_btree_axioms,
    vstd::laws_cmp::group_laws_cmp,
;

/// Digit `i` of `n` written in base `radix`, least-significant digit first.
pub open spec fn nth_digit(n: nat, radix: nat, i: nat) -> nat {
    (n / (pow(radix as int, i) as nat)) % radix
}

/// Total lookup over a sparse table: an absent index reads as symbol 0.
pub open spec fn table_at(m: Map<usize, u8>, i: nat) -> u8 {
    if i <= usize::MAX && m.contains_key(i as usize) {
        m[i as usize]
    } else {
        0
    }
}

/// The totalistic index: the arithmetic sum of the window's symbols.
pub open spec fn sum_window(w: Seq<u8>) -> nat
    decreases w.len(),
{
    if w.len() == 0 {
        0
    } else {
        sum_window(w.drop_last()) + w.last() as nat
    }
}

/// The positional index: the window read as a base-radix numeral, leftmost
/// symbol most significant.
pub open spec fn pos_value(w: Seq<u8>, radix: nat) -> nat
    decreases w.len(),
{
    if w.len() == 0 {
        0
    } else {
        pos_value(w.drop_last(), radix) * radix + w.last() as nat
    }
}

/// The table index of a window under the selected encoding.
pub open spec fn spec_encode(code: bool, w: Seq<u8>, radix: nat) -> nat {
    if code {
        sum_window(w)
    } else {
        pos_value(w, radix)
    }
}

/// A prefix of a window never sums to more than the window.
proof fn lemma_sum_take_le(w: Seq<u8>, i: int)
    requires
        0 <= i <= w.len(),
    ensures
        sum_window(w.take(i)) <= sum_window(w),
    decreases w.len() - i,
{
    if i < w.len() {
        assert(w.take(i + 1).drop_last() =~= w.take(i));
        lemma_sum_take_le(w, i + 1);
    } else {
        assert(w.take(i) =~= w);
    }
}

/// A prefix of a window never reads as a larger numeral than the window.
proof fn lemma_pos_take_le(w: Seq<u8>, radix: nat, i: int)
    requires
        0 <= i <= w.len(),
        radix >= 1,
    ensures
        pos_value(w.take(i), radix) <= pos_value(w, radix),
    decreases w.len() - i,
{
    if i < w.len() {
        assert(w.take(i + 1).drop_last() =~= w.take(i));
        assert(pos_value(w.take(i + 1), radix) == pos_value(w.take(i), radix) * radix + w.take(
            i + 1,
        ).last());
        vstd::arithmetic::mul::lemma_mul_inequality(1, radix as int, pos_value(
            w.take(i),
            radix,
        ) as int);
        assert(pos_value(w.take(i), radix) * 1 <= pos_value(w.take(i), radix) * radix) by (
        nonlinear_arith)
            requires radix >= 1,
        ;
        lemma_pos_take_le(w, radix, i + 1);
    } else {
        assert(w.take(i) =~= w);
    }
}

/// The sum of a window of symbols below the radix is bounded by
/// `(radix - 1) * len`.
pub proof fn lemma_sum_bound(w: Seq<u8>, radix: nat)
    requires
        radix >= 1,
        forall|i: int| 0 <= i < w.len() ==> w[i] < radix,
    ensures
        sum_window(w) <= (radix - 1) * w.len(),
    decreases w.len(),
{
    if w.len() > 0 {
        lemma_sum_bound(w.drop_last(), radix);
        assert((radix - 1) * (w.len() - 1) + (radix - 1) == (radix - 1) * w.len()) by (
        nonlinear_arith);
    }
}

/// A window of symbols below the radix reads as a numeral below
/// `radix ^ len`.
pub proof fn lemma_pos_bound(w: Seq<u8>, radix: nat)
    requires
        radix >= 1,
        forall|i: int| 0 <= i < w.len() ==> w[i] < radix,
    ensures
        pos_value(w, radix) < pow(radix as int, w.len()),
    decreases w.len(),
{
    vstd::arithmetic::power::lemma_pow_positive(radix as int, w.len());
    if w.len() > 0 {
        lemma_pos_bound(w.drop_last(), radix);
        lemma_pow_adds(radix as int, (w.len() - 1) as nat, 1);
        assert(pow(radix as int, 1) == radix) by {
            vstd::arithmetic::power::lemma_pow1(radix as int);
        }
        assert(pos_value(w.drop_last(), radix) * radix + radix <= pow(
            radix as int,
            (w.len() - 1) as nat,
        ) * radix) by (nonlinear_arith)
            requires
                pos_value(w.drop_last(), radix) < pow(radix as int, (w.len() - 1) as nat),
                radix >= 1,
        ;
    }
}

/// The rule evaluator: a rule table together with the radix and the
/// evaluation mode it was built under.
pub(crate) struct CAEval {
    pub(crate) eval_type: CAEvalType,
    pub(crate) rule_hash: BTreeMap<usize, Cell>,
    pub(crate) radix: u32,
}

impl CAEval {
    /// The rule number the table was built from.
    pub(crate) open spec fn spec_n(&self) -> nat {
        self.eval_type.spec_value()
    }

    /// The table holds exactly the non-zero digits of the rule number in
    /// base radix.
    pub(crate) open spec fn wf(&self) -> bool {
        &&& 2 <= self.radix <= 36
        &&& forall|j: usize| #[trigger] self.rule_hash@.contains_key(j) ==> self.rule_hash@[j] != 0
        &&& forall|j: usize|
            table_at(self.rule_hash@, j as nat) == #[trigger] nth_digit(
                self.spec_n(),
                self.radix as nat,
                j as nat,
            )
    }

    pub(crate) fn new(eval_type: CAEvalType, radix: u32) -> (r: CAEval)
        requires
            2 <= radix <= 36,
        ensures
            r.wf(),
            r.radix == radix,
            r.eval_type == eval_type,
    {
        let rule_hash = Self::rule_map(eval_type.to_bignum(), radix);
        CAEval { eval_type, rule_hash, radix }
    }

    /// How many entries the table holds.
    pub(crate) fn table_len(&self) -> (r: usize)
        ensures
            r == self.rule_hash@.dom().len(),
    {
        self.rule_hash.len()
    }

    /// Looks one index up in the table; absent indices read as symbol 0.
    pub(crate) fn eval_idx(&self, idx: usize) -> (r: Cell)
        ensures
            r == table_at(self.rule_hash@, idx as nat),
    {
        match self.rule_hash.get(&idx) {
            Some(c) => *c,
            None => CELL0,
        }
    }

    /// The new symbol for a window's center cell: the window is encoded
    /// under the evaluator's mode and looked up in the table.
    pub(crate) fn eval(&self, naborhood: &Lattice) -> (r: Cell)
        requires
            2 <= self.radix,
            spec_encode(
                self.eval_type.spec_is_code(),
                naborhood@,
                self.radix as nat,
            ) <= usize::MAX,
        ensures
            r == table_at(
                self.rule_hash@,
                spec_encode(self.eval_type.spec_is_code(), naborhood@, self.radix as nat),
            ),
    {
        let idx = match self.eval_type {
            CAEvalType::Rule(_) => self.idx_rule(naborhood),
            CAEvalType::Code(_) => self.idx_code(naborhood),
        };
        self.eval_idx(idx)
    }

    /// Reads the window as a base-radix numeral, leftmost symbol most
    /// significant.
    fn idx_rule(&self, naborhood: &Lattice) -> (r: usize)
        requires
            self.radix >= 1,
            pos_value(naborhood@, self.radix as nat) <= usize::MAX,
        ensures
            r as nat == pos_value(naborhood@, self.radix as nat),
    {
        let ghost w = naborhood@;
        let ghost rx = self.radix as nat;
        let mut v: usize = 0;
        let mut i: usize = 0;
        while i < naborhood.len()
            invariant
                self.radix >= 1,
                rx == self.radix as nat,
                w == naborhood@,
                i <= w.len(),
                pos_value(w, rx) <= usize::MAX,
                v as nat == pos_value(w.take(i as int), rx),
            decreases w.len() - i,
        {
            proof {
                assert(w.take(i + 1).drop_last() =~= w.take(i as int));
                lemma_pos_take_le(w, rx, i + 1);
            }
            let c = naborhood[i];
            v = v * (self.radix as usize) + (c as usize);
            i += 1;
        }
        proof {
            assert(w.take(w.len() as int) =~= w);
        }
        v
    }

    /// Sums the window's symbols.
    fn idx_code(&self, naborhood: &Lattice) -> (r: usize)
        requires
            sum_window(naborhood@) <= usize::MAX,
        ensures
            r as nat == sum_window(naborhood@),
    {
        let ghost w = naborhood@;
        let mut sum: usize = 0;
        let mut i: usize = 0;
        while i < naborhood.len()
            invariant
                w == naborhood@,
                i <= w.len(),
                sum_window(w) <= usize::MAX,
                sum as nat == sum_window(w.take(i as int)),
            decreases w.len() - i,
        {
            proof {
                assert(w.take(i + 1).drop_last() =~= w.take(i as int));
                lemma_sum_take_le(w, i + 1);
            }
            let c = naborhood[i];
            sum = sum + (c as usize);
            i += 1;
        }
        proof {
            assert(w.take(w.len() as int) =~= w);
        }
        sum
    }

    /// Decomposes the rule number radix-wise into the sparse table of its
    /// non-zero digits. Digits beyond the largest addressable index are
    /// not materialized; no lookup can reach them.
    fn rule_map(x: &num_bigint::BigUint, radix: u32) -> (m: BTreeMap<usize, Cell>)
        requires
            2 <= radix <= 36,
        ensures
            forall|j: usize| #[trigger] m@.contains_key(j) ==> m@[j] != 0,
            forall|j: usize|
                table_at(m@, j as nat) == #[trigger] nth_digit(
                    big_value(*x),
                    radix as nat,
                    j as nat,
                ),
    {
        let ghost n: nat = big_value(*x);
        let ghost r: nat = radix as nat;
        let mut cur = x.clone();
        let mut result: BTreeMap<usize, Cell> = BTreeMap::new();
        let mut idx: usize = 0;
        proof {
            vstd::arithmetic::power::lemma_pow0(r as int);
            vstd::arithmetic::div_mod::lemma_div_basics(n as int);
            assert(big_value(cur) == n / (pow(r as int, 0) as nat));
        }
        loop
            invariant_except_break
                big_value(cur) == n / (pow(r as int, idx as nat) as nat),
                forall|j: usize| #[trigger] result@.contains_key(j) ==> j < idx,
            invariant
                2 <= radix <= 36,
                r == radix as nat,
                n == big_value(*x),
                forall|j: usize|
                    j < idx ==> ((#[trigger] result@.contains_key(j)) <==> nth_digit(
                        n,
                        r,
                        j as nat,
                    ) != 0),
                forall|j: usize|
                    j < idx && result@.contains_key(j) ==> result@[j] == nth_digit(n, r, j as nat),
            ensures
                forall|j: usize| #[trigger] result@.contains_key(j) ==> result@[j] != 0,
                forall|j: usize|
                    table_at(result@, j as nat) == #[trigger] nth_digit(n, r, j as nat),
            decreases usize::MAX - idx,
        {
            let ghost p: nat = pow(r as int, idx as nat) as nat;
            proof {
                vstd::arithmetic::power::lemma_pow_positive(r as int, idx as nat);
            }
            let rem = big_rem(&cur, radix);
            let d_opt = big_to_u8(&rem);
            proof {
                assert(big_value(rem) == nth_digit(n, r, idx as nat));
                assert(big_value(rem) < r);
            }
            let d = d_opt.unwrap();
            if d != CELL0 {
                result.insert(idx, d);
            }
            proof {
                // entries now match the digits at every index up to and
                // including the current one
                assert(forall|j: usize|
                    j <= idx ==> ((#[trigger] result@.contains_key(j)) <==> nth_digit(
                        n,
                        r,
                        j as nat,
                    ) != 0));
                assert(forall|j: usize|
                    j <= idx && result@.contains_key(j) ==> result@[j] == nth_digit(n, r, j as nat));
                assert(forall|j: usize| #[trigger] result@.contains_key(j) ==> j <= idx);
                // the quotient that remains after this digit
                vstd::arithmetic::power::lemma_pow_positive(r as int, (idx + 1) as nat);
                lemma_div_denominator(n as int, p as int, r as int);
                lemma_pow_adds(r as int, idx as nat, 1);
                vstd::arithmetic::power::lemma_pow1(r as int);
                assert((n as int / p as int) / r as int == n as int / (p * r) as int);
                assert(pow(r as int, (idx + 1) as nat) == p * r);
            }
            cur = big_div(&cur, radix);
            assert(big_value(cur) == n / (pow(r as int, (idx + 1) as nat) as nat));
            if big_is_zero(&cur) {
                proof {
                    assert forall|j: usize| table_at(result@, j as nat) == nth_digit(
                        n,
                        r,
                        j as nat,
                    ) by {
                        if j > idx {
                            vstd::arithmetic::power::lemma_pow_positive(r as int, (idx + 1) as nat);
                            vstd::arithmetic::power::lemma_pow_positive(r as int, j as nat);
                            vstd::arithmetic::power::lemma_pow_increases(
                                r,
                                (idx + 1) as nat,
                                j as nat,
                            );
                            lemma_div_is_ordered_by_denominator(
                                n as int,
                                pow(r as int, (idx + 1) as nat),
                                pow(r as int, j as nat),
                            );
                            vstd::arithmetic::div_mod::lemma_div_pos_is_pos(
                                n as int,
                                pow(r as int, j as nat),
                            );
                            assert(n / (pow(r as int, j as nat) as nat) == 0);
                            assert(nth_digit(n, r, j as nat) == 0nat % r);
                            assert(!result@.contains_key(j));
                        }
                    }
                }
                break ;
            }
            if idx == usize::MAX {
                proof {
                    assert forall|j: usize| table_at(result@, j as nat) == nth_digit(
                        n,
                        r,
                        j as nat,
                    ) by {
                        assert(j <= idx);
                    }
                }
                break ;
            }
            idx += 1;
        }
        result
    }
}

impl CAEvalType {
    /// The arbitrary-precision rule number behind either mode.
    pub(crate) fn to_bignum(&self) -> (r: &num_bigint::BigUint)
        ensures
            big_value(*r) == self.spec_value(),
    {
        match self {
            CAEvalType::Code(n) => n,
            CAEvalType::Rule(n) => n,
        }
    }
}

} // verus!
