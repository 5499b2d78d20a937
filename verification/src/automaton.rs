//! The automaton: border policy, windowing, and the generation step.
//!
//! An automaton is an immutable combination of neighborhood size, radix,
//! rule table, evaluation mode and border policy. It is a pure function
//! from one generation to the next: every cell of the next generation is
//! the rule table's entry for its encoded neighborhood window, and windows
//! that reach beyond the lattice are resolved by the border policy.

use crate::digits::{Cell, Lattice, CELL0};
use crate::rulespec::CAEvalType;
use crate::table::{
    lemma_pos_bound, lemma_sum_bound, nth_digit, pos_value, spec_encode, sum_window, table_at,
    CAEval,
};
use crate::text::str_eq;
use vstd::arithmetic::div_mod::lemma_fundamental_div_mod_converse_mod;
use vstd::arithmetic::power::pow;
use vstd::prelude::*;

verus! {

/// Border behavior: neighbors beyond an edge wrap to the opposite edge
/// (`Ring`) or read as the zero symbol (`Fixed`).
#[derive(Debug, PartialEq, Eq, Structural, Copy, Clone)]
pub enum Border {
    Ring,
    Fixed,
}

impl Border {
    /// Parses the border name used on the command line.
    pub fn parse(input: &str) -> (r: Result<Border, &'static str>)
        ensures
            match r {
                Ok(b) => (input@ == "ring"@ && b == Border::Ring) || (input@ == "fixed"@ && b
                    == Border::Fixed),
                Err(_) => input@ != "ring"@ && input@ != "fixed"@,
            },
    {
        if str_eq(input, "ring") {
            Ok(Border::Ring)
        } else if str_eq(input, "fixed") {
            Ok(Border::Fixed)
        } else {
            Err("invalid border style")
        }
    }
}

impl core::str::FromStr for Border {
    type Err = &'static str;

    fn from_str(input: &str) -> Result<Border, Self::Err> {
        Border::parse(input)
    }
}

/// Whether every index the encoder can produce on windows of symbols below
/// the radix fits the native index type.
pub open spec fn index_fits(code: bool, radix: u32, nabor_size: u32) -> bool {
    if code {
        (radix - 1) * (nabor_size as int) <= usize::MAX as int
    } else {
        pow(radix as int, nabor_size as nat) <= usize::MAX as int
    }
}

/// Treats a signed offset as an index into an array of `array_len` elements
/// and rolls it around the ends: modulo with the result always in
/// `[0, array_len)`, whatever the sign of the offset.
pub fn idx_mod(idx: i32, array_len: usize) -> (r: usize)
    requires
        array_len >= 1,
    ensures
        r as int == (idx as int) % (array_len as int),
        r < array_len,
{
    let ghost li = array_len as int;
    if idx >= 0 {
        (idx as usize) % array_len
    } else {
        let x: usize = (-(idx as i64)) as usize;
        let a = x % array_len;
        proof {
            let xi = x as int;
            let qd = xi / li;
            vstd::arithmetic::div_mod::lemma_fundamental_div_mod(xi, li);
            if a == 0 {
                assert(idx as int == (-qd) * li + 0) by (nonlinear_arith)
                    requires
                        xi == li * qd + a as int,
                        a == 0,
                        idx as int == -xi,
                ;
                lemma_fundamental_div_mod_converse_mod(idx as int, li, -qd, 0);
            } else {
                assert(idx as int == (-qd - 1) * li + (li - a)) by (nonlinear_arith)
                    requires
                        xi == li * qd + a as int,
                        idx as int == -xi,
                ;
                lemma_fundamental_div_mod_converse_mod(idx as int, li, -qd - 1, li - a);
            }
        }
        if a == 0 {
            0
        } else {
            array_len - a
        }
    }
}

/// A one-dimensional cellular automaton: the rule table with the
/// neighborhood size, radix and border policy it is applied under. It owns
/// no lattice; each generation is passed in and a fresh one returned.
pub struct CA {
    nabor_size: u32,
    rule_order: u32,
    border: Border,
    rule: CAEval,
}

impl CA {
    /// The number of symbols.
    pub closed spec fn spec_radix(&self) -> u32 {
        self.rule_order
    }

    /// The window width, always odd.
    pub closed spec fn spec_nabor_size(&self) -> u32 {
        self.nabor_size
    }

    /// The border policy.
    pub closed spec fn spec_border(&self) -> Border {
        self.border
    }

    /// Whether windows are encoded totalistically.
    pub closed spec fn spec_is_code(&self) -> bool {
        self.rule.eval_type.spec_is_code()
    }

    /// The sparse rule table.
    pub closed spec fn spec_table(&self) -> Map<usize, Cell> {
        self.rule.rule_hash@
    }

    /// The rule number the table was built from.
    pub closed spec fn spec_rule_number(&self) -> nat {
        self.rule.spec_n()
    }

    /// Window half-width: how far the neighborhood reaches to either side
    /// of the center cell.
    pub open spec fn spec_side(&self) -> nat {
        ((self.spec_nabor_size() - 1) / 2) as nat
    }

    /// A well-formed automaton: radix in `[2, 36]`, odd neighborhood size,
    /// the table holding exactly the non-zero base-radix digits of the rule
    /// number, and every reachable window index fitting the native index
    /// type.
    pub closed spec fn wf(&self) -> bool {
        &&& 2 <= self.rule_order <= 36
        &&& self.nabor_size % 2 == 1
        &&& self.rule.radix == self.rule_order
        &&& self.rule.wf()
        &&& index_fits(self.spec_is_code(), self.rule_order, self.nabor_size)
    }

    /// Builds an automaton from a neighborhood size, a radix, a parsed
    /// rule specification and a border policy. The rule number is
    /// decomposed once, here; the automaton is immutable afterwards.
    pub fn new(nabor_size: u32, rule_order: u32, rule_number: CAEvalType, border: Border) -> (r:
        CA)
        requires
            2 <= rule_order <= 36,
            nabor_size % 2 == 1,
            index_fits(rule_number.spec_is_code(), rule_order, nabor_size),
        ensures
            r.wf(),
            r.spec_radix() == rule_order,
            r.spec_nabor_size() == nabor_size,
            r.spec_border() == border,
            r.spec_is_code() == rule_number.spec_is_code(),
            r.spec_rule_number() == rule_number.spec_value(),
            forall|j: usize| #[trigger] r.spec_table().contains_key(j) ==> r.spec_table()[j] != 0,
            forall|j: usize|
                table_at(r.spec_table(), j as nat) == #[trigger] nth_digit(
                    rule_number.spec_value(),
                    rule_order as nat,
                    j as nat,
                ),
    {
        CA { nabor_size, rule_order, border, rule: CAEval::new(rule_number, rule_order) }
    }

    /// The source cell for a (possibly out-of-range) position, as the
    /// border policy resolves it.
    pub open spec fn spec_src(&self, cfg: Seq<Cell>, i: int) -> Cell {
        if self.spec_border() is Ring {
            cfg[i % (cfg.len() as int)]
        } else if 0 <= i < cfg.len() {
            cfg[i]
        } else {
            CELL0
        }
    }

    /// The neighborhood window centered at position `p`.
    pub open spec fn spec_window(&self, cfg: Seq<Cell>, p: int) -> Seq<Cell> {
        Seq::new(
            self.spec_nabor_size() as nat,
            |j: int| self.spec_src(cfg, p - self.spec_side() + j),
        )
    }

    /// The next symbol at position `p`: the window there, encoded and
    /// looked up in the rule table.
    pub open spec fn spec_next_cell(&self, cfg: Seq<Cell>, p: int) -> Cell {
        table_at(
            self.spec_table(),
            spec_encode(self.spec_is_code(), self.spec_window(cfg, p), self.spec_radix() as nat),
        )
    }

    /// One full generation: every position updated synchronously from the
    /// previous generation.
    pub open spec fn spec_step(&self, cfg: Seq<Cell>) -> Seq<Cell> {
        Seq::new(cfg.len(), |p: int| self.spec_next_cell(cfg, p))
    }

    /// Every window over a lattice of symbols below the radix encodes to
    /// an index that fits `usize`.
    proof fn lemma_window_encodable(&self, cfg: Seq<Cell>, p: int)
        requires
            self.wf(),
            forall|i: int| 0 <= i < cfg.len() ==> cfg[i] < self.spec_radix(),
            cfg.len() >= 1,
        ensures
            forall|j: int|
                0 <= j < self.spec_window(cfg, p).len() ==> #[trigger] self.spec_window(cfg, p)[j]
                    < self.spec_radix(),
            spec_encode(
                self.spec_is_code(),
                self.spec_window(cfg, p),
                self.spec_radix() as nat,
            ) <= usize::MAX,
    {
        let w = self.spec_window(cfg, p);
        let rx = self.spec_radix() as nat;
        assert forall|j: int| 0 <= j < w.len() implies #[trigger] w[j] < self.spec_radix() by {
            let i = p - self.spec_side() + j;
            if self.spec_border() is Ring {
                assert(0 <= i % (cfg.len() as int) < cfg.len() as int);
            }
        }
        if self.spec_is_code() {
            lemma_sum_bound(w, rx);
            assert((rx - 1) * w.len() <= (rx - 1) * (self.spec_nabor_size() as int));
        } else {
            lemma_pos_bound(w, rx);
        }
    }

    /// One generation under the ring border: out-of-range neighbors wrap.
    fn eval_ring(&self, config: &Lattice) -> (next: Lattice)
        requires
            self.wf(),
            self.spec_border() is Ring,
            config@.len() >= 1,
            forall|i: int| 0 <= i < config@.len() ==> config@[i] < self.spec_radix(),
            config@.len() + self.spec_side() <= i32::MAX,
        ensures
            next@ == self.spec_step(config@),
    {
        let ghost cfg = config@;
        let mut next: Vec<Cell> = Vec::with_capacity(config.len());
        let nabor_size = self.nabor_size as usize;
        let nabor_side = ((self.nabor_size - 1) / 2) as usize;
        let mut nabors: Vec<Cell> = Vec::with_capacity(nabor_size);
        let mut idx: usize = 0;
        while idx < config.len()
            invariant
                self.wf(),
                self.spec_border() is Ring,
                cfg == config@,
                cfg.len() >= 1,
                forall|i: int| 0 <= i < cfg.len() ==> cfg[i] < self.spec_radix(),
                cfg.len() + self.spec_side() <= i32::MAX,
                nabor_size == self.spec_nabor_size(),
                nabor_side == self.spec_side(),
                idx <= cfg.len(),
                nabors@.len() == 0,
                next@.len() == idx,
                forall|q: int| 0 <= q < idx ==> next@[q] == self.spec_step(cfg)[q],
            decreases cfg.len() - idx,
        {
            let ghost w = self.spec_window(cfg, idx as int);
            let mut i: i32 = idx as i32 - nabor_side as i32;
            let mut j: usize = 0;
            while j < nabor_size
                invariant
                    self.wf(),
                    self.spec_border() is Ring,
                    cfg == config@,
                    cfg.len() >= 1,
                    cfg.len() + self.spec_side() <= i32::MAX,
                    nabor_size == self.spec_nabor_size(),
                    nabor_side == self.spec_side(),
                    idx < cfg.len(),
                    j <= nabor_size,
                    i as int == idx - nabor_side + j,
                    w == self.spec_window(cfg, idx as int),
                    nabors@.len() == j,
                    forall|q: int| 0 <= q < j ==> nabors@[q] == w[q],
                decreases nabor_size - j,
            {
                nabors.push(config[idx_mod(i, config.len())]);
                i += 1;
                j += 1;
            }
            proof {
                assert(nabors@ =~= w);
                self.lemma_window_encodable(cfg, idx as int);
            }
            next.push(self.rule.eval(&nabors));
            nabors.clear();
            idx += 1;
        }
        proof {
            assert(next@ =~= self.spec_step(cfg));
        }
        next
    }

    /// One generation under the fixed border: out-of-range neighbors read
    /// as the zero symbol.
    fn eval_fixed(&self, config: &Lattice) -> (next: Lattice)
        requires
            self.wf(),
            self.spec_border() is Fixed,
            config@.len() >= 1,
            forall|i: int| 0 <= i < config@.len() ==> config@[i] < self.spec_radix(),
            config@.len() + self.spec_side() <= i32::MAX,
        ensures
            next@ == self.spec_step(config@),
    {
        let ghost cfg = config@;
        let mut next: Vec<Cell> = Vec::with_capacity(config.len());
        let nabor_size = self.nabor_size as usize;
        let nabor_side = ((self.nabor_size - 1) / 2) as usize;
        let mut nabors: Vec<Cell> = Vec::with_capacity(nabor_size);
        let mut idx: usize = 0;
        while idx < config.len()
            invariant
                self.wf(),
                self.spec_border() is Fixed,
                cfg == config@,
                cfg.len() >= 1,
                forall|i: int| 0 <= i < cfg.len() ==> cfg[i] < self.spec_radix(),
                cfg.len() + self.spec_side() <= i32::MAX,
                nabor_size == self.spec_nabor_size(),
                nabor_side == self.spec_side(),
                idx <= cfg.len(),
                nabors@.len() == 0,
                next@.len() == idx,
                forall|q: int| 0 <= q < idx ==> next@[q] == self.spec_step(cfg)[q],
            decreases cfg.len() - idx,
        {
            let ghost w = self.spec_window(cfg, idx as int);
            let mut i: i32 = idx as i32 - nabor_side as i32;
            let mut j: usize = 0;
            while j < nabor_size
                invariant
                    self.wf(),
                    self.spec_border() is Fixed,
                    cfg == config@,
                    cfg.len() >= 1,
                    cfg.len() + self.spec_side() <= i32::MAX,
                    nabor_size == self.spec_nabor_size(),
                    nabor_side == self.spec_side(),
                    idx < cfg.len(),
                    j <= nabor_size,
                    i as int == idx - nabor_side + j,
                    w == self.spec_window(cfg, idx as int),
                    nabors@.len() == j,
                    forall|q: int| 0 <= q < j ==> nabors@[q] == w[q],
                decreases nabor_size - j,
            {
                if i < 0 || i >= config.len() as i32 {
                    nabors.push(CELL0);
                } else {
                    nabors.push(config[i as usize]);
                }
                i += 1;
                j += 1;
            }
            proof {
                assert(nabors@ =~= w);
                self.lemma_window_encodable(cfg, idx as int);
            }
            next.push(self.rule.eval(&nabors));
            nabors.clear();
            idx += 1;
        }
        proof {
            assert(next@ =~= self.spec_step(cfg));
        }
        next
    }

    /// The generation transition function: one full synchronous step under
    /// the chosen border policy. The input lattice is only read; the next
    /// generation is a fresh lattice of the same length.
    pub fn gtf(&self, config: &Lattice) -> (next: Lattice)
        requires
            self.wf(),
            config@.len() >= 1,
            forall|i: int| 0 <= i < config@.len() ==> config@[i] < self.spec_radix(),
            config@.len() + self.spec_side() <= i32::MAX,
        ensures
            next@ == self.spec_step(config@),
            next@.len() == config@.len(),
            forall|i: int| 0 <= i < next@.len() ==> next@[i] < self.spec_radix(),
    {
        proof {
            self.lemma_step_bounded(config@);
        }
        match self.border {
            Border::Ring => self.eval_ring(config),
            Border::Fixed => self.eval_fixed(config),
        }
    }

    /// One rule-table entry, looked up by index; an absent index reads as
    /// the zero symbol.
    pub fn rule_lookup(&self, idx: usize) -> (r: Cell)
        ensures
            r == table_at(self.spec_table(), idx as nat),
    {
        self.rule.eval_idx(idx)
    }

    /// How many entries the sparse rule table holds: one for each non-zero
    /// digit of the rule number.
    pub fn table_len(&self) -> (r: usize)
        ensures
            r == self.spec_table().dom().len(),
    {
        self.rule.table_len()
    }

    /// Every symbol a step produces is a rule-table digit or the default
    /// zero, so always below the radix.
    pub proof fn lemma_step_bounded(&self, cfg: Seq<Cell>)
        requires
            self.wf(),
        ensures
            self.spec_step(cfg).len() == cfg.len(),
            forall|p: int|
                0 <= p < cfg.len() ==> #[trigger] self.spec_step(cfg)[p] < self.spec_radix(),
    {
        assert forall|p: int|
            0 <= p < cfg.len() implies #[trigger] self.spec_step(cfg)[p] < self.spec_radix() by {
            let e = spec_encode(
                self.spec_is_code(),
                self.spec_window(cfg, p),
                self.spec_radix() as nat,
            );
            if e <= usize::MAX && self.spec_table().contains_key(e as usize) {
                assert(table_at(self.spec_table(), e as usize as nat) == nth_digit(
                    self.spec_rule_number(),
                    self.spec_radix() as nat,
                    e as usize as nat,
                ));
            }
        }
    }

    /// Locality of the step: the new symbol at a position depends only on
    /// the window of cells the border policy resolves around it. Two
    /// lattices of one length whose resolved windows at `p` agree step to
    /// the same symbol at `p`.
    pub proof fn lemma_step_local(&self, a: Seq<Cell>, b: Seq<Cell>, p: int)
        requires
            self.wf(),
            a.len() == b.len(),
            0 <= p < a.len(),
            forall|o: int|
                p - self.spec_side() <= o <= p + self.spec_side() ==> #[trigger] self.spec_src(
                    a,
                    o,
                ) == self.spec_src(b, o),
        ensures
            self.spec_step(a)[p] == self.spec_step(b)[p],
    {
        assert(self.spec_window(a, p) =~= self.spec_window(b, p)) by {
            assert forall|j: int|
                0 <= j < self.spec_nabor_size() implies #[trigger] self.spec_src(
                    a,
                    p - self.spec_side() + j,
                ) == self.spec_src(b, p - self.spec_side() + j) by {
                let o = p - self.spec_side() + j;
                assert(p - self.spec_side() <= o <= p + self.spec_side());
            }
        }
    }

    /// Under the fixed border an all-zero lattice steps to an all-zero
    /// lattice whenever the rule maps the all-zero window index to the
    /// zero symbol.
    pub proof fn lemma_fixed_zero(&self, cfg: Seq<Cell>)
        requires
            self.wf(),
            self.spec_border() is Fixed,
            forall|i: int| 0 <= i < cfg.len() ==> cfg[i] == CELL0,
            table_at(self.spec_table(), 0) == CELL0,
        ensures
            forall|p: int| 0 <= p < cfg.len() ==> #[trigger] self.spec_step(cfg)[p] == CELL0,
    {
        assert forall|p: int| 0 <= p < cfg.len() implies #[trigger] self.spec_step(cfg)[p]
            == CELL0 by {
            let w = self.spec_window(cfg, p);
            assert(forall|j: int| 0 <= j < w.len() ==> #[trigger] w[j] == 0);
            lemma_zero_window_encodes_zero(w, self.spec_radix() as nat);
        }
    }
}

/// An all-zero window encodes to index 0 under either mode.
proof fn lemma_zero_window_encodes_zero(w: Seq<Cell>, radix: nat)
    requires
        forall|j: int| 0 <= j < w.len() ==> #[trigger] w[j] == 0,
    ensures
        sum_window(w) == 0,
        pos_value(w, radix) == 0,
    decreases w.len(),
{
    broadcast use vstd::arithmetic::mul::group_mul_basics;

    if w.len() > 0 {
        assert(forall|j: int|
            0 <= j < w.drop_last().len() ==> #[trigger] w.drop_last()[j] == w[j]);
        lemma_zero_window_encodes_zero(w.drop_last(), radix);
        assert(w.last() == 0);
        assert(sum_window(w) == sum_window(w.drop_last()) + w.last() as nat);
        assert(pos_value(w, radix) == pos_value(w.drop_last(), radix) * radix + w.last() as nat);
    } else {
        assert(sum_window(w) == 0);
        assert(pos_value(w, radix) == 0);
    }
}

} // verus!
