//! The run driver: iterates the generation step, discarding a skipped
//! prefix and collecting each retained generation in order.

use crate::automaton::CA;
use crate::digits::{Cell, Lattice};
use vstd::prelude::*;

verus! {

/// The lattice after `n` generations.
pub open spec fn spec_iterate(ca: CA, cfg: Seq<Cell>, n: nat) -> Seq<Cell>
    decreases n,
{
    if n == 0 {
        cfg
    } else {
        ca.spec_step(spec_iterate(ca, cfg, (n - 1) as nat))
    }
}

/// Iterating preserves the lattice length and keeps every symbol below
/// the radix.
pub proof fn lemma_iterate_wf(ca: CA, cfg: Seq<Cell>, n: nat)
    requires
        ca.wf(),
        forall|i: int| 0 <= i < cfg.len() ==> cfg[i] < ca.spec_radix(),
    ensures
        spec_iterate(ca, cfg, n).len() == cfg.len(),
        forall|i: int|
            0 <= i < cfg.len() ==> #[trigger] spec_iterate(ca, cfg, n)[i] < ca.spec_radix(),
    decreases n,
{
    if n > 0 {
        lemma_iterate_wf(ca, cfg, (n - 1) as nat);
        ca.lemma_step_bounded(spec_iterate(ca, cfg, (n - 1) as nat));
    }
}

/// An exact copy of a lattice.
fn copy_lattice(l: &Lattice) -> (r: Lattice)
    ensures
        r@ == l@,
{
    let mut r: Vec<Cell> = Vec::with_capacity(l.len());
    let mut i: usize = 0;
    while i < l.len()
        invariant
            i <= l@.len(),
            r@ == l@.take(i as int),
        decreases l@.len() - i,
    {
        r.push(l[i]);
        proof {
            assert(l@.take(i + 1) =~= l@.take(i as int).push(l@[i as int]));
        }
        i += 1;
    }
    proof {
        assert(l@.take(l@.len() as int) =~= l@);
    }
    r
}

/// Runs the automaton: `from` generations are stepped and discarded, then
/// `to` further generations are collected, each one captured before it is
/// stepped, in generation order. Returns the collected generations and the
/// final lattice, the one reached after `from + to` steps in all.
pub fn automate(from: usize, to: usize, ca: &CA, start_config: &Lattice) -> (r: (
    Vec<Lattice>,
    Lattice,
))
    requires
        ca.wf(),
        start_config@.len() >= 1,
        forall|i: int| 0 <= i < start_config@.len() ==> start_config@[i] < ca.spec_radix(),
        start_config@.len() + ca.spec_side() <= i32::MAX,
    ensures
        r.0@.len() == to,
        forall|g: int|
            0 <= g < to ==> #[trigger] r.0@[g]@ == spec_iterate(
                *ca,
                start_config@,
                (from + g) as nat,
            ),
        r.1@ == spec_iterate(*ca, start_config@, (from + to) as nat),
        r.1@.len() == start_config@.len(),
        forall|g: int| 0 <= g < to ==> #[trigger] r.0@[g]@.len() == start_config@.len(),
{
    proof {
        lemma_iterate_wf(*ca, start_config@, (from + to) as nat);
        assert forall|g: int| 0 <= g < to implies #[trigger] spec_iterate(
            *ca,
            start_config@,
            (from + g) as nat,
        ).len() == start_config@.len() by {
            lemma_iterate_wf(*ca, start_config@, (from + g) as nat);
        }
    }
    let ghost cfg0 = start_config@;
    let mut config = copy_lattice(start_config);
    let mut g: usize = 0;
    while g < from
        invariant
            ca.wf(),
            cfg0 == start_config@,
            cfg0.len() >= 1,
            forall|i: int| 0 <= i < cfg0.len() ==> cfg0[i] < ca.spec_radix(),
            cfg0.len() + ca.spec_side() <= i32::MAX,
            g <= from,
            config@ == spec_iterate(*ca, cfg0, g as nat),
        decreases from - g,
    {
        proof {
            lemma_iterate_wf(*ca, cfg0, g as nat);
        }
        config = ca.gtf(&config);
        proof {
            assert(spec_iterate(*ca, cfg0, (g + 1) as nat) == ca.spec_step(
                spec_iterate(*ca, cfg0, g as nat),
            ));
        }
        g += 1;
    }
    let mut lines: Vec<Lattice> = Vec::with_capacity(to);
    let mut h: usize = 0;
    while h < to
        invariant
            ca.wf(),
            cfg0 == start_config@,
            cfg0.len() >= 1,
            forall|i: int| 0 <= i < cfg0.len() ==> cfg0[i] < ca.spec_radix(),
            cfg0.len() + ca.spec_side() <= i32::MAX,
            h <= to,
            config@ == spec_iterate(*ca, cfg0, (from + h) as nat),
            lines@.len() == h,
            forall|q: int|
                0 <= q < h ==> #[trigger] lines@[q]@ == spec_iterate(
                    *ca,
                    cfg0,
                    (from + q) as nat,
                ),
        decreases to - h,
    {
        lines.push(copy_lattice(&config));
        proof {
            lemma_iterate_wf(*ca, cfg0, (from + h) as nat);
        }
        config = ca.gtf(&config);
        proof {
            assert(spec_iterate(*ca, cfg0, (from + h + 1) as nat) == ca.spec_step(
                spec_iterate(*ca, cfg0, (from + h) as nat),
            ));
        }
        h += 1;
    }
    (lines, config)
}

} // verus!
