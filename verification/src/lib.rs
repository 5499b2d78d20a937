//! One-dimensional, N-symbol cellular automata.
//!
//! A rule (or code) number, given as an arbitrary-precision integer, is
//! decomposed radix-wise into a sparse neighborhood-index to symbol table;
//! that table is applied across a fixed-length lattice of cells under a
//! chosen border policy to produce each next generation.

mod automaton;
mod bignum;
mod canon;
mod config;
mod digits;
mod driver;
mod render;
mod rulespec;
mod table;
mod text;

pub use automaton::idx_mod;
pub use automaton::index_fits;
pub use automaton::Border;
pub use automaton::CA;
pub use bignum::big_value;
pub use bignum::lit_valid;
pub use bignum::lit_value;
pub use bignum::strip_plus;
pub use canon::lemma_canon_padding;
pub use canon::spec_canon;
pub use canon::trim_leading;
pub use canon::trim_trailing;
pub use canon::zero_run;
pub use config::check_index_fits;
pub use config::make_config;
pub use config::spec_make_config;
pub use config::spec_valid_opts;
pub use config::validate_opts;
pub use digits::char_digit;
pub use digits::digit_char;
pub use digits::from_char;
pub use digits::from_digit;
pub use digits::Cell;
pub use digits::Lattice;
pub use digits::CELL0;
pub use driver::automate;
pub use driver::lemma_iterate_wf;
pub use driver::spec_iterate;
pub use render::idx_select;
pub use render::spec_idx_select;
pub use render::spec_output_name;
pub use render::Output;
pub use rulespec::spec_parse;
pub use rulespec::spec_strip_base;
pub use rulespec::spec_strip_mode;
pub use rulespec::CAEvalType;
pub use table::lemma_pos_bound;
pub use table::lemma_sum_bound;
pub use table::nth_digit;
pub use table::pos_value;
pub use table::spec_encode;
pub use table::sum_window;
pub use table::table_at;
