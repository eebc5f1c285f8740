//! Core of the slide expression simplifier: exact polynomial and decimal arithmetic,
//! expression-pattern handling, and the supporting diagnostics.
use vstd::prelude::*;

pub mod bignum;
pub mod common;
pub mod diagnostics;
pub mod emit;
pub mod evaluator_rules;
pub mod grammar;
pub mod linter;
pub mod math;
pub mod text;

verus! {

} // verus!
