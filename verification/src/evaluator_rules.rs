//! Grammar-to-grammar rewriting rules: variable patterns, pattern matching and rules.
pub mod variables;
pub mod pattern_match;
pub mod pattern_match_pat;
pub mod rule;
pub mod fn_rules;
pub mod apply;
pub mod registry;
