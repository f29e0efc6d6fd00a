//! A minimal pattern-matching engine.
//!
//! A pattern string is compiled into an ordered sequence of match tokens,
//! one positional constraint per token.  The matcher then decides whether an
//! input line contains a contiguous substring that satisfies every token in
//! order, scanning candidate start offsets from left to right.

pub mod regex;
