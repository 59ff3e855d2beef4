//! A verified core for a line-oriented pattern-search tool, together with
//! the numeric position parsing shared by its sibling utilities.
//!
//! The pipeline runs one direction: path specifiers are turned into a list
//! of readable sources, each source's lines are matched against a compiled
//! pattern (honoring inversion), and the matched lines are aggregated into
//! either a full listing or per-source counts.

pub mod aggregate;
pub mod matcher;
pub mod pattern;
pub mod positions;
pub mod search;
pub mod seqfacts;
pub mod text;
pub mod walk;

use vstd::prelude::*;

verus! {

/// Whether a single line is included by the search: a pattern hit,
/// flipped by the invert flag.
pub open spec fn included(hit: bool, invert: bool) -> bool {
    hit != invert
}

} // verus!
