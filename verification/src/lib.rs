//! Verified core of the karukan input method: candidate lists and the
//! special-conversion rewriter (dates, times, eras, arithmetic, code points).
use vstd::prelude::*;

pub mod calendar;
pub mod candidate;
pub mod engine;
pub mod era;
pub mod special;
pub mod expression;
pub mod learning;
pub mod table;
pub mod text;

verus! {
} // verus!
