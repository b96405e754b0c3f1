//! Filter alignment records by how much of their sequence was clipped.
//!
//! An upstream aligner may soft- or hard-clip bases at either end of a read.
//! This library derives per-record clip statistics ([`clipping::ClipStat`]),
//! compares the clipped fractions against exact rational thresholds
//! ([`fraction::Fraction`]), and decides whether a record is kept, dropped,
//! or rewritten into an unaligned marker form ([`policy`]). A streaming
//! engine ([`engine::FilterEngine`]) applies the decision per record and
//! accumulates the run counters.
//!
//! All fraction comparisons are exact: a fraction `n / seq_len` is compared
//! against a threshold `num / den` by cross-multiplication, so threshold
//! boundaries behave precisely as stated, with no rounding.

pub mod clipping;
pub mod engine;
pub mod fraction;
pub mod policy;
