//! The keep/drop/unalign decision policy.
//!
//! A record passes when its total-clipped fraction is *strictly* below the
//! `both` threshold and each single-side fraction is *at most* its
//! threshold. The boundary asymmetry is deliberate: a record exactly at the
//! `both` threshold is rejected, one exactly at a single-side threshold is
//! accepted. A record whose sequence length is `0` has no well-defined
//! fraction; under the cross-multiplied comparison it fails the strict
//! `both` test for every threshold, so the chosen policy is that such a
//! record never passes (rather than aborting the run).

use vstd::prelude::*;

use crate::clipping::ClipStat;
use crate::clipping::all_nonneg;
use crate::clipping::seq_max;
use crate::clipping::seq_sum;
use crate::fraction::Fraction;

verus! {

/// Raw per-record clip counts and the stored sequence length, as the record
/// source reports them.
#[derive(Debug, Clone, Copy, PartialEq, Eq, Structural)]
pub struct ClipInput {
    /// soft-clipped bases at the 5' end
    pub leading_soft: i64,
    /// hard-clipped bases at the 5' end
    pub leading_hard: i64,
    /// soft-clipped bases at the 3' end
    pub trailing_soft: i64,
    /// hard-clipped bases at the 3' end
    pub trailing_hard: i64,
    /// number of bases in the record's stored sequence
    pub sequence_length: u64,
}

impl ClipInput {
    /// Well-formedness: clip counts are non-negative (the record format
    /// guarantees this; it is a precondition here, not re-validated) and
    /// their sum fits the count type.
    pub open spec fn wf(&self) -> bool {
        &&& self.leading_soft >= 0
        &&& self.leading_hard >= 0
        &&& self.trailing_soft >= 0
        &&& self.trailing_hard >= 0
        &&& self.leading_soft + self.leading_hard + self.trailing_soft + self.trailing_hard
            <= i64::MAX
    }

    /// Effective bases clipped at the 5' end: the larger of the soft and
    /// hard count.
    pub open spec fn left(&self) -> int {
        max2(self.leading_soft as int, self.leading_hard as int)
    }

    /// Effective bases clipped at the 3' end: the larger of the soft and
    /// hard count.
    pub open spec fn right(&self) -> int {
        max2(self.trailing_soft as int, self.trailing_hard as int)
    }

    /// Total raw clipped bases: the sum of all four counts.
    pub open spec fn total(&self) -> int {
        self.leading_soft + self.leading_hard + self.trailing_soft + self.trailing_hard
    }
}

/// The larger of two integers.
pub open spec fn max2(a: int, b: int) -> int {
    if a >= b {
        a
    } else {
        b
    }
}

/// The positional and flag metadata of one alignment record, together with
/// its clip counts. The record's sequence, qualities and tags stay with the
/// record source and are never touched by the policy.
#[derive(Debug, Clone, Copy, PartialEq, Eq, Structural)]
pub struct AlnRecord {
    /// raw clip counts and sequence length
    pub clip: ClipInput,
    /// whether the record is marked unmapped
    pub unmapped: bool,
    /// whether the reverse-strand flag is set
    pub reverse: bool,
    /// whether the properly-paired flag is set
    pub proper_pair: bool,
    /// reference/contig identifier; `-1` is the unmapped sentinel
    pub tid: i32,
    /// alignment position; `-1` is the unmapped sentinel
    pub pos: i64,
}

/// Configuration of one filter run.
#[derive(Debug, Clone, Copy, PartialEq, Eq, Structural)]
pub struct FilterConfig {
    /// maximum 5'-side clipped fraction that still passes (inclusive)
    pub left_threshold: Fraction,
    /// maximum 3'-side clipped fraction that still passes (inclusive)
    pub right_threshold: Fraction,
    /// bound on the total clipped fraction; a passing record is strictly
    /// below it
    pub both_threshold: Fraction,
    /// emit only the records that fail the test instead of those that pass
    pub inverse: bool,
    /// never drop a record: rewrite failing records to unaligned instead;
    /// takes priority over `inverse`
    pub unalign: bool,
}

impl FilterConfig {
    /// Well-formedness: every threshold is a fraction in `[0, 1]`.
    pub open spec fn wf(&self) -> bool {
        self.left_threshold.wf() && self.right_threshold.wf() && self.both_threshold.wf()
    }
}

/// What to do with one record.
#[derive(Debug, Clone, Copy, PartialEq, Eq, Structural)]
pub enum Action {
    /// forward the record unchanged
    Keep,
    /// discard the record; nothing is written
    Drop,
    /// rewrite the record into its unaligned marker form, then forward it
    RewriteUnaligned,
}

/// Whether a record with clip counts `ci` passes the thresholds: the total
/// fraction strictly below `both_threshold`, each side fraction at most its
/// threshold, all compared exactly by cross-multiplication. With
/// `sequence_length == 0` the strict comparison fails for every threshold:
/// such a record never passes.
pub open spec fn passes_spec(ci: ClipInput, cfg: FilterConfig) -> bool {
    let len = ci.sequence_length as int;
    &&& (ci.total() * cfg.both_threshold.den as int) < (cfg.both_threshold.num as int * len)
    &&& ci.left() * cfg.left_threshold.den as int <= cfg.left_threshold.num as int * len
    &&& ci.right() * cfg.right_threshold.den as int <= cfg.right_threshold.num as int * len
}

/// The action the policy picks for a given pass/fail outcome.
pub open spec fn action_spec(passes: bool, cfg: FilterConfig) -> Action {
    if cfg.unalign {
        if passes {
            Action::Keep
        } else {
            Action::RewriteUnaligned
        }
    } else if cfg.inverse {
        if !passes {
            Action::Keep
        } else {
            Action::Drop
        }
    } else {
        if passes {
            Action::Keep
        } else {
            Action::Drop
        }
    }
}

/// The action taken for a record: the policy applied to its pass outcome.
pub open spec fn decide_spec(rec: AlnRecord, cfg: FilterConfig) -> Action {
    action_spec(passes_spec(rec.clip, cfg), cfg)
}

/// The unaligned marker form of a record: unmapped flag set, reverse and
/// properly-paired flags cleared, reference id and position at the `-1`
/// sentinel; the clip counts (and the sequence they summarize) stay as they
/// were.
pub open spec fn unaligned_form(rec: AlnRecord) -> AlnRecord {
    AlnRecord {
        unmapped: true,
        reverse: false,
        proper_pair: false,
        tid: -1i32,
        pos: -1i64,
        ..rec
    }
}

/// Evaluate the threshold test for one record, exactly as
/// [`passes_spec`] states it.
pub fn record_passes(rec: &AlnRecord, cfg: &FilterConfig) -> (r: bool)
    requires
        rec.clip.wf(),
        cfg.wf(),
    ensures
        r == passes_spec(rec.clip, *cfg),
{
    let mut leading: Vec<i64> = Vec::new();
    leading.push(rec.clip.leading_soft);
    leading.push(rec.clip.leading_hard);
    let mut trailing: Vec<i64> = Vec::new();
    trailing.push(rec.clip.trailing_soft);
    trailing.push(rec.clip.trailing_hard);
    proof {
        assert(leading@ =~= seq![rec.clip.leading_soft, rec.clip.leading_hard]);
        assert(trailing@ =~= seq![rec.clip.trailing_soft, rec.clip.trailing_hard]);
        lemma_pair_max(rec.clip.leading_soft, rec.clip.leading_hard);
        lemma_pair_max(rec.clip.trailing_soft, rec.clip.trailing_hard);
        lemma_pair_sum(rec.clip.leading_soft, rec.clip.leading_hard);
        lemma_pair_sum(rec.clip.trailing_soft, rec.clip.trailing_hard);
    }
    let stat: ClipStat = ClipStat::new(leading, trailing);
    let seq_len: u64 = rec.clip.sequence_length;
    stat.total_fraction_below(seq_len, &cfg.both_threshold)
        && stat.left_fraction_at_most(seq_len, &cfg.left_threshold)
        && stat.right_fraction_at_most(seq_len, &cfg.right_threshold)
}

/// For a soft/hard pair the effective per-side clip is the larger of the
/// two counts — never their sum.
pub proof fn lemma_pair_max(s: i64, h: i64)
    ensures
        seq_max(seq![s, h]) == max2(s as int, h as int),
{
    reveal_with_fuel(seq_max, 3);
    assert(seq![s, h].drop_last() =~= seq![s]);
    assert(seq![s].drop_last() =~= Seq::<i64>::empty());
}

/// The total over a side sums the soft and hard counts.
pub proof fn lemma_pair_sum(s: i64, h: i64)
    ensures
        seq_sum(seq![s, h]) == s + h,
{
    reveal_with_fuel(seq_sum, 3);
    assert(seq![s, h].drop_last() =~= seq![s]);
    assert(seq![s].drop_last() =~= Seq::<i64>::empty());
}

/// Pick the action for a record whose pass outcome is `passes`.
pub fn decide_action(passes: bool, cfg: &FilterConfig) -> (a: Action)
    ensures
        a == action_spec(passes, *cfg),
{
    if cfg.unalign {
        if passes {
            Action::Keep
        } else {
            Action::RewriteUnaligned
        }
    } else if cfg.inverse {
        if !passes {
            Action::Keep
        } else {
            Action::Drop
        }
    } else {
        if passes {
            Action::Keep
        } else {
            Action::Drop
        }
    }
}

/// Rewrite a record into its unaligned marker form: all five metadata
/// fields are set together, nothing else changes.
pub fn rewrite_unaligned(rec: &AlnRecord) -> (r: AlnRecord)
    ensures
        r == unaligned_form(*rec),
{
    AlnRecord {
        unmapped: true,
        reverse: false,
        proper_pair: false,
        tid: -1,
        pos: -1,
        ..*rec
    }
}

/// Boundary asymmetry, rejecting side: a record whose total-clipped
/// fraction equals the `both` threshold exactly does not pass, whatever the
/// side fractions do.
pub proof fn lemma_total_at_threshold_rejected(ci: ClipInput, cfg: FilterConfig)
    requires
        ci.total() * cfg.both_threshold.den as int == cfg.both_threshold.num as int
            * ci.sequence_length as int,
    ensures
        !passes_spec(ci, cfg),
{
}

/// Boundary asymmetry, accepting side: a record whose 5'-side fraction
/// equals its threshold exactly still passes, provided the other two tests
/// pass.
pub proof fn lemma_side_at_threshold_accepted(ci: ClipInput, cfg: FilterConfig)
    requires
        ci.left() * cfg.left_threshold.den as int == cfg.left_threshold.num as int
            * ci.sequence_length as int,
        (ci.total() * cfg.both_threshold.den as int) < (cfg.both_threshold.num as int
            * ci.sequence_length as int),
        ci.right() * cfg.right_threshold.den as int <= cfg.right_threshold.num as int
            * ci.sequence_length as int,
    ensures
        passes_spec(ci, cfg),
{
}

/// The total always dominates each side, and it equals `left + right`
/// exactly when, per side, at most one of the soft and hard count is
/// non-zero (otherwise it exceeds the sum of the sides).
pub proof fn lemma_total_versus_sides(ci: ClipInput)
    requires
        ci.wf(),
    ensures
        ci.total() >= max2(ci.left(), ci.right()),
        (ci.total() == ci.left() + ci.right()) <==> ((ci.leading_soft == 0 || ci.leading_hard
            == 0) && (ci.trailing_soft == 0 || ci.trailing_hard == 0)),
{
}

/// The documented zero-length policy: a record that reports sequence length
/// `0` never passes, so it is dropped (or rewritten, under `unalign`)
/// rather than flowing through an undefined fraction.
pub proof fn lemma_zero_length_never_passes(ci: ClipInput, cfg: FilterConfig)
    requires
        ci.wf(),
        ci.sequence_length == 0,
    ensures
        !passes_spec(ci, cfg),
{
    assert(ci.total() * cfg.both_threshold.den as int >= 0) by (nonlinear_arith)
        requires
            ci.total() >= 0,
            cfg.both_threshold.den as int >= 0,
    ;
}

} // verus!
