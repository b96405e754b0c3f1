//! Per-record clip statistics.
//!
//! A record's clip operations are reported as four raw counts: soft- and
//! hard-clipped bases at the leading (5') end, and the same at the trailing
//! (3') end. [`ClipStat`] summarizes them: per side the *larger* of the two
//! counts (the two clip kinds describe the same trimmed region, so they are
//! not added), and a total that is the *sum* of all four raw counts.

use vstd::prelude::*;

use crate::fraction::Fraction;

verus! {

/// Maximum element of a sequence, `0` for the empty sequence.
pub open spec fn seq_max(s: Seq<i64>) -> int
    decreases s.len(),
{
    if s.len() == 0 {
        0
    } else if s.len() == 1 {
        s[0] as int
    } else {
        let m = seq_max(s.drop_last());
        if s.last() as int > m {
            s.last() as int
        } else {
            m
        }
    }
}

/// Sum of the elements of a sequence.
pub open spec fn seq_sum(s: Seq<i64>) -> int
    decreases s.len(),
{
    if s.len() == 0 {
        0
    } else {
        seq_sum(s.drop_last()) + s.last()
    }
}

/// All elements of the sequence are non-negative.
pub open spec fn all_nonneg(s: Seq<i64>) -> bool {
    forall|i: int| 0 <= i < s.len() ==> s[i] >= 0
}

/// A prefix of a sequence of non-negative elements sums to no more than the
/// whole sequence.
proof fn lemma_seq_sum_prefix_le(s: Seq<i64>, i: int)
    requires
        all_nonneg(s),
        0 <= i <= s.len(),
    ensures
        seq_sum(s.subrange(0, i)) <= seq_sum(s),
        seq_sum(s.subrange(0, i)) >= 0,
    decreases s.len() - i,
{
    assert(all_nonneg(s.subrange(0, i)));
    lemma_seq_sum_nonneg(s.subrange(0, i));
    if i == s.len() {
        assert(s.subrange(0, i) =~= s);
    } else {
        lemma_seq_sum_prefix_le(s, i + 1);
        assert(s.subrange(0, i + 1).drop_last() =~= s.subrange(0, i));
        assert(seq_sum(s.subrange(0, i + 1)) == seq_sum(s.subrange(0, i)) + s[i]);
    }
}

/// The sum of a sequence of non-negative elements is non-negative.
proof fn lemma_seq_sum_nonneg(s: Seq<i64>)
    requires
        all_nonneg(s),
    ensures
        seq_sum(s) >= 0,
    decreases s.len(),
{
    if s.len() > 0 {
        assert(all_nonneg(s.drop_last()));
        lemma_seq_sum_nonneg(s.drop_last());
    }
}

/// For a sequence of non-negative elements, the maximum is at most the sum.
proof fn lemma_seq_max_le_sum(s: Seq<i64>)
    requires
        all_nonneg(s),
    ensures
        seq_max(s) <= seq_sum(s),
        seq_max(s) >= 0,
    decreases s.len(),
{
    if s.len() == 0 {
    } else if s.len() == 1 {
        assert(seq_sum(s.drop_last()) == 0);
    } else {
        assert(all_nonneg(s.drop_last()));
        lemma_seq_max_le_sum(s.drop_last());
    }
}

/// Largest value in a list of clip counts, `0` if the list is empty.
pub fn vec_to_max(clip_vec: Vec<i64>) -> (r: i64)
    ensures
        r == seq_max(clip_vec@),
{
    if clip_vec.len() == 0 {
        return 0;
    }
    let mut m: i64 = clip_vec[0];
    let mut i: usize = 1;
    while i < clip_vec.len()
        invariant
            1 <= i <= clip_vec@.len(),
            m == seq_max(clip_vec@.subrange(0, i as int)),
        decreases clip_vec@.len() - i,
    {
        proof {
            assert(clip_vec@.subrange(0, i + 1).drop_last() =~= clip_vec@.subrange(0, i as int));
        }
        if clip_vec[i] > m {
            m = clip_vec[i];
        }
        i = i + 1;
    }
    proof {
        assert(clip_vec@.subrange(0, clip_vec@.len() as int) =~= clip_vec@);
    }
    m
}

/// Clip statistics for one alignment record: the effective number of clipped
/// bases per side (the larger of the soft and hard count), and the total of
/// all four raw counts.
#[derive(Debug)]
pub struct ClipStat {
    /// number of bases clipped at the 5' end
    left: i64,
    /// number of bases clipped at the 3' end
    right: i64,
    /// total number of raw clip-operation bases over both sides
    total_clipped: i64,
}

impl ClipStat {
    /// Bases clipped at the 5' end, as the contracts speak of it.
    pub closed spec fn spec_left(&self) -> int {
        self.left as int
    }

    /// Bases clipped at the 3' end, as the contracts speak of it.
    pub closed spec fn spec_right(&self) -> int {
        self.right as int
    }

    /// Total raw clipped bases, as the contracts speak of it.
    pub closed spec fn spec_total(&self) -> int {
        self.total_clipped as int
    }

    /// Well-formedness: counts are non-negative and the total dominates each
    /// side, which holds of every statistic built from non-negative raw
    /// counts.
    pub open spec fn wf(&self) -> bool {
        &&& self.spec_left() >= 0
        &&& self.spec_right() >= 0
        &&& self.spec_total() >= self.spec_left()
        &&& self.spec_total() >= self.spec_right()
    }

    /// Build the statistics from the raw clip counts of one record.
    ///
    /// `leading_clipped` holds the soft- and hard-clip counts at the 5' end,
    /// `tailing_clipped` the same at the 3' end. Per side the effective clip
    /// is the maximum of the listed counts; the total is the sum of all of
    /// them.
    pub fn new(leading_clipped: Vec<i64>, tailing_clipped: Vec<i64>) -> (r: Self)
        requires
            all_nonneg(leading_clipped@),
            all_nonneg(tailing_clipped@),
            seq_sum(leading_clipped@) + seq_sum(tailing_clipped@) <= i64::MAX,
        ensures
            r.spec_left() == seq_max(leading_clipped@),
            r.spec_right() == seq_max(tailing_clipped@),
            r.spec_total() == seq_sum(leading_clipped@) + seq_sum(tailing_clipped@),
            r.wf(),
    {
        proof {
            lemma_seq_max_le_sum(leading_clipped@);
            lemma_seq_max_le_sum(tailing_clipped@);
            lemma_seq_sum_nonneg(leading_clipped@);
            lemma_seq_sum_nonneg(tailing_clipped@);
        }
        let all_clipped = sum_vec(&leading_clipped) + sum_vec(&tailing_clipped);
        Self {
            left: vec_to_max(leading_clipped),
            right: vec_to_max(tailing_clipped),
            total_clipped: all_clipped,
        }
    }

    /// Bases clipped at the 5' end.
    pub fn left(&self) -> (r: i64)
        ensures
            r == self.spec_left(),
    {
        self.left
    }

    /// Bases clipped at the 3' end.
    pub fn right(&self) -> (r: i64)
        ensures
            r == self.spec_right(),
    {
        self.right
    }

    /// Total raw clipped bases over both sides.
    pub fn total_clipped(&self) -> (r: i64)
        ensures
            r == self.spec_total(),
    {
        self.total_clipped
    }

    /// Whether the 5'-clipped fraction of the sequence is at most `thr`,
    /// that is `left / seq_len <= thr`, compared exactly.
    pub fn left_fraction_at_most(&self, seq_len: u64, thr: &Fraction) -> (r: bool)
        requires
            self.wf(),
            thr.wf(),
        ensures
            r == (self.spec_left() * thr.den as int <= thr.num as int * seq_len as int),
    {
        crate::fraction::frac_le(self.left, seq_len, thr)
    }

    /// Whether the 3'-clipped fraction of the sequence is at most `thr`,
    /// that is `right / seq_len <= thr`, compared exactly.
    pub fn right_fraction_at_most(&self, seq_len: u64, thr: &Fraction) -> (r: bool)
        requires
            self.wf(),
            thr.wf(),
        ensures
            r == (self.spec_right() * thr.den as int <= thr.num as int * seq_len as int),
    {
        crate::fraction::frac_le(self.right, seq_len, thr)
    }

    /// Whether the total-clipped fraction of the sequence is strictly below
    /// `thr`, that is `total_clipped / seq_len < thr`, compared exactly.
    pub fn total_fraction_below(&self, seq_len: u64, thr: &Fraction) -> (r: bool)
        requires
            self.wf(),
            thr.wf(),
        ensures
            r == ((self.spec_total() * thr.den as int) < (thr.num as int * seq_len as int)),
    {
        crate::fraction::frac_lt(self.total_clipped, seq_len, thr)
    }
}

/// Sum of a list of non-negative clip counts.
fn sum_vec(v: &Vec<i64>) -> (r: i64)
    requires
        all_nonneg(v@),
        seq_sum(v@) <= i64::MAX,
    ensures
        r == seq_sum(v@),
{
    let mut acc: i64 = 0;
    let mut i: usize = 0;
    while i < v.len()
        invariant
            0 <= i <= v@.len(),
            acc == seq_sum(v@.subrange(0, i as int)),
            all_nonneg(v@),
            seq_sum(v@) <= i64::MAX,
        decreases v@.len() - i,
    {
        proof {
            assert(v@.subrange(0, i + 1).drop_last() =~= v@.subrange(0, i as int));
            lemma_seq_sum_prefix_le(v@, i + 1);
            lemma_seq_sum_prefix_le(v@, i as int);
        }
        acc = acc + v[i];
        i = i + 1;
    }
    proof {
        assert(v@.subrange(0, v@.len() as int) =~= v@);
    }
    acc
}

} // verus!
