use filter_clipped::clipping::ClipStat;
use filter_clipped::clipping::vec_to_max;
use filter_clipped::engine::FilterEngine;
use filter_clipped::engine::RunOutcome;
use filter_clipped::engine::run_records;
use filter_clipped::fraction::FilterError;
use filter_clipped::fraction::Fraction;
use filter_clipped::fraction::check_fraction;
use filter_clipped::fraction::frac_le;
use filter_clipped::fraction::frac_lt;
use filter_clipped::policy::Action;
use filter_clipped::policy::AlnRecord;
use filter_clipped::policy::ClipInput;
use filter_clipped::policy::FilterConfig;
use filter_clipped::policy::decide_action;
use filter_clipped::policy::record_passes;
use filter_clipped::policy::rewrite_unaligned;

fn tenth() -> Fraction {
    Fraction::new(1, 10)
}

fn config(left: Fraction, right: Fraction, both: Fraction, inverse: bool, unalign: bool) -> FilterConfig {
    FilterConfig { left_threshold: left, right_threshold: right, both_threshold: both, inverse, unalign }
}

fn record(leading_soft: i64, leading_hard: i64, trailing_soft: i64, trailing_hard: i64, sequence_length: u64) -> AlnRecord {
    AlnRecord {
        clip: ClipInput { leading_soft, leading_hard, trailing_soft, trailing_hard, sequence_length },
        unmapped: false,
        reverse: true,
        proper_pair: true,
        tid: 3,
        pos: 1000,
    }
}

/// Run a whole input through a fresh engine, applying each action as the
/// record sink would.
fn run_filter(records: &[AlnRecord], cfg: FilterConfig) -> (Vec<AlnRecord>, RunOutcome) {
    let mut engine = FilterEngine::new(cfg);
    let mut out: Vec<AlnRecord> = Vec::new();
    for rec in records {
        match engine.process(*rec) {
            Action::Keep => out.push(*rec),
            Action::Drop => (),
            Action::RewriteUnaligned => out.push(rewrite_unaligned(rec)),
        }
    }
    (out, engine.summary())
}

#[test]
fn test_vec_to_max() {
    assert_eq!(3, vec_to_max(vec![2, 3, 0]));
    assert_eq!(3, vec_to_max(vec![1, 2, 3]));
    assert_eq!(1, vec_to_max(vec![1, 0]));
    assert_eq!(0, vec_to_max(vec![]));
}

#[test]
fn test_clip_stat_max_per_side_not_sum() {
    // per side the larger count wins, never the sum
    let stat = ClipStat::new(vec![3, 5], vec![4, 1]);
    assert_eq!(5, stat.left());
    assert_eq!(4, stat.right());
    // while the total sums all four raw counts
    assert_eq!(13, stat.total_clipped());
}

#[test]
fn test_clip_stat_doc_example() {
    let stat = ClipStat::new(vec![0, 1], vec![0, 2]);
    assert_eq!(1, stat.left());
    assert_eq!(2, stat.right());
    assert_eq!(3, stat.total_clipped());
}

#[test]
fn test_clip_stat_fractions_exact() {
    // leading [2,0], trailing [0,2], length 10: left 0.2, right 0.2, total 0.4
    let stat = ClipStat::new(vec![2, 0], vec![0, 2]);
    assert!(stat.left_fraction_at_most(10, &Fraction::new(2, 10)));
    assert!(!stat.left_fraction_at_most(10, &Fraction::new(19, 100)));
    assert!(stat.right_fraction_at_most(10, &Fraction::new(2, 10)));
    assert!(!stat.right_fraction_at_most(10, &Fraction::new(19, 100)));
    assert!(stat.total_fraction_below(10, &Fraction::new(41, 100)));
    assert!(!stat.total_fraction_below(10, &Fraction::new(4, 10)));
}

#[test]
fn test_frac_comparisons() {
    // 10 / 20 == 0.5 exactly
    assert!(frac_le(10, 20, &Fraction::new(1, 2)));
    assert!(!frac_le(10, 20, &Fraction::new(49, 100)));
    assert!(!frac_lt(10, 20, &Fraction::new(1, 2)));
    assert!(frac_lt(10, 20, &Fraction::new(51, 100)));
    // 2 / 40 == 0.05 exactly
    assert!(frac_le(2, 40, &Fraction::new(5, 100)));
    assert!(!frac_lt(2, 40, &Fraction::new(5, 100)));
}

#[test]
fn test_check_fraction() {
    assert_eq!(check_fraction("1.0"), Ok(Fraction::new(10, 10)));
    assert_eq!(check_fraction("0.0"), Ok(Fraction::new(0, 10)));
    assert_eq!(check_fraction("0.5"), Ok(Fraction::new(5, 10)));
    assert_eq!(check_fraction("1"), Ok(Fraction::new(1, 1)));
    assert_eq!(check_fraction("0"), Ok(Fraction::new(0, 1)));
    assert_eq!(check_fraction(".25"), Ok(Fraction::new(25, 100)));
    assert_eq!(check_fraction("0.125"), Ok(Fraction::new(125, 1000)));
    // 19 fractional digits: the largest denominator the type can hold
    assert_eq!(
        check_fraction("0.1000000000000000000"),
        Ok(Fraction::new(1000000000000000000, 10000000000000000000))
    );
}

#[test]
fn test_check_fraction_rejects() {
    // out of [0, 1]
    assert_eq!(check_fraction("1.1"), Err(FilterError::InvalidThreshold));
    assert_eq!(check_fraction("-0.1"), Err(FilterError::InvalidThreshold));
    assert_eq!(check_fraction("2"), Err(FilterError::InvalidThreshold));
    assert_eq!(check_fraction("5."), Err(FilterError::InvalidThreshold));
    // malformed
    assert_eq!(check_fraction(""), Err(FilterError::InvalidThreshold));
    assert_eq!(check_fraction("."), Err(FilterError::InvalidThreshold));
    assert_eq!(check_fraction("0.1.2"), Err(FilterError::InvalidThreshold));
    assert_eq!(check_fraction("abc"), Err(FilterError::InvalidThreshold));
    assert_eq!(check_fraction("0.5e1"), Err(FilterError::InvalidThreshold));
    // more fractional digits than the fraction type can hold
    assert_eq!(
        check_fraction("0.10000000000000000000"),
        Err(FilterError::InvalidThreshold)
    );
}

#[test]
fn test_boundary_total_at_threshold_rejected() {
    // total fraction 1/10 equals both_threshold exactly: strict bound, rejected
    let cfg = config(tenth(), tenth(), tenth(), false, false);
    let rec = record(1, 0, 0, 0, 10);
    assert!(!record_passes(&rec, &cfg));
}

#[test]
fn test_boundary_side_at_threshold_accepted() {
    // left fraction 1/10 equals left_threshold exactly: inclusive bound,
    // accepted while the total stays strictly below both_threshold
    let cfg = config(tenth(), tenth(), Fraction::new(9, 10), false, false);
    let rec = record(1, 0, 0, 0, 10);
    assert!(record_passes(&rec, &cfg));
}

#[test]
fn test_zero_length_never_passes() {
    let cfg = config(Fraction::new(1, 1), Fraction::new(1, 1), Fraction::new(1, 1), false, false);
    let rec = record(0, 0, 0, 0, 0);
    assert!(!record_passes(&rec, &cfg));
    let (out, outcome) = run_filter(&[rec], cfg);
    assert_eq!(out.len(), 0);
    assert_eq!(outcome.records_read, 1);
    assert_eq!(outcome.records_written, 0);
}

#[test]
fn test_decide_action_branches() {
    let plain = config(tenth(), tenth(), tenth(), false, false);
    assert_eq!(decide_action(true, &plain), Action::Keep);
    assert_eq!(decide_action(false, &plain), Action::Drop);
    let inverse = config(tenth(), tenth(), tenth(), true, false);
    assert_eq!(decide_action(true, &inverse), Action::Drop);
    assert_eq!(decide_action(false, &inverse), Action::Keep);
    // unalign takes priority over inverse
    let unalign = config(tenth(), tenth(), tenth(), true, true);
    assert_eq!(decide_action(true, &unalign), Action::Keep);
    assert_eq!(decide_action(false, &unalign), Action::RewriteUnaligned);
}

#[test]
fn test_rewrite_unaligned_fields() {
    let rec = record(0, 0, 2, 0, 10);
    let rewritten = rewrite_unaligned(&rec);
    assert!(rewritten.unmapped);
    assert!(!rewritten.reverse);
    assert!(!rewritten.proper_pair);
    assert_eq!(rewritten.tid, -1);
    assert_eq!(rewritten.pos, -1);
    // the clip counts (and the sequence they summarize) stay untouched
    assert_eq!(rewritten.clip, rec.clip);
}

#[test]
fn test_failing_record_is_dropped() {
    // trailing soft clip 2 of 10 bases: right fraction 0.2 > 0.1, fails
    let cfg = config(tenth(), tenth(), tenth(), false, false);
    let rec = record(0, 0, 2, 0, 10);
    let (out, outcome) = run_filter(&[rec], cfg);
    assert_eq!(out.len(), 0);
    assert_eq!(outcome.records_read, 1);
    assert_eq!(outcome.records_written, 0);
    assert_eq!(outcome.records_rewritten, 0);
}

#[test]
fn test_failing_record_written_under_inverse() {
    let cfg = config(tenth(), tenth(), tenth(), true, false);
    let rec = record(0, 0, 2, 0, 10);
    let (out, outcome) = run_filter(&[rec], cfg);
    assert_eq!(out, vec![rec]);
    assert_eq!(outcome.records_read, 1);
    assert_eq!(outcome.records_written, 1);
    assert_eq!(outcome.records_rewritten, 0);
}

#[test]
fn test_failing_record_rewritten_under_unalign() {
    let cfg = config(tenth(), tenth(), tenth(), false, true);
    let rec = record(0, 0, 2, 0, 10);
    let (out, outcome) = run_filter(&[rec], cfg);
    assert_eq!(out.len(), 1);
    assert!(out[0].unmapped);
    assert_eq!(out[0].tid, -1);
    assert_eq!(out[0].pos, -1);
    assert_eq!(outcome.records_read, 1);
    assert_eq!(outcome.records_written, 1);
    assert_eq!(outcome.records_rewritten, 1);
}

fn mixed_records() -> Vec<AlnRecord> {
    vec![
        record(0, 0, 0, 0, 10),  // passes
        record(0, 0, 2, 0, 10),  // fails on the right side
        record(1, 0, 0, 0, 10),  // passes at the left boundary
        record(0, 3, 0, 0, 10),  // fails on the left side
        record(0, 0, 0, 0, 0),   // zero length, never passes
    ]
}

#[test]
fn test_filter_idempotent() {
    let cfg = config(tenth(), tenth(), Fraction::new(9, 10), false, false);
    let (first, _) = run_filter(&mixed_records(), cfg);
    let (second, outcome) = run_filter(&first, cfg);
    assert_eq!(first, second);
    assert_eq!(outcome.records_read as usize, first.len());
    assert_eq!(outcome.records_written as usize, first.len());
}

#[test]
fn test_inverse_partitions_input() {
    let records = mixed_records();
    let cfg = config(tenth(), tenth(), Fraction::new(9, 10), false, false);
    let inv = config(tenth(), tenth(), Fraction::new(9, 10), true, false);
    let (kept, k_outcome) = run_filter(&records, cfg);
    let (dropped, d_outcome) = run_filter(&records, inv);
    assert_eq!(kept.len() + dropped.len(), records.len());
    assert_eq!(
        k_outcome.records_written + d_outcome.records_written,
        records.len() as u64
    );
    // no record appears on both sides, every record on exactly one
    for rec in &records {
        let in_kept = kept.iter().filter(|r| *r == rec).count();
        let in_dropped = dropped.iter().filter(|r| *r == rec).count();
        assert_eq!(in_kept + in_dropped, 1);
    }
}

#[test]
fn test_unalign_writes_everything() {
    let records = mixed_records();
    let cfg = config(tenth(), tenth(), Fraction::new(9, 10), false, true);
    let (out, outcome) = run_filter(&records, cfg);
    assert_eq!(out.len(), records.len());
    assert_eq!(outcome.records_read, records.len() as u64);
    assert_eq!(outcome.records_written, outcome.records_read);
    for (orig, written) in records.iter().zip(out.iter()) {
        if *written == *orig {
            // kept unchanged: it passed
            assert!(record_passes(orig, &cfg));
        } else {
            // rewritten: unaligned marker form of the input record
            assert!(!record_passes(orig, &cfg));
            assert_eq!(*written, rewrite_unaligned(orig));
            assert!(written.unmapped);
            assert!(!written.reverse);
            assert!(!written.proper_pair);
            assert_eq!(written.tid, -1);
            assert_eq!(written.pos, -1);
        }
    }
}

#[test]
fn test_run_records_matches_per_record_api() {
    let records = mixed_records();
    for cfg in [
        config(tenth(), tenth(), Fraction::new(9, 10), false, false),
        config(tenth(), tenth(), Fraction::new(9, 10), true, false),
        config(tenth(), tenth(), Fraction::new(9, 10), false, true),
    ] {
        let (manual_out, manual_outcome) = run_filter(&records, cfg);
        let (out, outcome) = run_records(&records, cfg);
        assert_eq!(out, manual_out);
        assert_eq!(outcome, manual_outcome);
    }
}

#[test]
fn test_ten_record_scenario() {
    // ten identical records, each failing the right-side threshold
    let rec = record(0, 0, 2, 0, 10);
    let records = vec![rec; 10];
    let cfg = config(tenth(), tenth(), tenth(), false, false);
    let (out, outcome) = run_filter(&records, cfg);
    assert_eq!(out.len(), 0);
    assert_eq!(outcome.records_read, 10);
    assert_eq!(outcome.records_written, 0);
}
