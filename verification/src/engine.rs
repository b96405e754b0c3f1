//! The streaming filter engine and the laws of a whole run.
//!
//! [`FilterEngine`] processes one record at a time: it evaluates the
//! decision policy, tells the caller what to do with the record, and keeps
//! the run counters. [`run_model`] is the mathematical model of a whole run:
//! the sequence of records the sink receives for a given input sequence and
//! configuration. The engine's counters are proved to agree with that model
//! at every step.

use vstd::prelude::*;

use crate::policy::Action;
use crate::policy::AlnRecord;
use crate::policy::FilterConfig;
use crate::policy::decide_action;
use crate::policy::decide_spec;
use crate::policy::passes_spec;
use crate::policy::record_passes;
use crate::policy::rewrite_unaligned;
use crate::policy::unaligned_form;

verus! {

/// What the sink receives for one record: the record itself when it is
/// kept, its unaligned marker form when it is rewritten, nothing when it is
/// dropped.
pub open spec fn written_form(rec: AlnRecord, cfg: FilterConfig) -> Option<AlnRecord> {
    match decide_spec(rec, cfg) {
        Action::Keep => Some(rec),
        Action::Drop => None,
        Action::RewriteUnaligned => Some(unaligned_form(rec)),
    }
}

/// Whether anything at all is written for this record.
pub open spec fn kept_spec(rec: AlnRecord, cfg: FilterConfig) -> bool {
    written_form(rec, cfg) is Some
}

/// The output of one record as a sequence: one element when something is
/// written, empty when the record is dropped.
pub open spec fn write_seq(rec: AlnRecord, cfg: FilterConfig) -> Seq<AlnRecord> {
    match written_form(rec, cfg) {
        Some(r) => seq![r],
        None => Seq::<AlnRecord>::empty(),
    }
}

/// The sequence of records the sink receives for the input sequence `s`,
/// in input order.
pub open spec fn run_model(s: Seq<AlnRecord>, cfg: FilterConfig) -> Seq<AlnRecord>
    decreases s.len(),
{
    if s.len() == 0 {
        Seq::<AlnRecord>::empty()
    } else {
        run_model(s.drop_last(), cfg) + write_seq(s.last(), cfg)
    }
}

/// How many records of `s` the policy rewrites to unaligned.
pub open spec fn rewritten_count(s: Seq<AlnRecord>, cfg: FilterConfig) -> int
    decreases s.len(),
{
    if s.len() == 0 {
        0
    } else {
        rewritten_count(s.drop_last(), cfg) + (if decide_spec(s.last(), cfg)
            == Action::RewriteUnaligned {
            1int
        } else {
            0int
        })
    }
}

/// A run writes at most as many records as it reads, and rewrites at most
/// as many as it writes.
proof fn lemma_run_model_bounds(s: Seq<AlnRecord>, cfg: FilterConfig)
    ensures
        run_model(s, cfg).len() <= s.len(),
        0 <= rewritten_count(s, cfg) <= run_model(s, cfg).len(),
    decreases s.len(),
{
    if s.len() > 0 {
        lemma_run_model_bounds(s.drop_last(), cfg);
    }
}

/// Extending the input by one record extends the model output by that
/// record's output.
proof fn lemma_run_model_push(s: Seq<AlnRecord>, cfg: FilterConfig, rec: AlnRecord)
    ensures
        run_model(s.push(rec), cfg) == run_model(s, cfg) + write_seq(rec, cfg),
        rewritten_count(s.push(rec), cfg) == rewritten_count(s, cfg) + (if decide_spec(rec, cfg)
            == Action::RewriteUnaligned {
            1int
        } else {
            0int
        }),
{
    assert(s.push(rec).drop_last() =~= s);
    assert(s.push(rec).last() == rec);
}

/// The model distributes over concatenation of inputs.
proof fn lemma_run_model_append(a: Seq<AlnRecord>, b: Seq<AlnRecord>, cfg: FilterConfig)
    ensures
        run_model(a + b, cfg) == run_model(a, cfg) + run_model(b, cfg),
    decreases b.len(),
{
    if b.len() == 0 {
        assert(a + b =~= a);
        assert(run_model(a, cfg) + run_model(b, cfg) =~= run_model(a, cfg));
    } else {
        lemma_run_model_append(a, b.drop_last(), cfg);
        assert((a + b).drop_last() =~= a + b.drop_last());
        assert((a + b).last() == b.last());
        assert(run_model(a, cfg) + run_model(b.drop_last(), cfg) + write_seq(b.last(), cfg)
            =~= run_model(a, cfg) + (run_model(b.drop_last(), cfg) + write_seq(b.last(), cfg)));
    }
}

/// Filtering is idempotent when nothing is rewritten: feeding a run's
/// output back through the same configuration returns it unchanged,
/// because every record the run keeps is forwarded unchanged and still
/// passes (or, under `inverse`, still fails) the same test.
pub proof fn lemma_filter_idempotent(s: Seq<AlnRecord>, cfg: FilterConfig)
    requires
        !cfg.unalign,
    ensures
        run_model(run_model(s, cfg), cfg) == run_model(s, cfg),
    decreases s.len(),
{
    if s.len() == 0 {
        assert(run_model(run_model(s, cfg), cfg) =~= run_model(s, cfg));
    } else {
        let d = s.drop_last();
        let r = s.last();
        lemma_filter_idempotent(d, cfg);
        lemma_run_model_append(run_model(d, cfg), write_seq(r, cfg), cfg);
        if kept_spec(r, cfg) {
            assert(written_form(r, cfg) == Some(r));
            assert(write_seq(r, cfg) =~= seq![r]);
            assert(seq![r].drop_last() =~= Seq::<AlnRecord>::empty());
            assert(seq![r].len() == 1 && seq![r].last() == r);
            assert(run_model(Seq::<AlnRecord>::empty(), cfg) =~= Seq::<AlnRecord>::empty());
            assert(run_model(seq![r], cfg) == run_model(seq![r].drop_last(), cfg) + write_seq(
                seq![r].last(),
                cfg,
            ));
            assert(Seq::<AlnRecord>::empty() + write_seq(r, cfg) =~= write_seq(r, cfg));
            assert(run_model(seq![r], cfg) =~= write_seq(r, cfg));
        } else {
            assert(write_seq(r, cfg) =~= Seq::<AlnRecord>::empty());
            assert(run_model(write_seq(r, cfg), cfg) =~= Seq::<AlnRecord>::empty());
        }
        assert(run_model(run_model(s, cfg), cfg) =~= run_model(s, cfg));
    }
}

/// While nothing is rewritten, a run is exactly a filter: the output is the
/// input restricted to its kept records, unchanged and in input order.
pub proof fn lemma_run_model_is_filter(s: Seq<AlnRecord>, cfg: FilterConfig)
    requires
        !cfg.unalign,
    ensures
        run_model(s, cfg) == s.filter((|r: AlnRecord| kept_spec(r, cfg))),
    decreases s.len(),
{
    reveal(Seq::filter);
    let pred = (|r: AlnRecord| kept_spec(r, cfg));
    if s.len() == 0 {
        assert(run_model(s, cfg) =~= s.filter(pred));
    } else {
        lemma_run_model_is_filter(s.drop_last(), cfg);
        let r = s.last();
        if kept_spec(r, cfg) {
            assert(written_form(r, cfg) == Some(r));
            assert(write_seq(r, cfg) =~= seq![r]);
            assert(run_model(s, cfg) =~= run_model(s.drop_last(), cfg).push(r));
        } else {
            assert(write_seq(r, cfg) =~= Seq::<AlnRecord>::empty());
            assert(run_model(s, cfg) =~= run_model(s.drop_last(), cfg));
        }
        assert(run_model(s, cfg) =~= s.filter(pred));
    }
}

/// The configuration with its `inverse` flag replaced.
pub open spec fn with_inverse(cfg: FilterConfig, inv: bool) -> FilterConfig {
    FilterConfig { inverse: inv, ..cfg }
}

/// Per record, the plain and the inverse run complement each other exactly:
/// when rewriting is off, a record is kept with `inverse` off if and only
/// if it is dropped with `inverse` on.
pub proof fn lemma_inverse_complement(rec: AlnRecord, cfg: FilterConfig)
    requires
        !cfg.unalign,
    ensures
        kept_spec(rec, with_inverse(cfg, false)) <==> !kept_spec(rec, with_inverse(cfg, true)),
        kept_spec(rec, with_inverse(cfg, false)) ==> written_form(rec, with_inverse(cfg, false))
            == Some(rec),
        kept_spec(rec, with_inverse(cfg, true)) ==> written_form(rec, with_inverse(cfg, true))
            == Some(rec),
{
}

/// Over a whole input, the records kept with `inverse` off and those kept
/// with `inverse` on partition the input exactly: together, and unchanged,
/// they are the input records, each exactly once.
pub proof fn lemma_inverse_partition(s: Seq<AlnRecord>, cfg: FilterConfig)
    requires
        !cfg.unalign,
    ensures
        run_model(s, with_inverse(cfg, false)).to_multiset().add(
            run_model(s, with_inverse(cfg, true)).to_multiset(),
        ) == s.to_multiset(),
    decreases s.len(),
{
    broadcast use vstd::seq_lib::group_to_multiset_ensures;

    let cf = with_inverse(cfg, false);
    let ct = with_inverse(cfg, true);
    if s.len() == 0 {
        assert(run_model(s, cf).to_multiset().add(run_model(s, ct).to_multiset())
            =~= s.to_multiset());
    } else {
        let d = s.drop_last();
        let r = s.last();
        lemma_inverse_partition(d, cfg);
        lemma_inverse_complement(r, cfg);
        assert(s =~= d.push(r));
        assert(s.to_multiset() == d.to_multiset().insert(r));
        if kept_spec(r, cf) {
            assert(run_model(s, cf) =~= run_model(d, cf).push(r));
            assert(run_model(s, ct) =~= run_model(d, ct));
            assert(run_model(s, cf).to_multiset() == run_model(d, cf).to_multiset().insert(r));
        } else {
            assert(run_model(s, cf) =~= run_model(d, cf));
            assert(run_model(s, ct) =~= run_model(d, ct).push(r));
            assert(run_model(s, ct).to_multiset() == run_model(d, ct).to_multiset().insert(r));
        }
        assert(run_model(s, cf).to_multiset().add(run_model(s, ct).to_multiset())
            =~= s.to_multiset());
    }
}

/// Under `unalign` nothing is ever dropped: the run writes exactly one
/// record per input record, the record itself when it passes, its
/// unaligned marker form when it fails.
pub proof fn lemma_unalign_completeness(s: Seq<AlnRecord>, cfg: FilterConfig)
    requires
        cfg.unalign,
    ensures
        run_model(s, cfg).len() == s.len(),
        forall|i: int|
            0 <= i < s.len() ==> run_model(s, cfg)[i] == (if passes_spec(s[i].clip, cfg) {
                s[i]
            } else {
                unaligned_form(s[i])
            }),
    decreases s.len(),
{
    if s.len() > 0 {
        lemma_unalign_completeness(s.drop_last(), cfg);
    }
}

/// The counters of one finished run.
#[derive(Debug, Clone, Copy, PartialEq, Eq, Structural)]
pub struct RunOutcome {
    /// records pulled from the source
    pub records_read: u64,
    /// records handed to the sink
    pub records_written: u64,
    /// records rewritten to the unaligned marker form before writing
    pub records_rewritten: u64,
}

/// The streaming filter: one record in, one decision out, counters kept in
/// step with [`run_model`] over the records seen so far.
pub struct FilterEngine {
    config: FilterConfig,
    records_read: u64,
    records_written: u64,
    records_rewritten: u64,
    history: Ghost<Seq<AlnRecord>>,
}

impl FilterEngine {
    /// The run's configuration.
    pub closed spec fn config_spec(&self) -> FilterConfig {
        self.config
    }

    /// The records processed so far, oldest first.
    pub closed spec fn history_spec(&self) -> Seq<AlnRecord> {
        self.history@
    }

    /// Records read so far.
    pub closed spec fn read_spec(&self) -> int {
        self.records_read as int
    }

    /// Records written so far.
    pub closed spec fn written_spec(&self) -> int {
        self.records_written as int
    }

    /// Records rewritten to unaligned so far.
    pub closed spec fn rewritten_spec(&self) -> int {
        self.records_rewritten as int
    }

    /// The engine's invariant: the counters agree with the run model over
    /// the records processed so far.
    pub open spec fn wf(&self) -> bool {
        &&& self.config_spec().wf()
        &&& self.read_spec() == self.history_spec().len()
        &&& self.written_spec() == run_model(self.history_spec(), self.config_spec()).len()
        &&& self.rewritten_spec() == rewritten_count(self.history_spec(), self.config_spec())
    }

    /// A fresh engine for one run.
    pub fn new(config: FilterConfig) -> (e: Self)
        requires
            config.wf(),
        ensures
            e.wf(),
            e.config_spec() == config,
            e.history_spec() == Seq::<AlnRecord>::empty(),
            e.read_spec() == 0,
            e.written_spec() == 0,
            e.rewritten_spec() == 0,
    {
        FilterEngine {
            config,
            records_read: 0,
            records_written: 0,
            records_rewritten: 0,
            history: Ghost(Seq::<AlnRecord>::empty()),
        }
    }

    /// Process one record: decide what the caller must do with it and
    /// update the counters. `Keep` forwards the record unchanged, `Drop`
    /// writes nothing, `RewriteUnaligned` means the record is rewritten
    /// with [`crate::policy::rewrite_unaligned`] and then written.
    pub fn process(&mut self, rec: AlnRecord) -> (a: Action)
        requires
            old(self).wf(),
            rec.clip.wf(),
            old(self).read_spec() < u64::MAX,
        ensures
            final(self).wf(),
            final(self).config_spec() == old(self).config_spec(),
            a == decide_spec(rec, old(self).config_spec()),
            final(self).history_spec() == old(self).history_spec().push(rec),
            final(self).read_spec() == old(self).read_spec() + 1,
            final(self).written_spec() == old(self).written_spec() + (if a == Action::Drop {
                0int
            } else {
                1int
            }),
            final(self).rewritten_spec() == old(self).rewritten_spec() + (if a
                == Action::RewriteUnaligned {
                1int
            } else {
                0int
            }),
    {
        let passes = record_passes(&rec, &self.config);
        let a = decide_action(passes, &self.config);
        proof {
            lemma_run_model_bounds(self.history@, self.config);
            lemma_run_model_push(self.history@, self.config, rec);
        }
        self.records_read = self.records_read + 1;
        match a {
            Action::Keep => {
                self.records_written = self.records_written + 1;
            },
            Action::Drop => {},
            Action::RewriteUnaligned => {
                self.records_written = self.records_written + 1;
                self.records_rewritten = self.records_rewritten + 1;
            },
        }
        self.history = Ghost(self.history@.push(rec));
        a
    }

    /// The counters so far, as a summary value.
    pub fn summary(&self) -> (o: RunOutcome)
        ensures
            o.records_read == self.read_spec(),
            o.records_written == self.written_spec(),
            o.records_rewritten == self.rewritten_spec(),
    {
        RunOutcome {
            records_read: self.records_read,
            records_written: self.records_written,
            records_rewritten: self.records_rewritten,
        }
    }
}

/// Filter a whole input held in memory: every record is processed in
/// order, and the returned records are exactly what [`run_model`] says the
/// sink receives, together with the run's counters.
pub fn run_records(records: &Vec<AlnRecord>, config: FilterConfig) -> (r: (
    Vec<AlnRecord>,
    RunOutcome,
))
    requires
        config.wf(),
        forall|j: int| 0 <= j < records@.len() ==> (#[trigger] records@[j]).clip.wf(),
        records@.len() < u64::MAX,
    ensures
        r.0@ == run_model(records@, config),
        r.1.records_read == records@.len(),
        r.1.records_written == run_model(records@, config).len(),
        r.1.records_rewritten == rewritten_count(records@, config),
{
    let mut engine = FilterEngine::new(config);
    let mut out: Vec<AlnRecord> = Vec::new();
    let mut i: usize = 0;
    while i < records.len()
        invariant
            0 <= i <= records@.len(),
            records@.len() < u64::MAX,
            forall|j: int| 0 <= j < records@.len() ==> (#[trigger] records@[j]).clip.wf(),
            engine.wf(),
            engine.config_spec() == config,
            engine.history_spec() == records@.subrange(0, i as int),
            out@ == run_model(records@.subrange(0, i as int), config),
        decreases records@.len() - i,
    {
        let rec = records[i];
        let a = engine.process(rec);
        match a {
            Action::Keep => out.push(rec),
            Action::Drop => {},
            Action::RewriteUnaligned => out.push(rewrite_unaligned(&rec)),
        }
        proof {
            let prefix = records@.subrange(0, i as int);
            assert(records@.subrange(0, i + 1) =~= prefix.push(records@[i as int]));
            lemma_run_model_push(prefix, config, records@[i as int]);
            match written_form(rec, config) {
                Some(w) => {
                    assert(write_seq(rec, config) =~= seq![w]);
                    assert(out@ =~= run_model(prefix, config) + seq![w]);
                },
                None => {
                    assert(write_seq(rec, config) =~= Seq::<AlnRecord>::empty());
                    assert(out@ =~= run_model(prefix, config) + Seq::<AlnRecord>::empty());
                },
            }
        }
        i = i + 1;
    }
    proof {
        assert(records@.subrange(0, records@.len() as int) =~= records@);
    }
    let outcome = engine.summary();
    (out, outcome)
}

/// Engine form of the completeness law: while `unalign` is on, the engine
/// has written exactly as many records as it has read.
pub proof fn lemma_engine_unalign_counts(e: &FilterEngine)
    requires
        e.wf(),
        e.config_spec().unalign,
    ensures
        e.written_spec() == e.read_spec(),
{
    lemma_unalign_completeness(e.history_spec(), e.config_spec());
}

} // verus!
