use vstd::prelude::*;

use crate::config::Config;
use crate::table::{row_line, row_text};

verus! {

/// The largest complexity bound a run honours: the requested one, capped by
/// the configuration's.
pub open spec fn effective_bound(cfg: Config, bound: u64) -> u64 {
    if bound < cfg.max_metric {
        bound
    } else {
        cfg.max_metric
    }
}

/// How many samples a run up to `bound` measures: every sample of each
/// complexity in `[min_metric, min(bound, max_metric))`.
pub open spec fn planned_samples(cfg: Config, bound: u64) -> nat {
    if effective_bound(cfg, bound) <= cfg.min_metric {
        0
    } else {
        ((effective_bound(cfg, bound) - cfg.min_metric) * cfg.capacity) as nat
    }
}

/// A benchmark run over the leading samples of a complete corpus. It hands
/// out the samples one at a time, in corpus order, and turns each measurement
/// into one row of the term-count table and one row of the runtime table.
pub struct BenchRun {
    cfg: Config,
    planned: usize,
    done: usize,
}

impl BenchRun {
    pub closed spec fn config(&self) -> Config {
        self.cfg
    }

    /// Samples the run measures in all.
    pub closed spec fn planned(&self) -> nat {
        self.planned as nat
    }

    /// Samples measured so far; also the rows written to each table.
    pub closed spec fn done(&self) -> nat {
        self.done as nat
    }

    pub open spec fn wf(&self) -> bool {
        &&& self.config().wf()
        &&& self.done() <= self.planned()
        &&& self.planned() <= self.config().corpus_size()
    }

    /// The complexity of the sample at position `i` of a complete corpus.
    pub open spec fn complexity_at(&self, i: int) -> int {
        self.config().min_metric + i / (self.config().capacity as int)
    }

    /// A run of `cfg`'s corpus up to complexity `bound` (exclusive).
    pub fn new(cfg: Config, bound: u64) -> (r: BenchRun)
        requires
            cfg.wf(),
        ensures
            r.wf(),
            r.config() == cfg,
            r.planned() == planned_samples(cfg, bound),
            r.done() == 0,
    {
        let top = if bound < cfg.max_metric {
            bound
        } else {
            cfg.max_metric
        };
        let planned: u64 = if top <= cfg.min_metric {
            0
        } else {
            proof {
                assert((top - cfg.min_metric) * cfg.capacity <= (cfg.max_metric - cfg.min_metric)
                    * cfg.capacity) by (nonlinear_arith)
                    requires
                        top <= cfg.max_metric,
                        cfg.min_metric < top,
                ;
            }
            (top - cfg.min_metric) * cfg.capacity
        };
        BenchRun { cfg, planned: planned as usize, done: 0 }
    }

    /// Whether every planned sample has been measured.
    pub fn finished(&self) -> (r: bool)
        requires
            self.wf(),
        ensures
            r == (self.done() == self.planned()),
    {
        self.done == self.planned
    }

    /// The corpus position and the complexity of the next sample to measure,
    /// or nothing once the run is finished.
    pub fn next_sample(&self) -> (r: Option<(usize, u64)>)
        requires
            self.wf(),
        ensures
            r is None <==> self.done() == self.planned(),
            r matches Some((i, c)) ==> i == self.done() && c == self.complexity_at(i as int) && i
                < self.config().corpus_size(),
    {
        if self.done == self.planned {
            None
        } else {
            proof {
                assert((self.done as int) / (self.cfg.capacity as int) <= self.done as int) by (nonlinear_arith)
                    requires
                        self.cfg.capacity > 0,
                ;
            }
            let c = self.cfg.min_metric + (self.done as u64) / self.cfg.capacity;
            Some((self.done, c))
        }
    }

    /// Records the measurement of the next sample: its term count and its
    /// running time in nanoseconds. Returns the row for the term-count table
    /// and the row for the runtime table.
    pub fn record(&mut self, nterms: u64, nanos: u64) -> (r: (Vec<u8>, Vec<u8>))
        requires
            old(self).wf(),
            old(self).done() < old(self).planned(),
        ensures
            final(self).wf(),
            final(self).config() == old(self).config(),
            final(self).planned() == old(self).planned(),
            final(self).done() == old(self).done() + 1,
            r.0@ == row_text(old(self).complexity_at(old(self).done() as int) as u64, nterms),
            r.1@ == row_text(old(self).complexity_at(old(self).done() as int) as u64, nanos),
    {
        proof {
            assert((self.done as int) / (self.cfg.capacity as int) <= self.done as int) by (nonlinear_arith)
                requires
                    self.cfg.capacity > 0,
            ;
        }
        let c = self.cfg.min_metric + (self.done as u64) / self.cfg.capacity;
        self.done = self.done + 1;
        (row_line(c, nterms), row_line(c, nanos))
    }
}

/// A run up to a bound within the configured range writes one row per
/// sample of each complexity in `[min_metric, bound)` to each of its two
/// tables: `(bound - min_metric) * capacity` rows.
pub proof fn lemma_rows_per_table(cfg: Config, bound: u64)
    requires
        cfg.wf(),
        cfg.min_metric <= bound <= cfg.max_metric,
    ensures
        planned_samples(cfg, bound) == (bound - cfg.min_metric) * cfg.capacity,
        planned_samples(cfg, bound) <= cfg.corpus_size(),
{
    assert(0 <= (bound - cfg.min_metric) * cfg.capacity <= (cfg.max_metric - cfg.min_metric)
        * cfg.capacity) by (nonlinear_arith)
        requires
            bound <= cfg.max_metric,
            cfg.min_metric <= bound,
    ;
    assert(effective_bound(cfg, bound) == bound);
    if bound == cfg.min_metric {
        assert((bound - cfg.min_metric) * cfg.capacity == 0) by (nonlinear_arith)
            requires
                bound == cfg.min_metric,
        ;
    }
}

} // verus!
