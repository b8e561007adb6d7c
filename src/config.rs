use vstd::prelude::*;

verus! {

/// The fixed configuration of one benchmarking experiment.
#[derive(Clone, Copy, Debug, PartialEq, Eq, Structural)]
pub struct Config {
    /// Seed of the candidate generator.
    pub seed: u64,
    /// Smallest complexity value that is sampled.
    pub min_metric: u64,
    /// Complexity values are sampled below this bound.
    pub max_metric: u64,
    /// Number of samples per complexity value.
    pub capacity: u64,
    /// Candidates the sampler may try before it gives up.
    pub max_attempts: u64,
}

pub const DEFAULT_SEED: u64 = 42;

pub const DEFAULT_MIN_METRIC: u64 = 6;

pub const DEFAULT_MAX_METRIC: u64 = 40;

pub const DEFAULT_CAPACITY: u64 = 4;

pub const DEFAULT_MAX_ATTEMPTS: u64 = 1_000_000;

/// Largest accepted complexity bound; keeps every derived quantity small.
pub const METRIC_LIMIT: u64 = 0x1_0000_0000;

/// Largest accepted corpus size.
pub const CORPUS_LIMIT: u64 = 0x1000_0000;

impl Config {
    /// Number of bins, one per complexity value in `[min_metric, max_metric)`.
    pub open spec fn bins(self) -> nat {
        (self.max_metric - self.min_metric) as nat
    }

    /// Number of samples in a completed corpus.
    pub open spec fn corpus_size(self) -> nat {
        (self.bins() * self.capacity) as nat
    }

    pub open spec fn wf(self) -> bool {
        &&& self.min_metric < self.max_metric
        &&& self.max_metric <= METRIC_LIMIT
        &&& self.capacity > 0
        &&& self.corpus_size() <= CORPUS_LIMIT
    }

    /// One past the last generation depth of a sweep.
    pub open spec fn sweep_end(self) -> int {
        10 * self.max_metric
    }

    /// The generation depth used for the `n`-th candidate: sweeps run over
    /// `[min_metric, 10 * max_metric)` and start again at its beginning.
    pub open spec fn depth_at(self, n: int) -> int {
        self.min_metric + n % (self.sweep_end() - self.min_metric)
    }

    /// A configuration, when its bounds describe a non-empty corpus of
    /// accepted size.
    pub fn new(seed: u64, min_metric: u64, max_metric: u64, capacity: u64, max_attempts: u64) -> (r:
        Option<Config>)
        ensures
            r is Some <==> (Config { seed, min_metric, max_metric, capacity, max_attempts }).wf(),
            r matches Some(c) ==> c == (Config { seed, min_metric, max_metric, capacity, max_attempts }),
    {
        if min_metric >= max_metric || max_metric > METRIC_LIMIT || capacity == 0 || capacity
            > CORPUS_LIMIT {
            proof {
                if min_metric < max_metric && capacity > CORPUS_LIMIT {
                    let b = (max_metric - min_metric) as int;
                    assert(b * capacity >= capacity) by (nonlinear_arith)
                        requires
                            b >= 1,
                    ;
                }
            }
            return None;
        }
        let bins = max_metric - min_metric;
        if bins > CORPUS_LIMIT / capacity {
            proof {
                assert(bins * capacity > CORPUS_LIMIT) by (nonlinear_arith)
                    requires
                        bins > CORPUS_LIMIT / capacity,
                        capacity > 0,
                ;
            }
            return None;
        }
        proof {
            assert(bins * capacity <= CORPUS_LIMIT) by (nonlinear_arith)
                requires
                    bins <= CORPUS_LIMIT / capacity,
                    capacity > 0,
            ;
        }
        Some(Config { seed, min_metric, max_metric, capacity, max_attempts })
    }

    /// The experiment's standard configuration: seed 42, complexities 6 to 39,
    /// four samples each.
    pub fn standard() -> (r: Config)
        ensures
            r.wf(),
            r == (Config {
                seed: DEFAULT_SEED,
                min_metric: DEFAULT_MIN_METRIC,
                max_metric: DEFAULT_MAX_METRIC,
                capacity: DEFAULT_CAPACITY,
                max_attempts: DEFAULT_MAX_ATTEMPTS,
            }),
    {
        Config {
            seed: DEFAULT_SEED,
            min_metric: DEFAULT_MIN_METRIC,
            max_metric: DEFAULT_MAX_METRIC,
            capacity: DEFAULT_CAPACITY,
            max_attempts: DEFAULT_MAX_ATTEMPTS,
        }
    }
}

} // verus!
