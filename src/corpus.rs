use vstd::prelude::*;

use crate::config::Config;
use crate::error::ErrorKind;

verus! {

/// The samples of `bins` one after another, bin by bin.
pub open spec fn flatten_bins<T>(bins: Seq<Seq<(u64, T)>>) -> Seq<(u64, T)>
    decreases bins.len(),
{
    if bins.len() == 0 {
        Seq::empty()
    } else {
        bins[0] + flatten_bins(bins.drop_first())
    }
}

/// How many of `bins` hold exactly `cap` samples.
pub open spec fn full_bins<T>(bins: Seq<Seq<(u64, T)>>, cap: int) -> nat
    decreases bins.len(),
{
    if bins.len() == 0 {
        0
    } else {
        (if bins.last().len() == cap {
            1nat
        } else {
            0nat
        }) + full_bins(bins.drop_last(), cap)
    }
}

proof fn lemma_full_bins_bound<T>(bins: Seq<Seq<(u64, T)>>, cap: int)
    ensures
        full_bins(bins, cap) <= bins.len(),
        full_bins(bins, cap) == bins.len() <==> forall|k: int|
            0 <= k < bins.len() ==> #[trigger] bins[k].len() == cap,
    decreases bins.len(),
{
    if bins.len() > 0 {
        let init = bins.drop_last();
        lemma_full_bins_bound(init, cap);
        if full_bins(bins, cap) == bins.len() {
            assert forall|k: int| 0 <= k < bins.len() implies #[trigger] bins[k].len() == cap by {
                if k < init.len() {
                    assert(init[k] == bins[k]);
                }
            }
        }
        if forall|k: int| 0 <= k < bins.len() ==> #[trigger] bins[k].len() == cap {
            assert forall|k: int| 0 <= k < init.len() implies #[trigger] init[k].len() == cap by {
                assert(init[k] == bins[k]);
            }
            assert(bins[bins.len() - 1].len() == cap);
        }
    }
}

proof fn lemma_full_bins_update<T>(bins: Seq<Seq<(u64, T)>>, cap: int, k: int, b: Seq<(u64, T)>)
    requires
        0 <= k < bins.len(),
    ensures
        full_bins(bins.update(k, b), cap) + (if bins[k].len() == cap {
            1int
        } else {
            0int
        }) == full_bins(bins, cap) + (if b.len() == cap {
            1int
        } else {
            0int
        }),
    decreases bins.len(),
{
    let u = bins.update(k, b);
    if k == bins.len() - 1 {
        assert(u.drop_last() =~= bins.drop_last());
    } else {
        lemma_full_bins_update(bins.drop_last(), cap, k, b);
        assert(u.drop_last() =~= bins.drop_last().update(k, b));
    }
}

proof fn lemma_flatten_labels<T>(bins: Seq<Seq<(u64, T)>>, cap: int, base: int)
    requires
        cap > 0,
        forall|k: int| 0 <= k < bins.len() ==> #[trigger] bins[k].len() == cap,
        forall|k: int, j: int|
            0 <= k < bins.len() && 0 <= j < bins[k].len() ==> (#[trigger] bins[k][j]).0 == base + k,
    ensures
        flatten_bins(bins).len() == bins.len() * cap,
        forall|i: int|
            0 <= i < flatten_bins(bins).len() ==> (#[trigger] flatten_bins(bins)[i]).0 == base + i
                / cap,
    decreases bins.len(),
{
    if bins.len() > 0 {
        let rest = bins.drop_first();
        assert forall|k: int, j: int|
            0 <= k < rest.len() && 0 <= j < rest[k].len() implies (#[trigger] rest[k][j]).0 == (
            base + 1) + k by {
            assert(rest[k] == bins[k + 1]);
        }
        assert forall|k: int| 0 <= k < rest.len() implies #[trigger] rest[k].len() == cap by {
            assert(rest[k] == bins[k + 1]);
        }
        lemma_flatten_labels(rest, cap, base + 1);
        let f = flatten_bins(bins);
        let fr = flatten_bins(rest);
        assert(f == bins[0] + fr);
        assert(bins.len() * cap == cap + rest.len() * cap) by (nonlinear_arith)
            requires
                rest.len() == bins.len() - 1,
        ;
        assert forall|i: int| 0 <= i < f.len() implies (#[trigger] f[i]).0 == base + i / cap by {
            if i < cap {
                assert(f[i] == bins[0][i]);
                assert(i / cap == 0) by (nonlinear_arith)
                    requires
                        0 <= i < cap,
                ;
            } else {
                assert(f[i] == fr[i - cap]);
                assert((i - cap) / cap == i / cap - 1) by (nonlinear_arith)
                    requires
                        cap <= i,
                        cap > 0,
                ;
            }
        }
    }
}

/// A corpus under construction: one bin of samples per complexity value in
/// the configured range, each sample stored with its complexity.
pub struct Corpus<T> {
    cfg: Config,
    bins: Vec<Vec<(u64, T)>>,
    full: u64,
    attempts: u64,
}

impl<T> Corpus<T> {
    pub closed spec fn config(&self) -> Config {
        self.cfg
    }

    /// The bins, the `k`-th holding samples of complexity `min_metric + k`.
    pub closed spec fn bins(&self) -> Seq<Seq<(u64, T)>> {
        self.bins@.map_values(|b: Vec<(u64, T)>| b@)
    }

    /// Candidates offered so far while the corpus was incomplete.
    pub closed spec fn attempts(&self) -> nat {
        self.attempts as nat
    }

    pub closed spec fn counter_ok(&self) -> bool {
        &&& self.bins@.len() == self.cfg.bins()
        &&& self.full == full_bins(self.bins(), self.cfg.capacity as int)
    }

    /// Every bin has the configured key and at most `capacity` samples.
    pub open spec fn shaped(&self) -> bool {
        &&& self.bins().len() == self.config().bins()
        &&& forall|k: int|
            0 <= k < self.bins().len() ==> #[trigger] self.bins()[k].len()
                <= self.config().capacity
        &&& forall|k: int, j: int|
            0 <= k < self.bins().len() && 0 <= j < self.bins()[k].len() ==> (
            #[trigger] self.bins()[k][j]).0 == self.config().min_metric + k
    }

    pub open spec fn wf(&self) -> bool {
        &&& self.config().wf()
        &&& self.shaped()
        &&& self.attempts() <= self.config().max_attempts
        &&& self.counter_ok()
    }

    /// Every bin is full.
    pub open spec fn complete(&self) -> bool {
        forall|k: int|
            0 <= k < self.bins().len() ==> #[trigger] self.bins()[k].len()
                == self.config().capacity
    }

    /// Whether a candidate of complexity `metric` would be kept.
    pub open spec fn accepts(&self, metric: u64) -> bool {
        &&& self.config().min_metric <= metric < self.config().max_metric
        &&& self.bins()[metric - self.config().min_metric].len() < self.config().capacity
    }

    /// An empty corpus for `cfg`.
    pub fn new(cfg: Config) -> (r: Corpus<T>)
        requires
            cfg.wf(),
        ensures
            r.wf(),
            r.config() == cfg,
            r.attempts() == 0,
            forall|k: int| 0 <= k < r.bins().len() ==> #[trigger] r.bins()[k].len() == 0,
    {
        let n = cfg.max_metric - cfg.min_metric;
        let mut bins: Vec<Vec<(u64, T)>> = Vec::new();
        let mut i: u64 = 0;
        while i < n
            invariant
                i <= n,
                bins@.len() == i,
                forall|k: int| 0 <= k < i ==> (#[trigger] bins@[k])@.len() == 0,
            decreases n - i,
        {
            bins.push(Vec::new());
            i = i + 1;
        }
        let r = Corpus { cfg, bins, full: 0, attempts: 0 };
        proof {
            lemma_full_bins_bound(r.bins(), cfg.capacity as int);
            assert forall|k: int| 0 <= k < r.bins().len() implies #[trigger] r.bins()[k].len()
                == 0 by {
                assert(r.bins()[k] == bins@[k]@);
            }
            if full_bins(r.bins(), cfg.capacity as int) > 0 {
                lemma_zero_full(r.bins(), cfg.capacity as int);
            }
        }
        r
    }

    pub fn config_of(&self) -> (r: Config)
        ensures
            r == self.config(),
    {
        self.cfg
    }

    /// Whether every bin is full.
    pub fn is_complete(&self) -> (r: bool)
        requires
            self.wf(),
        ensures
            r == self.complete(),
    {
        proof {
            lemma_full_bins_bound(self.bins(), self.cfg.capacity as int);
        }
        self.full == self.cfg.max_metric - self.cfg.min_metric
    }

    /// Whether the next offer would fail: the corpus is incomplete and its
    /// attempt budget is spent.
    pub fn budget_spent(&self) -> (r: bool)
        requires
            self.wf(),
        ensures
            r == (!self.complete() && self.attempts() == self.config().max_attempts),
    {
        !self.is_complete() && self.attempts == self.cfg.max_attempts
    }

    /// The generation depth for the next candidate.
    pub fn next_depth(&self) -> (r: u64)
        requires
            self.wf(),
        ensures
            r == self.config().depth_at(self.attempts() as int),
    {
        let span = 10 * self.cfg.max_metric - self.cfg.min_metric;
        self.cfg.min_metric + self.attempts % span
    }

    /// Offers a candidate of complexity `metric`. A complete corpus takes no
    /// more candidates and counts no attempt. Otherwise, once the attempt
    /// budget is spent the sampler fails; before that the attempt is counted
    /// and the candidate is kept when its complexity is in range and its bin
    /// is not yet full. Returns whether it was kept.
    pub fn offer(&mut self, metric: u64, sample: T) -> (r: Result<bool, ErrorKind>)
        requires
            old(self).wf(),
        ensures
            final(self).wf(),
            final(self).config() == old(self).config(),
            old(self).complete() ==> r == Ok::<bool, ErrorKind>(false) && final(self).bins()
                == old(self).bins() && final(self).attempts() == old(self).attempts(),
            !old(self).complete() && old(self).attempts() == old(self).config().max_attempts ==> r
                == Err::<bool, ErrorKind>(ErrorKind::CorpusGenerationExhausted) && final(
                self).bins() == old(self).bins() && final(self).attempts() == old(self).attempts(),
            !old(self).complete() && old(self).attempts() < old(self).config().max_attempts ==> {
                &&& final(self).attempts() == old(self).attempts() + 1
                &&& r == Ok::<bool, ErrorKind>(old(self).accepts(metric))
                &&& old(self).accepts(metric) ==> final(self).bins() == old(self).bins().update(
                    metric - old(self).config().min_metric,
                    old(self).bins()[metric - old(self).config().min_metric].push((metric, sample)),
                )
                &&& !old(self).accepts(metric) ==> final(self).bins() == old(self).bins()
            },
    {
        if self.is_complete() {
            return Ok(false);
        }
        if self.attempts == self.cfg.max_attempts {
            return Err(ErrorKind::CorpusGenerationExhausted);
        }
        self.attempts = self.attempts + 1;
        if metric < self.cfg.min_metric || metric >= self.cfg.max_metric {
            return Ok(false);
        }
        let k = (metric - self.cfg.min_metric) as usize;
        if self.bins[k].len() as u64 >= self.cfg.capacity {
            return Ok(false);
        }
        let ghost before = self.bins();
        let ghost cap = self.cfg.capacity as int;
        let mut bin = Vec::new();
        std::mem::swap(&mut bin, &mut self.bins[k]);
        bin.push((metric, sample));
        let now_full = bin.len() as u64 == self.cfg.capacity;
        std::mem::swap(&mut bin, &mut self.bins[k]);
        proof {
            assert(self.bins() =~= before.update(k as int, before[k as int].push((metric, sample))));
            lemma_full_bins_update(before, cap, k as int, before[k as int].push((metric, sample)));
            lemma_full_bins_bound(self.bins(), cap);
            assert(before.update(k as int, before[k as int].push((metric, sample)))[k as int]
                == before[k as int].push((metric, sample)));
        }
        if now_full {
            self.full = self.full + 1;
        }
        proof {
            assert forall|q: int, j: int|
                0 <= q < self.bins().len() && 0 <= j < self.bins()[q].len() implies (
            #[trigger] self.bins()[q][j]).0 == self.cfg.min_metric + q by {
                if q != k {
                    assert(self.bins()[q] == before[q]);
                } else if j < before[q].len() {
                    assert(self.bins()[q][j] == before[q][j]);
                }
            }
        }
        Ok(true)
    }

    /// The samples of a complete corpus, bin after bin in increasing
    /// complexity: the sample at position `i` has complexity
    /// `min_metric + i / capacity`.
    pub fn into_samples(self) -> (r: Vec<(u64, T)>)
        requires
            self.wf(),
            self.complete(),
        ensures
            r@ == flatten_bins(self.bins()),
            r@.len() == self.config().corpus_size(),
            forall|i: int|
                0 <= i < r@.len() ==> (#[trigger] r@[i]).0 == self.config().min_metric + i
                    / (self.config().capacity as int),
            forall|i: int, j: int|
                0 <= i < j < r@.len() ==> (r@[i].0 == r@[j].0 <==> i / (
                self.config().capacity as int) == j / (self.config().capacity as int)),
            forall|i: int, j: int|
                0 <= i < j < r@.len() ==> #[trigger] r@[i].0 <= #[trigger] r@[j].0,
    {
        let ghost all = self.bins();
        let ghost cap = self.cfg.capacity as int;
        let mut bins = self.bins;
        let mut out: Vec<(u64, T)> = Vec::new();
        proof {
            assert(bins@.map_values(|b: Vec<(u64, T)>| b@) == all);
            assert(all.subrange(0, 0) =~= Seq::<Seq<(u64, T)>>::empty());
        }
        while bins.len() > 0
            invariant
                out@ + flatten_bins(bins@.map_values(|b: Vec<(u64, T)>| b@)) == flatten_bins(all),
            decreases bins@.len(),
        {
            let ghost rest = bins@.map_values(|b: Vec<(u64, T)>| b@);
            let mut b = bins.remove(0);
            proof {
                assert(bins@.map_values(|b: Vec<(u64, T)>| b@) =~= rest.drop_first());
                assert(flatten_bins(rest) == rest[0] + flatten_bins(rest.drop_first()));
                assert(out@ + b@ + flatten_bins(rest.drop_first()) =~= out@ + (b@ + flatten_bins(
                    rest.drop_first(),
                )));
            }
            out.append(&mut b);
        }
        proof {
            assert(bins@.map_values(|b: Vec<(u64, T)>| b@) =~= Seq::<Seq<(u64, T)>>::empty());
            assert(out@ =~= flatten_bins(all));
            lemma_flatten_labels(all, cap, self.cfg.min_metric as int);
            assert(all.len() * cap == self.cfg.corpus_size());
            assert forall|i: int, j: int| 0 <= i < j < out@.len() implies #[trigger] out@[i].0
                <= #[trigger] out@[j].0 by {
                vstd::arithmetic::div_mod::lemma_div_is_ordered(i, j, cap);
            }
        }
        out
    }
}

proof fn lemma_zero_full<T>(bins: Seq<Seq<(u64, T)>>, cap: int)
    requires
        cap > 0,
        forall|k: int| 0 <= k < bins.len() ==> #[trigger] bins[k].len() == 0,
    ensures
        full_bins(bins, cap) == 0,
    decreases bins.len(),
{
    if bins.len() > 0 {
        assert forall|k: int| 0 <= k < bins.drop_last().len() implies #[trigger] bins.drop_last()[
            k].len() == 0 by {
            assert(bins.drop_last()[k] == bins[k]);
        }
        lemma_zero_full(bins.drop_last(), cap);
        assert(bins.last() == bins[bins.len() - 1]);
    }
}

} // verus!
