//! Consensus parameters. The acceptance fraction is held as a rational
//! number, so the strict threshold test is exact integer arithmetic.

use vstd::prelude::*;

verus! {

/// Consensus parameters: the acceptance fraction alpha as a rational
/// `alpha_num / alpha_den`, the two commitment thresholds, the sample size,
/// the variant switch and the batching bounds.
pub struct ConsensusConfig {
    pub alpha_num: u64,
    pub alpha_den: u64,
    pub beta: u64,
    pub beta2: u64,
    pub k: u64,
    pub quantum: bool,
    pub max_batch_size: usize,
    pub max_batch_interval_ms: u64,
}

impl ConsensusConfig {
    /// The fraction is a well-formed rational.
    pub open spec fn wf(self) -> bool {
        self.alpha_den > 0
    }

    /// The strict threshold test: `p > alpha * k`, exactly.
    pub open spec fn spec_threshold(self, p: u64) -> bool {
        p * self.alpha_den > self.alpha_num * self.k
    }

    /// A configuration with the given fraction and thresholds and the stock
    /// batching bounds.
    pub fn new(alpha_num: u64, alpha_den: u64, beta: u64, beta2: u64, k: u64) -> (r: Self)
        requires
            alpha_den > 0,
        ensures
            r.alpha_num == alpha_num,
            r.alpha_den == alpha_den,
            r.beta == beta,
            r.beta2 == beta2,
            r.k == k,
            !r.quantum,
            r.max_batch_size == 40,
            r.max_batch_interval_ms == 2000,
            r.wf(),
    {
        ConsensusConfig {
            alpha_num,
            alpha_den,
            beta,
            beta2,
            k,
            quantum: false,
            max_batch_size: 40,
            max_batch_interval_ms: 2000,
        }
    }

    /// Selects the iterative majority-count variant.
    pub fn set_quantum_consensus(&mut self)
        ensures
            final(self).quantum,
            final(self).alpha_num == old(self).alpha_num && final(self).alpha_den == old(
                self,
            ).alpha_den && final(self).beta == old(self).beta && final(self).beta2 == old(
                self,
            ).beta2 && final(self).k == old(self).k && final(self).max_batch_size == old(
                self,
            ).max_batch_size && final(self).max_batch_interval_ms == old(
                self,
            ).max_batch_interval_ms,
    {
        self.quantum = true;
    }

    /// Whether `param` positive replies clear the acceptance bar: strictly
    /// more than `alpha * k`.
    pub fn threshold(&self, param: u64) -> (r: bool)
        ensures
            r == self.spec_threshold(param),
    {
        proof {
            assert((param as u128) * (self.alpha_den as u128) <= 0xffff_ffff_ffff_ffff
                * 0xffff_ffff_ffff_ffff && (param as u128) * (self.alpha_den as u128) == (
            param as int) * (self.alpha_den as int)) by (nonlinear_arith)
                requires
                    param <= 0xffff_ffff_ffff_ffffu64,
                    self.alpha_den <= 0xffff_ffff_ffff_ffffu64,
            ;
            assert((self.alpha_num as u128) * (self.k as u128) <= 0xffff_ffff_ffff_ffff
                * 0xffff_ffff_ffff_ffff && (self.alpha_num as u128) * (self.k as u128) == (
            self.alpha_num as int) * (self.k as int)) by (nonlinear_arith)
                requires
                    self.alpha_num <= 0xffff_ffff_ffff_ffffu64,
                    self.k <= 0xffff_ffff_ffff_ffffu64,
            ;
        }
        (param as u128) * (self.alpha_den as u128) > (self.alpha_num as u128) * (self.k as u128)
    }
}

impl Clone for ConsensusConfig {
    fn clone(&self) -> (r: Self)
        ensures
            r == *self,
    {
        ConsensusConfig {
            alpha_num: self.alpha_num,
            alpha_den: self.alpha_den,
            beta: self.beta,
            beta2: self.beta2,
            k: self.k,
            quantum: self.quantum,
            max_batch_size: self.max_batch_size,
            max_batch_interval_ms: self.max_batch_interval_ms,
        }
    }
}

impl Default for ConsensusConfig {
    /// The stock parameters: alpha 66/100, both thresholds 2, ten peers.
    fn default() -> (r: Self)
        ensures
            r.alpha_num == 66,
            r.alpha_den == 100,
            r.beta == 2,
            r.beta2 == 2,
            r.k == 10,
            !r.quantum,
            r.max_batch_size == 40,
            r.max_batch_interval_ms == 2000,
            r.wf(),
    {
        ConsensusConfig {
            alpha_num: 66,
            alpha_den: 100,
            beta: 2,
            beta2: 2,
            k: 10,
            quantum: false,
            max_batch_size: 40,
            max_batch_interval_ms: 2000,
        }
    }
}

/// The threshold is strict: when `alpha * k` is a whole number `m`, `m`
/// positive replies fail the bar and `m + 1` clear it.
pub proof fn lemma_threshold_strict(c: ConsensusConfig, m: u64)
    requires
        c.wf(),
        c.alpha_num * c.k == m * c.alpha_den,
    ensures
        !c.spec_threshold(m),
        m < u64::MAX ==> c.spec_threshold((m + 1) as u64),
{
    assert(!(m * c.alpha_den > m * c.alpha_den));
    if m < u64::MAX {
        let m1 = (m + 1) as u64;
        assert(m1 * c.alpha_den == m * c.alpha_den + c.alpha_den) by (nonlinear_arith)
            requires
                m1 == m + 1,
        ;
        assert(m1 * c.alpha_den > m * c.alpha_den);
    }
}

} // verus!
