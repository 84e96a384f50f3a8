//! Benchmark parameters and the byte totals computed from them.

use vstd::prelude::*;

verus! {

/// Each buffer value is a 64-bit quantity, eight bytes wide.
pub const BYTES_PER_VALUE: u64 = 8;

/// Configuration of one benchmark run: how many workers run, how many
/// 64-bit values each worker's private buffer holds, how many passes each
/// worker makes over its buffer, and the seed of the data generator.
#[derive(Clone, Copy, PartialEq, Eq, Structural)]
pub struct Params {
    pub threads: usize,
    pub buffer_size: usize,
    pub iterations: usize,
    pub seed: u64,
}

impl Params {
    /// The byte totals of the run fit the machine's integers, so every
    /// size computation below is exact.
    pub open spec fn wf(self) -> bool {
        &&& self.threads * self.buffer_size <= usize::MAX
        &&& self.threads * self.buffer_size * BYTES_PER_VALUE <= u64::MAX
        &&& self.threads * self.buffer_size * self.iterations * BYTES_PER_VALUE <= u64::MAX
    }

    /// Bytes held by all buffers together: what the generator reports.
    pub open spec fn generated_bytes_spec(self) -> int {
        self.threads * self.buffer_size * BYTES_PER_VALUE
    }

    /// Bytes read over the whole run: every worker scans its buffer once
    /// per pass. This is the numerator of the bandwidth quotient.
    pub open spec fn moved_bytes_spec(self) -> int {
        self.threads * self.buffer_size * self.iterations * BYTES_PER_VALUE
    }

    /// Run-time test of `wf`, exact in both directions, so that unverified
    /// callers can reject parameters whose byte totals would overflow.
    pub fn check_wf(&self) -> (r: bool)
        ensures
            r == self.wf(),
    {
        match self.threads.checked_mul(self.buffer_size) {
            None => false,
            Some(tb) => {
                let tb64 = tb as u64;
                match tb64.checked_mul(BYTES_PER_VALUE) {
                    None => false,
                    Some(_) => match tb64.checked_mul(self.iterations as u64) {
                        None => {
                            proof {
                                lemma_grow_by_eight(
                                    self.threads as int,
                                    self.buffer_size as int,
                                    self.iterations as int,
                                );
                            }
                            false
                        },
                        Some(tbi) => tbi.checked_mul(BYTES_PER_VALUE).is_some(),
                    },
                }
            },
        }
    }

    /// How many values the generator must produce in all.
    pub fn total_values(&self) -> (r: usize)
        requires
            self.wf(),
        ensures
            r == self.threads * self.buffer_size,
    {
        self.threads * self.buffer_size
    }

    /// Total bytes generated: `threads * buffer_size * 8`.
    pub fn total_generated_bytes(&self) -> (r: u64)
        requires
            self.wf(),
        ensures
            r == self.generated_bytes_spec(),
    {
        (self.threads as u64) * (self.buffer_size as u64) * BYTES_PER_VALUE
    }

    /// Total bytes read by all workers over all passes:
    /// `threads * buffer_size * iterations * 8`.
    pub fn total_moved_bytes(&self) -> (r: u64)
        requires
            self.wf(),
        ensures
            r == self.moved_bytes_spec(),
    {
        proof {
            lemma_moved_partial_products(
                self.threads as int,
                self.buffer_size as int,
                self.iterations as int,
            );
        }
        (self.threads as u64) * (self.buffer_size as u64) * (self.iterations as u64)
            * BYTES_PER_VALUE
    }
}

/// A non-negative triple product only grows when multiplied by eight.
proof fn lemma_grow_by_eight(t: int, b: int, i: int)
    requires
        0 <= t,
        0 <= b,
        0 <= i,
    ensures
        t * b * i <= t * b * i * 8,
{
    assert(t * b * i <= t * b * i * 8) by (nonlinear_arith)
        requires
            0 <= t,
            0 <= b,
            0 <= i,
    ;
}

/// When the full product `t * b * i * 8` fits `u64`, so do its prefixes.
proof fn lemma_moved_partial_products(t: int, b: int, i: int)
    requires
        0 <= t,
        0 <= b,
        0 <= i,
        t * b * i * 8 <= u64::MAX,
    ensures
        t * b * i <= u64::MAX,
        t * b * i * 8 == (t * b * i) * 8,
{
    assert(0 <= t * b * i && t * b * i <= t * b * i * 8) by (nonlinear_arith)
        requires
            0 <= t,
            0 <= b,
            0 <= i,
    ;
}

impl Default for Params {
    /// The build-time constants of the benchmark: eight workers, buffers of
    /// 32 MiB (4 194 304 values of eight bytes), one thousand passes, and a
    /// fixed seed so that runs are reproducible.
    fn default() -> (r: Params)
        ensures
            r.threads == 8,
            r.buffer_size == 32 * 1024 * 1024 / 8,
            r.iterations == 1000,
            r.seed == 42,
            r.wf(),
    {
        Params { threads: 8, buffer_size: 32 * 1024 * 1024 / 8, iterations: 1000, seed: 42 }
    }
}

} // verus!
