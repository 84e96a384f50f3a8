//! The worker routine: repeated accumulation over a private buffer.
//!
//! A worker scans its whole buffer front to back once per pass, combining
//! the running accumulator with every value it reads. The combining
//! function is a parameter: the benchmark combines 64-bit value patterns,
//! and any strategy that chains the combiner over the same reads satisfies
//! the same contract. The contract pins the exact read order — every
//! element of the buffer, in order, on every pass — through a trace of the
//! accumulator's values.

use vstd::arithmetic::div_mod::{lemma_mod_multiples_vanish, lemma_small_mod};
use vstd::prelude::*;

use crate::items::{chunk_of, items_partition, WorkItem};
use crate::params::Params;

verus! {

/// The values a worker reads over `passes` passes, in reading order: the
/// whole buffer, front to back, once per pass.
pub open spec fn visits(buf: Seq<u64>, passes: nat) -> Seq<u64> {
    Seq::new(buf.len() * passes, |k: int| buf[k % (buf.len() as int)])
}

/// `trace` records an accumulation of `values` by the combining function
/// `f`: it starts from the zero pattern, and each of its steps is a
/// possible result of combining the previous accumulator with the next
/// value read.
pub open spec fn is_accumulation<F: Fn(u64, u64) -> u64>(
    f: F,
    values: Seq<u64>,
    trace: Seq<u64>,
) -> bool {
    &&& trace.len() == values.len() + 1
    &&& trace[0] == 0u64
    &&& forall|k: int|
        0 <= k < values.len() ==> #[trigger] call_ensures(f, (trace[k], values[k]), trace[k + 1])
}

/// Runs one worker's measurement loop: combines the accumulator with every
/// buffer value, front to back, `iterations` times over, starting from the
/// zero pattern. The result is the end of an accumulation trace over
/// exactly those reads; with zero passes the loop body never runs and the
/// zero pattern comes back unchanged.
pub fn accumulate_sum<F: Fn(u64, u64) -> u64>(f: F, buffer: &Vec<u64>, iterations: usize) -> (r:
    u64)
    requires
        forall|a: u64, b: u64| #[trigger] call_requires(f, (a, b)),
    ensures
        exists|trace: Seq<u64>|
            #[trigger] is_accumulation(f, visits(buffer@, iterations as nat), trace) && r
                == trace.last(),
        iterations == 0 ==> r == 0,
{
    let ghost vs = visits(buffer@, iterations as nat);
    let n = buffer.len();
    let mut acc: u64 = 0;
    let ghost mut trace: Seq<u64> = seq![0u64];
    let mut pass: usize = 0;
    while pass < iterations
        invariant
            forall|a: u64, b: u64| #[trigger] call_requires(f, (a, b)),
            n == buffer@.len(),
            pass <= iterations,
            vs == visits(buffer@, iterations as nat),
            vs.len() == buffer@.len() * (iterations as int),
            trace.len() == buffer@.len() * (pass as int) + 1,
            trace[0] == 0u64,
            acc == trace.last(),
            forall|k: int|
                0 <= k < trace.len() - 1 ==> #[trigger] call_ensures(
                    f,
                    (trace[k], vs[k]),
                    trace[k + 1],
                ),
        decreases iterations - pass,
    {
        let mut j: usize = 0;
        while j < n
            invariant
                forall|a: u64, b: u64| #[trigger] call_requires(f, (a, b)),
                n == buffer@.len(),
                pass < iterations,
                j <= n,
                vs == visits(buffer@, iterations as nat),
                vs.len() == buffer@.len() * (iterations as int),
                trace.len() == buffer@.len() * (pass as int) + j + 1,
                trace[0] == 0u64,
                acc == trace.last(),
                forall|k: int|
                    0 <= k < trace.len() - 1 ==> #[trigger] call_ensures(
                        f,
                        (trace[k], vs[k]),
                        trace[k + 1],
                    ),
            decreases n - j,
        {
            proof {
                lemma_visit_index(buffer@, pass as int, iterations as int, j as int);
            }
            let v = buffer[j];
            acc = f(acc, v);
            proof {
                trace = trace.push(acc);
            }
            j += 1;
        }
        pass += 1;
        proof {
            assert(buffer@.len() * ((pass - 1) as int) + buffer@.len() == buffer@.len() * (
            pass as int)) by (nonlinear_arith);
        }
    }
    proof {
        assert(is_accumulation(f, vs, trace));
    }
    acc
}

/// The `j`-th read of pass number `pass` is the `j`-th buffer element, and
/// its position lies inside the whole run's read sequence.
proof fn lemma_visit_index(buf: Seq<u64>, pass: int, iters: int, j: int)
    requires
        0 <= pass < iters,
        0 <= j < buf.len(),
    ensures
        0 <= buf.len() * pass + j,
        buf.len() * pass + j < buf.len() * iters,
        visits(buf, iters as nat)[buf.len() * pass + j] == buf[j],
{
    let n = buf.len() as int;
    assert(0 <= n * pass + j && n * pass + j < n * iters) by (nonlinear_arith)
        requires
            0 <= pass < iters,
            0 <= j < n,
    ;
    lemma_mod_multiples_vanish(pass, j, n);
    lemma_small_mod(j as nat, n as nat);
}

/// The even-indexed values of `buf`: what the first lane of the paired
/// strategy reads each pass, the trailing unpaired element of an
/// odd-length buffer included.
pub open spec fn even_values(buf: Seq<u64>) -> Seq<u64> {
    Seq::new((buf.len() + 1) / 2, |k: int| buf[2 * k])
}

/// The odd-indexed values of `buf`: what the second lane of the paired
/// strategy reads each pass.
pub open spec fn odd_values(buf: Seq<u64>) -> Seq<u64> {
    Seq::new(buf.len() / 2, |k: int| buf[2 * k + 1])
}

/// Law: one paired pass reads every buffer element exactly once — the two
/// lanes split the buffer between them, element by element.
pub proof fn lemma_paired_reads_cover(buf: Seq<u64>)
    ensures
        even_values(buf).len() + odd_values(buf).len() == buf.len(),
        forall|k: int| 0 <= k < even_values(buf).len() ==> #[trigger] even_values(buf)[k] == buf[2
            * k],
        forall|k: int| 0 <= k < odd_values(buf).len() ==> #[trigger] odd_values(buf)[k] == buf[2 * k
            + 1],
{
}

/// Runs one worker's measurement loop in the paired strategy: two lane
/// accumulators advance together, the first over the even-indexed values
/// and the second over the odd-indexed ones, both once per pass; after the
/// last pass the two lanes are combined into the result. Each lane's reads
/// form an accumulation trace, and with zero passes the zero pattern comes
/// back unchanged.
pub fn accumulate_sum_paired<F: Fn(u64, u64) -> u64>(
    f: F,
    buffer: &Vec<u64>,
    iterations: usize,
) -> (r: u64)
    requires
        forall|a: u64, b: u64| #[trigger] call_requires(f, (a, b)),
    ensures
        iterations == 0 ==> r == 0,
        iterations > 0 ==> exists|t0: Seq<u64>, t1: Seq<u64>|
            #[trigger] is_accumulation(f, visits(even_values(buffer@), iterations as nat), t0)
                && #[trigger] is_accumulation(
                f,
                visits(odd_values(buffer@), iterations as nat),
                t1,
            ) && call_ensures(f, (t0.last(), t1.last()), r),
{
    if iterations == 0 {
        return 0;
    }
    let ghost evens = even_values(buffer@);
    let ghost odds = odd_values(buffer@);
    let ghost vs0 = visits(evens, iterations as nat);
    let ghost vs1 = visits(odds, iterations as nat);
    let n = buffer.len();
    let pairs = n / 2;
    let mut lane0: u64 = 0;
    let mut lane1: u64 = 0;
    let ghost mut t0: Seq<u64> = seq![0u64];
    let ghost mut t1: Seq<u64> = seq![0u64];
    let mut pass: usize = 0;
    while pass < iterations
        invariant
            forall|a: u64, b: u64| #[trigger] call_requires(f, (a, b)),
            n == buffer@.len(),
            pairs == n / 2,
            pass <= iterations,
            evens == even_values(buffer@),
            odds == odd_values(buffer@),
            evens.len() == (n + 1) / 2,
            odds.len() == n / 2,
            vs0 == visits(evens, iterations as nat),
            vs1 == visits(odds, iterations as nat),
            t0.len() == evens.len() * (pass as int) + 1,
            t1.len() == odds.len() * (pass as int) + 1,
            t0[0] == 0u64,
            t1[0] == 0u64,
            lane0 == t0.last(),
            lane1 == t1.last(),
            forall|k: int|
                0 <= k < t0.len() - 1 ==> #[trigger] call_ensures(f, (t0[k], vs0[k]), t0[k + 1]),
            forall|k: int|
                0 <= k < t1.len() - 1 ==> #[trigger] call_ensures(f, (t1[k], vs1[k]), t1[k + 1]),
        decreases iterations - pass,
    {
        let mut j: usize = 0;
        while j < pairs
            invariant
                forall|a: u64, b: u64| #[trigger] call_requires(f, (a, b)),
                n == buffer@.len(),
                pairs == n / 2,
                pass < iterations,
                j <= pairs,
                evens == even_values(buffer@),
                odds == odd_values(buffer@),
                evens.len() == (n + 1) / 2,
                odds.len() == n / 2,
                vs0 == visits(evens, iterations as nat),
                vs1 == visits(odds, iterations as nat),
                t0.len() == evens.len() * (pass as int) + j + 1,
                t1.len() == odds.len() * (pass as int) + j + 1,
                t0[0] == 0u64,
                t1[0] == 0u64,
                lane0 == t0.last(),
                lane1 == t1.last(),
                forall|k: int|
                    0 <= k < t0.len() - 1 ==> #[trigger] call_ensures(
                        f,
                        (t0[k], vs0[k]),
                        t0[k + 1],
                    ),
                forall|k: int|
                    0 <= k < t1.len() - 1 ==> #[trigger] call_ensures(
                        f,
                        (t1[k], vs1[k]),
                        t1[k + 1],
                    ),
            decreases pairs - j,
        {
            proof {
                lemma_visit_index(evens, pass as int, iterations as int, j as int);
                lemma_visit_index(odds, pass as int, iterations as int, j as int);
            }
            let a = buffer[2 * j];
            let b = buffer[2 * j + 1];
            lane0 = f(lane0, a);
            proof {
                t0 = t0.push(lane0);
            }
            lane1 = f(lane1, b);
            proof {
                t1 = t1.push(lane1);
            }
            j += 1;
        }
        if n % 2 == 1 {
            proof {
                lemma_visit_index(evens, pass as int, iterations as int, pairs as int);
            }
            let tail = buffer[n - 1];
            lane0 = f(lane0, tail);
            proof {
                t0 = t0.push(lane0);
            }
        }
        pass += 1;
        proof {
            assert(evens.len() * ((pass - 1) as int) + evens.len() == evens.len() * (pass as int))
                by (nonlinear_arith);
            assert(odds.len() * ((pass - 1) as int) + odds.len() == odds.len() * (pass as int))
                by (nonlinear_arith);
        }
    }
    let r = f(lane0, lane1);
    proof {
        assert(is_accumulation(f, vs0, t0));
        assert(is_accumulation(f, vs1, t1));
    }
    r
}

/// Law: with zero passes, a worker's accumulated sum is the zero pattern
/// it started from — the loop body never runs.
pub proof fn lemma_zero_iterations(buf: Seq<u64>, trace: Seq<u64>, f: impl Fn(u64, u64) -> u64)
    requires
        is_accumulation(f, visits(buf, 0), trace),
    ensures
        trace.last() == 0u64,
{
    assert(visits(buf, 0).len() == 0);
}

/// Law: when the combining function computes one fixed result for each pair
/// of arguments, a worker's accumulated value is determined by its reads
/// alone — two accumulations of the same values agree step for step, so
/// repeated runs over the same data give bit-identical sums.
pub proof fn lemma_accumulation_deterministic<F: Fn(u64, u64) -> u64>(
    f: F,
    values: Seq<u64>,
    t1: Seq<u64>,
    t2: Seq<u64>,
)
    requires
        forall|a: u64, b: u64, r1: u64, r2: u64|
            #[trigger] call_ensures(f, (a, b), r1) && #[trigger] call_ensures(f, (a, b), r2) ==> r1 == r2,
        is_accumulation(f, values, t1),
        is_accumulation(f, values, t2),
    ensures
        t1 == t2,
{
    assert forall|k: int| 0 <= k < t1.len() implies t1[k] == t2[k] by {
        lemma_trace_prefix_eq(f, values, t1, t2, k);
    }
    assert(t1 =~= t2);
}

/// Law: a whole run is repeatable. When two runs split the same drawn
/// stream with the same parameters, the worker with a given identifier
/// reads the same buffer in both, and a functional combiner then ends both
/// of that worker's accumulations on the same bits — so repeated runs over
/// identical constants print bit-identical per-worker values.
pub proof fn lemma_run_idempotent<F: Fn(u64, u64) -> u64>(
    f: F,
    p: Params,
    values: Seq<u64>,
    a: Seq<WorkItem>,
    b: Seq<WorkItem>,
    i: int,
    passes: nat,
    ta: Seq<u64>,
    tb: Seq<u64>,
)
    requires
        forall|x: u64, y: u64, r1: u64, r2: u64|
            #[trigger] call_ensures(f, (x, y), r1) && #[trigger] call_ensures(f, (x, y), r2)
                ==> r1 == r2,
        items_partition(p, values, a),
        items_partition(p, values, b),
        0 <= i < a.len(),
        is_accumulation(f, visits(a[i].buffer@, passes), ta),
        is_accumulation(f, visits(b[i].buffer@, passes), tb),
    ensures
        a[i].buffer@ == b[i].buffer@,
        ta.last() == tb.last(),
{
    assert(a[i].buffer@ == chunk_of(p, values, i));
    assert(b[i].buffer@ == chunk_of(p, values, i));
    lemma_accumulation_deterministic(f, visits(a[i].buffer@, passes), ta, tb);
}

/// The two traces of `lemma_accumulation_deterministic` agree at step `k`.
proof fn lemma_trace_prefix_eq<F: Fn(u64, u64) -> u64>(
    f: F,
    values: Seq<u64>,
    t1: Seq<u64>,
    t2: Seq<u64>,
    k: int,
)
    requires
        forall|a: u64, b: u64, r1: u64, r2: u64|
            #[trigger] call_ensures(f, (a, b), r1) && #[trigger] call_ensures(f, (a, b), r2) ==> r1 == r2,
        is_accumulation(f, values, t1),
        is_accumulation(f, values, t2),
        0 <= k < t1.len(),
    ensures
        t1[k] == t2[k],
    decreases k,
{
    if k > 0 {
        let i = k - 1;
        lemma_trace_prefix_eq(f, values, t1, t2, i);
        assert(call_ensures(f, (t1[i], values[i]), t1[i + 1]));
        assert(call_ensures(f, (t2[i], values[i]), t2[i + 1]));
        assert(t1[i + 1] == t1[k] && t2[i + 1] == t2[k]);
    }
}

} // verus!
