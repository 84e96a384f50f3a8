//! Splitting the generated data into the workers' private buffers.
//!
//! The data generator draws `threads * buffer_size` values and each worker
//! receives one contiguous chunk of that stream together with its
//! identifier. Values are carried as their 64-bit patterns, so the verified
//! code pins down exactly which bits each worker receives.

use vstd::prelude::*;

use crate::params::Params;

verus! {

/// One worker's share of the benchmark: a private buffer of 64-bit value
/// patterns and the worker's identifier.
pub struct WorkItem {
    pub buffer: Vec<u64>,
    pub id: usize,
}

/// The buffer the worker with identifier `id` must receive when the stream
/// `values` is split for parameters `p`: the `id`-th chunk of `buffer_size`
/// consecutive values.
pub open spec fn chunk_of(p: Params, values: Seq<u64>, id: int) -> Seq<u64> {
    values.subrange(id * p.buffer_size, (id + 1) * p.buffer_size)
}

/// What splitting the stream `values` returns for parameters `p`: one item
/// per worker, the `i`-th carrying identifier `i` and the `i`-th chunk.
pub open spec fn items_partition(p: Params, values: Seq<u64>, items: Seq<WorkItem>) -> bool {
    &&& items.len() == p.threads
    &&& forall|i: int| 0 <= i < items.len() ==> #[trigger] items[i].id == i
    &&& forall|i: int|
        0 <= i < items.len() ==> (#[trigger] items[i].buffer)@ == chunk_of(p, values, i)
}

/// Splits the drawn stream into one work item per worker. Every value of
/// the stream lands in exactly one buffer, in drawing order, and the items
/// carry the identifiers `0, 1, ..., threads - 1` in order.
pub fn split_work_items(values: Vec<u64>, p: &Params) -> (r: Vec<WorkItem>)
    requires
        p.wf(),
        values@.len() == p.threads * p.buffer_size,
    ensures
        items_partition(*p, values@, r@),
{
    let mut items: Vec<WorkItem> = Vec::new();
    let mut t: usize = 0;
    while t < p.threads
        invariant
            p.wf(),
            t <= p.threads,
            values@.len() == p.threads * p.buffer_size,
            items@.len() == t,
            forall|i: int| 0 <= i < t ==> #[trigger] items@[i].id == i,
            forall|i: int|
                0 <= i < t ==> (#[trigger] items@[i].buffer)@ == chunk_of(*p, values@, i),
        decreases p.threads - t,
    {
        proof {
            lemma_chunk_bounds(t as int, p.threads as int, p.buffer_size as int);
        }
        let lo = t * p.buffer_size;
        let mut buf: Vec<u64> = Vec::new();
        let mut j: usize = 0;
        while j < p.buffer_size
            invariant
                j <= p.buffer_size,
                lo == t * p.buffer_size,
                lo + p.buffer_size <= values@.len(),
                values@.len() <= usize::MAX,
                buf@ == values@.subrange(lo as int, lo + j),
            decreases p.buffer_size - j,
        {
            buf.push(values[lo + j]);
            proof {
                assert(buf@ =~= values@.subrange(lo as int, lo + j + 1));
            }
            j += 1;
        }
        items.push(WorkItem { buffer: buf, id: t });
        t += 1;
    }
    items
}

/// The `t`-th of `n` chunks of width `w` lies inside a stream of `n * w`
/// values.
proof fn lemma_chunk_bounds(t: int, n: int, w: int)
    requires
        0 <= t < n,
        0 <= w,
    ensures
        t * w + w <= n * w,
        t * w + w == (t + 1) * w,
{
    assert((t + 1) * w <= n * w && (t + 1) * w == t * w + w) by (nonlinear_arith)
        requires
            0 <= t < n,
            0 <= w,
    ;
}

/// Law: splitting is deterministic. Two splits of the same stream with the
/// same parameters yield the same worker identifiers and bit-identical
/// buffers, so a run is repeatable whenever the generated stream is.
pub proof fn lemma_split_deterministic(p: Params, values: Seq<u64>, a: Seq<WorkItem>, b: Seq<WorkItem>)
    requires
        items_partition(p, values, a),
        items_partition(p, values, b),
    ensures
        a.len() == b.len(),
        forall|i: int|
            0 <= i < a.len() ==> #[trigger] a[i].id == b[i].id && a[i].buffer@ == b[i].buffer@,
{
}

/// Law: the worker identifiers of one split are unique and lie in
/// `[0, threads)`.
pub proof fn lemma_worker_ids_unique(p: Params, values: Seq<u64>, items: Seq<WorkItem>)
    requires
        items_partition(p, values, items),
    ensures
        forall|i: int| 0 <= i < items.len() ==> 0 <= #[trigger] items[i].id < p.threads,
        forall|i: int, j: int|
            0 <= i < items.len() && 0 <= j < items.len() && i != j ==> #[trigger] items[i].id
                != #[trigger] items[j].id,
{
}

} // verus!
