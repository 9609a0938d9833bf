//! Round-robin partitioning of the input lines over a fixed worker pool.

use vstd::prelude::*;

verus! {

/// How many of `n` round-robin-assigned items land on worker `t` of a
/// pool of `w`: the number of indices `t, t + w, t + 2w, ...` below `n`.
pub open spec fn shard_len(n: int, w: int, t: int) -> int {
    (n - t + w - 1) / w
}

/// The count of items a worker receives is exactly `shard_len`.
proof fn lemma_round_robin_count(n: int, w: int, t: int, l: int)
    requires
        w >= 1,
        0 <= t < w,
        0 <= n,
        l >= 0,
        t + l * w >= n,
        l >= 1 ==> t + (l - 1) * w < n,
        l == 0 ==> t >= n,
    ensures
        l == shard_len(n, w, t),
{
    assert(l == (n - t + w - 1) / w) by (nonlinear_arith)
        requires
            w >= 1,
            0 <= t < w,
            0 <= n,
            l >= 0,
            t + l * w >= n,
            l >= 1 ==> t + (l - 1) * w < n,
            l == 0 ==> t >= n,
    ;
}

/// Deal the input lines round-robin over `thread_count` workers: line
/// `i` goes to worker `i % thread_count`, keeping its input order within
/// the worker's shard, so shard sizes differ by at most one whatever the
/// lines hold.
pub fn partition_lines(lines: Vec<String>, thread_count: usize) -> (r: Vec<Vec<String>>)
    requires
        thread_count >= 1,
        lines@.len() + thread_count <= usize::MAX,
    ensures
        r@.len() == thread_count,
        forall|t: int|
            0 <= t < thread_count ==> r@[t]@.len() == shard_len(
                lines@.len() as int,
                thread_count as int,
                t,
            ),
        forall|t: int, j: int|
            0 <= t < thread_count && 0 <= j < r@[t]@.len() ==> r@[t]@[j] == lines@[t + j * (
            thread_count as int)],
{
    let n = lines.len();
    let w = thread_count;
    let mut lines_for_threads: Vec<Vec<String>> = Vec::new();
    let mut t: usize = 0;
    while t < w
        invariant
            t <= w,
            w >= 1,
            n == lines@.len(),
            n + w <= usize::MAX,
            lines_for_threads@.len() == t,
            forall|u: int|
                0 <= u < t ==> lines_for_threads@[u]@.len() == shard_len(n as int, w as int, u),
            forall|u: int, j: int|
                0 <= u < t && 0 <= j < lines_for_threads@[u]@.len() ==> lines_for_threads@[u]@[j]
                    == lines@[u + j * (w as int)],
        decreases w - t,
    {
        let mut shard: Vec<String> = Vec::new();
        let mut k: usize = t;
        proof {
            assert(shard@.len() * (w as int) == 0) by (nonlinear_arith)
                requires
                    shard@.len() == 0,
            ;
        }
        while k < n
            invariant
                w >= 1,
                t < w,
                n == lines@.len(),
                n + w <= usize::MAX,
                k as int == t + shard@.len() * (w as int),
                shard@.len() >= 1 ==> t + (shard@.len() - 1) * (w as int) < n,
                forall|j: int|
                    0 <= j < shard@.len() ==> shard@[j] == lines@[t + j * (w as int)],
            decreases n + w - k,
        {
            let ghost len0 = shard@.len() as int;
            shard.push(lines[k].clone());
            proof {
                assert((len0 + 1) * (w as int) == len0 * (w as int) + w) by (nonlinear_arith);
                assert(shard@.last() == lines@[t + len0 * (w as int)]);
            }
            k = k + w;
        }
        proof {
            lemma_round_robin_count(n as int, w as int, t as int, shard@.len() as int);
        }
        lines_for_threads.push(shard);
        t = t + 1;
    }
    lines_for_threads
}

/// Shards are balanced: no worker receives two items more than another.
pub proof fn lemma_shards_balanced(n: int, w: int, t1: int, t2: int)
    requires
        w >= 1,
        0 <= n,
        0 <= t1 < w,
        0 <= t2 < w,
    ensures
        shard_len(n, w, t1) <= shard_len(n, w, t2) + 1,
{
    assert((n - t1 + w - 1) / w <= (n - t2 + w - 1) / w + 1) by (nonlinear_arith)
        requires
            w >= 1,
            0 <= t1 < w,
            0 <= t2 < w,
    ;
}

} // verus!
