//! Mining over a range of proofs: the range is cut into equal parts and each part
//! becomes one unit of work for the pool.
use vstd::prelude::*;
use vstd::arithmetic::power2::{lemma2_to64, lemma2_to64_rest, lemma_pow2_strictly_increases, lemma_pow2_unfold, pow2};

use std::sync::Arc;

use crate::block::Block;
use crate::queue::Task;

verus! {

/// The number of parts that a block's whole search space is cut into.
pub const SEARCH_CHUNKS: u64 = 2345;

/// The width of each part when `[start, end)` is cut into `chunks` parts.
pub open spec fn part_width(start: u64, end: u64, chunks: u64) -> int {
    (end - start) / chunks as int
}

/// The `i`-th part of `[start, end)` cut into `chunks` parts: parts have equal width
/// and follow one another from `start`; what lies past `chunks` widths is in no part.
pub open spec fn part(start: u64, end: u64, chunks: u64, i: int) -> (int, int) {
    let w = part_width(start, end, chunks);
    (start + i * w, start + (i + 1) * w)
}

/// The least proof in `[lo, hi)` that solves `b`, if any.
pub open spec fn first_solution(b: Block, lo: int, hi: int) -> Option<u64>
    decreases hi - lo,
{
    if lo >= hi {
        None
    } else if 0 <= lo <= u64::MAX && b.solved_by(lo as u64) {
        Some(lo as u64)
    } else {
        first_solution(b, lo + 1, hi)
    }
}

/// One part of a search: the proofs `start..end` of a shared block.
pub struct MiningTask {
    pub block: Arc<Block>,
    pub start: u64,
    pub end: u64,
}

impl MiningTask {
    /// The least proof of the part that solves the block, if any.
    pub fn search(&self) -> (r: Option<u64>)
        ensures
            r == first_solution(*self.block, self.start as int, self.end as int),
    {
        let mut i: u64 = self.start;
        if i >= self.end {
            return None;
        }
        while i < self.end
            invariant
                self.start <= i <= self.end,
                first_solution(*self.block, self.start as int, self.end as int)
                    == first_solution(*self.block, i as int, self.end as int),
            decreases self.end - i,
        {
            if self.block.is_valid_for_proof(i) {
                return Some(i);
            }
            i = i + 1;
        }
        None
    }
}

impl Task for MiningTask {
    type Output = u64;

    fn run(&self) -> (r: Option<u64>)
        ensures
            r == first_solution(*self.block, self.start as int, self.end as int),
    {
        self.search()
    }
}

/// Cuts `[start, end)` into `chunks` parts of width `(end - start) / chunks`, in order.
pub fn partition(start: u64, end: u64, chunks: u64) -> (parts: Vec<(u64, u64)>)
    requires
        start <= end,
        chunks >= 1,
    ensures
        parts@.len() == chunks,
        forall|i: int|
            0 <= i < chunks ==> (parts@[i].0 as int, parts@[i].1 as int) == part(
                start,
                end,
                chunks,
                i,
            ),
{
    let width: u64 = (end - start) / chunks;
    let mut parts: Vec<(u64, u64)> = Vec::new();
    let mut lo: u64 = start;
    let mut k: u64 = 0;
    while k < chunks
        invariant
            start <= end,
            chunks >= 1,
            k <= chunks,
            width == part_width(start, end, chunks),
            lo == start + k * width,
            parts@.len() == k,
            forall|i: int|
                0 <= i < k ==> (parts@[i].0 as int, parts@[i].1 as int) == part(
                    start,
                    end,
                    chunks,
                    i,
                ),
        decreases chunks - k,
    {
        proof {
            let n: int = end as int - start as int;
            assert(chunks * width <= n) by (nonlinear_arith)
                requires
                    width == n / chunks as int,
                    chunks >= 1,
                    n >= 0,
            ;
            assert((k + 1) * width <= chunks * width) by (nonlinear_arith)
                requires
                    k < chunks,
                    width >= 0,
            ;
            assert((k + 1) * width == k * width + width) by (nonlinear_arith);
        }
        let hi: u64 = lo + width;
        parts.push((lo, hi));
        lo = hi;
        k = k + 1;
    }
    parts
}

/// Relies on Arc::clone: the new handle points to the same value.
#[verifier::external_body]
fn share(block: &Arc<Block>) -> (r: Arc<Block>)
    ensures
        *r == **block,
{
    Arc::clone(block)
}

/// One unit of work for each part of `[start, end)` cut into `chunks` parts, all
/// sharing `block`.
pub fn mining_tasks(block: &Arc<Block>, start: u64, end: u64, chunks: u64) -> (tasks: Vec<
    MiningTask,
>)
    requires
        start <= end,
        chunks >= 1,
    ensures
        tasks@.len() == chunks,
        forall|i: int|
            0 <= i < chunks ==> {
                &&& *(#[trigger] tasks@[i]).block == **block
                &&& (tasks@[i].start as int, tasks@[i].end as int) == part(start, end, chunks, i)
            },
{
    let parts = partition(start, end, chunks);
    let mut tasks: Vec<MiningTask> = Vec::new();
    let mut k: usize = 0;
    while k < parts.len()
        invariant
            start <= end,
            chunks >= 1,
            parts@.len() == chunks,
            k <= parts@.len(),
            tasks@.len() == k,
            forall|i: int|
                0 <= i < chunks ==> (parts@[i].0 as int, parts@[i].1 as int) == part(
                    start,
                    end,
                    chunks,
                    i,
                ),
            forall|i: int|
                0 <= i < k ==> {
                    &&& *(#[trigger] tasks@[i]).block == **block
                    &&& (tasks@[i].start as int, tasks@[i].end as int) == part(
                        start,
                        end,
                        chunks,
                        i,
                    )
                },
        decreases parts@.len() - k,
    {
        let (lo, hi) = parts[k];
        tasks.push(MiningTask { block: share(block), start: lo, end: hi });
        k = k + 1;
    }
    tasks
}

/// The end of a block's whole search space, `8 * 2^difficulty`.
pub fn search_end(difficulty: u8) -> (r: u64)
    requires
        difficulty <= 60,
    ensures
        r == 8 * pow2(difficulty as nat),
{
    let mut r: u64 = 8;
    let mut k: u8 = 0;
    proof {
        lemma2_to64();
        lemma2_to64_rest();
    }
    while k < difficulty
        invariant
            k <= difficulty <= 60,
            r == 8 * pow2(k as nat),
            pow2(60) == 0x1000_0000_0000_0000,
        decreases difficulty - k,
    {
        proof {
            lemma_pow2_strictly_increases(k as nat, 60);
            lemma_pow2_unfold((k + 1) as nat);
        }
        r = r * 2;
        k = k + 1;
    }
    r
}

} // verus!

verus! {

proof fn lemma_first_solution(b: Block, lo: int, hi: int)
    ensures
        match first_solution(b, lo, hi) {
            Some(x) => lo <= x < hi && b.solved_by(x),
            None => forall|q: u64| lo <= q < hi ==> !#[trigger] b.solved_by(q),
        },
    decreases hi - lo,
{
    if lo < hi {
        lemma_first_solution(b, lo + 1, hi);
    }
}

/// When exactly one proof `c` among those the parts cover solves the block, then for any
/// number of parts the search of every part yields `c` or nothing, and the search of
/// some part yields `c`.
pub proof fn law_unique_solution_is_found(b: Block, start: u64, end: u64, chunks: u64, c: u64)
    requires
        start <= end,
        chunks >= 1,
        start <= c < start + chunks * part_width(start, end, chunks),
        b.solved_by(c),
        forall|q: u64|
            start <= q < start + chunks * part_width(start, end, chunks) && #[trigger] b.solved_by(
                q,
            ) ==> q == c,
    ensures
        forall|i: int|
            0 <= i < chunks ==> {
                let r = first_solution(b, #[trigger] part(start, end, chunks, i).0, part(start, end, chunks, i).1);
                r is None || r == Some(c)
            },
        exists|i: int|
            0 <= i < chunks && first_solution(
                b,
                #[trigger] part(start, end, chunks, i).0,
                part(start, end, chunks, i).1,
            ) == Some(c),
{
    let w = part_width(start, end, chunks);
    let n: int = end as int - start as int;
    assert(w >= 0) by (nonlinear_arith)
        requires
            w == n / chunks as int,
            n >= 0,
            chunks >= 1,
    ;
    assert forall|i: int| 0 <= i < chunks implies {
        let r = first_solution(b, #[trigger] part(start, end, chunks, i).0, part(start, end, chunks, i).1);
        r is None || r == Some(c)
    } by {
        let (lo, hi) = part(start, end, chunks, i);
        lemma_first_solution(b, lo, hi);
        assert(0 <= i * w && (i + 1) * w <= chunks * w) by (nonlinear_arith)
            requires
                0 <= i < chunks,
                w >= 0,
        ;
    }
    let d: int = c - start;
    assert(w > 0) by (nonlinear_arith)
        requires
            0 <= d < chunks * w,
            w >= 0,
    ;
    let i0: int = d / w;
    assert(i0 * w <= d < (i0 + 1) * w && 0 <= i0 < chunks) by (nonlinear_arith)
        requires
            i0 == d / w,
            w > 0,
            0 <= d < chunks * w,
    ;
    let (lo, hi) = part(start, end, chunks, i0);
    lemma_first_solution(b, lo, hi);
    assert(lo <= c < hi);
    assert(first_solution(b, lo, hi) == Some(c));
}

} // verus!
