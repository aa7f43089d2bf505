//! Compute dispatch bookkeeping: CPU-side buffers, dispatch dimensions,
//! the contiguous per-thread split of a parallel dispatch and the
//! sequential/parallel cutoff.
use vstd::prelude::*;

verus! {

/// A CPU-backend compute buffer: owned bytes.
#[derive(Debug, Clone, Default)]
pub struct ComputeBuffer {
    data: Vec<u8>,
}

impl View for ComputeBuffer {
    type V = Seq<u8>;

    closed spec fn view(&self) -> Seq<u8> {
        self.data@
    }
}

impl ComputeBuffer {
    /// `byte_len` zero bytes.
    pub fn zeroed(byte_len: usize) -> (r: Self)
        ensures
            r@ == Seq::new(byte_len as nat, |i: int| 0u8),
    {
        let mut data: Vec<u8> = Vec::new();
        let mut i: usize = 0;
        while i < byte_len
            invariant
                i <= byte_len,
                data@ == Seq::new(i as nat, |j: int| 0u8),
            decreases byte_len - i,
        {
            data.push(0);
            i = i + 1;
            assert(data@ =~= Seq::new(i as nat, |j: int| 0u8));
        }
        Self { data }
    }

    /// Takes ownership of `data` as the buffer's contents.
    pub fn from_bytes(data: Vec<u8>) -> (r: Self)
        ensures
            r@ == data@,
    {
        Self { data }
    }

    pub fn len(&self) -> (r: usize)
        ensures
            r == self@.len(),
    {
        self.data.len()
    }

    pub fn is_empty(&self) -> (r: bool)
        ensures
            r == (self@.len() == 0),
    {
        self.data.len() == 0
    }

    pub fn as_slice(&self) -> (r: &[u8])
        ensures
            r@ == self@,
    {
        self.data.as_slice()
    }

    /// The contents, writable in place: what is written through the slice
    /// is what the buffer holds afterwards.
    pub fn as_mut_slice(&mut self) -> (r: &mut [u8])
        ensures
            r@ == old(self)@,
            final(self)@ == final(r)@,
    {
        self.data.as_mut_slice()
    }
}

/// Device-visible dispatch dimensions for a kernel invocation.
#[derive(Debug, Clone, Copy, Default)]
pub struct DispatchSize {
    pub x: u32,
    pub y: u32,
    pub z: u32,
}

impl DispatchSize {
    /// A 1D dispatch of `count` work items (`y = z = 1`).
    pub fn linear(count: u32) -> (r: Self)
        ensures
            r.x == count,
            r.y == 1,
            r.z == 1,
    {
        Self { x: count, y: 1, z: 1 }
    }

    /// The number of work items, `x * y * z`.
    pub fn total(&self) -> (r: usize)
        requires
            self.x * self.y <= usize::MAX,
            self.x * self.y * self.z <= usize::MAX,
        ensures
            r == self.x * self.y * self.z,
    {
        self.x as usize * self.y as usize * self.z as usize
    }
}

/// The contiguous `[start, end)` slices a parallel dispatch of `count`
/// items hands to its worker threads: `threads` clamped to `1..=count`,
/// each chunk `ceil(count / threads)` long, empty chunks dropped.
pub open spec fn chunks_cover(ranges: Seq<(usize, usize)>, count: nat) -> bool {
    &&& count == 0 ==> ranges.len() == 0
    &&& count > 0 ==> ranges.len() > 0 && ranges[0].0 == 0 && ranges.last().1 == count
    &&& forall|i: int| 0 <= i < ranges.len() ==> #[trigger] ranges[i].0 < ranges[i].1
    &&& forall|i: int| 0 <= i < ranges.len() - 1 ==> #[trigger] ranges[i].1 == ranges[i + 1].0
}

/// Which slice (if any) holds item `k`.
pub open spec fn covering_chunk(ranges: Seq<(usize, usize)>, k: int, i: int) -> bool {
    0 <= i < ranges.len() && ranges[i].0 <= k < ranges[i].1
}

/// Splits `0..count` into the per-thread ranges of a parallel dispatch on
/// `threads` worker threads.
pub fn parallel_chunks(count: usize, threads: usize) -> (r: Vec<(usize, usize)>)
    ensures
        chunks_cover(r@, count as nat),
        r@.len() <= threads || (threads == 0 && r@.len() <= 1),
        forall|i: int| 0 <= i < r@.len() ==> #[trigger] r@[i].1 - r@[i].0 <= chunk_len(count as int, threads as int),
{
    let mut ranges: Vec<(usize, usize)> = Vec::new();
    if count == 0 {
        return ranges;
    }
    let t = if threads < 1 { 1 } else if threads > count { count } else { threads };
    let q = count / t;
    let rem = count % t;
    assert(rem != 0 ==> q < count) by (nonlinear_arith)
        requires
            1 <= t <= count,
            q == count / t,
            rem == count % t,
    ;
    let chunk = if rem == 0 { q } else { q + 1 };
    proof { lemma_chunk_bounds(count as int, t as int, chunk as int); }
    let mut i: usize = 0;
    let mut start: usize = 0;
    while i < t && start < count
        invariant
            1 <= t <= count,
            chunk == chunk_len(count as int, threads as int),
            1 <= chunk <= count,
            start < count ==> start == i * chunk,
            i <= t,
            start <= count,
            ranges@.len() == i,
            i > 0 ==> ranges@.last().1 == start,
            i == 0 ==> start == 0,
            forall|j: int| 0 <= j < ranges@.len() ==> #[trigger] ranges@[j].0 < ranges@[j].1,
            forall|j: int| 0 <= j < ranges@.len() ==> #[trigger] ranges@[j].1 - ranges@[j].0 <= chunk,
            forall|j: int| 0 <= j < ranges@.len() - 1 ==> #[trigger] ranges@[j].1 == ranges@[j + 1].0,
            ranges@.len() > 0 ==> ranges@[0].0 == 0,
            t * chunk >= count,
        decreases t - i,
    {
        let end = if count - start < chunk { count } else { start + chunk };
        ranges.push((start, end));
        proof {
            assert((i + 1) * chunk == i * chunk + chunk) by (nonlinear_arith);
        }
        i = i + 1;
        start = end;
    }
    proof {
        if start < count {
            assert(i == t);
            assert(i * chunk >= count) by (nonlinear_arith)
                requires
                    i == t,
                    t * chunk >= count,
            ;
        }
    }
    ranges
}

/// `ceil(count / clamp(threads, 1, count))`.
pub open spec fn chunk_len(count: int, threads: int) -> int {
    let t = if threads < 1 { 1 } else if threads > count { count } else { threads };
    count / t + if count % t == 0 { 0int } else { 1int }
}

proof fn lemma_chunk_bounds(count: int, t: int, chunk: int)
    requires
        1 <= t <= count,
        chunk == count / t + if count % t == 0 { 0int } else { 1int },
    ensures
        1 <= chunk <= count,
        t * chunk >= count,
{
    assert(count == t * (count / t) + count % t) by (nonlinear_arith)
        requires
            t >= 1,
    ;
    assert(count / t >= 1) by (nonlinear_arith)
        requires
            1 <= t <= count,
    ;
    assert(count / t <= count) by (nonlinear_arith)
        requires
            1 <= t,
            count >= 0,
    ;
    assert(t * chunk >= count) by (nonlinear_arith)
        requires
            count == t * (count / t) + count % t,
            chunk == count / t + if count % t == 0 { 0int } else { 1int },
            0 <= count % t < t,
            t >= 1,
    ;
    if count / t == count {
        assert(t == 1) by (nonlinear_arith)
            requires
                count / t == count,
                count == t * (count / t) + count % t,
                count >= 1,
                t >= 1,
                count % t >= 0,
        ;
    }
}

proof fn lemma_chunk_order(ranges: Seq<(usize, usize)>, count: nat, i: int, j: int)
    requires
        chunks_cover(ranges, count),
        0 <= i < j < ranges.len(),
    ensures
        ranges[i].1 <= ranges[j].0,
    decreases j - i,
{
    if j > i + 1 {
        lemma_chunk_order(ranges, count, i, j - 1);
        assert(ranges[j - 1].0 < ranges[j - 1].1);
        assert(ranges[j - 1].1 == ranges[j].0);
    } else {
        assert(ranges[i].1 == ranges[i + 1].0);
    }
}

proof fn lemma_chunk_prefix_covers(ranges: Seq<(usize, usize)>, count: nat, m: int, k: int)
    requires
        chunks_cover(ranges, count),
        0 < m <= ranges.len(),
        0 <= k < ranges[m - 1].1,
    ensures
        exists|i: int| #[trigger] covering_chunk(ranges, k, i),
    decreases m,
{
    if k >= ranges[m - 1].0 {
        assert(covering_chunk(ranges, k, m - 1));
    } else {
        assert(m >= 2) by {
            if m == 1 {
                assert(ranges[0].0 == 0);
            }
        }
        assert(ranges[m - 2].1 == ranges[m - 1].0);
        lemma_chunk_prefix_covers(ranges, count, m - 1, k);
    }
}

/// Whether some slice holds item `k`.
pub open spec fn covered(ranges: Seq<(usize, usize)>, k: int) -> bool {
    exists|i: int| #[trigger] covering_chunk(ranges, k, i)
}

/// The slices of a parallel dispatch partition its items: every item
/// `0..count` lies in exactly one slice, so each is worked on once.
pub proof fn lemma_chunks_partition(ranges: Seq<(usize, usize)>, count: nat)
    requires
        chunks_cover(ranges, count),
    ensures
        forall|k: int| 0 <= k < count ==> #[trigger] covered(ranges, k),
        forall|k: int, i: int, j: int|
            covering_chunk(ranges, k, i) && covering_chunk(ranges, k, j) ==> i == j,
{
    assert forall|k: int| 0 <= k < count implies #[trigger] covered(ranges, k) by {
        lemma_chunk_prefix_covers(ranges, count, ranges.len() as int, k);
    }
    assert forall|k: int, i: int, j: int|
        covering_chunk(ranges, k, i) && covering_chunk(ranges, k, j) implies i == j by {
        if i < j {
            lemma_chunk_order(ranges, count, i, j);
        } else if j < i {
            lemma_chunk_order(ranges, count, j, i);
        }
    }
}

/// Whether `parallel_for` over `count` items fans out to worker threads
/// (at or above `threshold`) instead of running on the calling thread.
pub fn runs_in_parallel(count: usize, threshold: usize) -> (r: bool)
    ensures
        r == (count > 0 && count >= threshold),
{
    count != 0 && count >= threshold
}

} // verus!
