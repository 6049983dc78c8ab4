use vstd::prelude::*;

verus! {

/// Number of date counts scanned per session: six school years of
/// sixty teaching weeks each.
pub const WEEK_TOTAL: i32 = 360;

/// Upper bound on the worker threads started for one crawl.
pub const MAX_THREADS: i32 = 64;

/// Number of lecture identifiers resolved by one batch of workers.
pub const CHUNK_SIZE: usize = 64;

// ---------------------------------------------------------------------
// Date-count ranges handed to the workers of one session.
// ---------------------------------------------------------------------

/// Threads granted to each session when `n` sessions share the crawl.
pub open spec fn threads_per_session(n: int) -> int {
    (MAX_THREADS as int) / n
}

/// Width of the date-count range of one worker (defined for `1 <= n <= 32`).
pub open spec fn week_thread(n: int) -> int {
    (WEEK_TOTAL as int) / (threads_per_session(n) - 1) + 1
}

/// Number of workers started for one session; no worker is started once
/// the sessions outnumber the thread budget.
pub open spec fn week_range_count(n: int) -> int {
    if 1 <= n <= 32 {
        (WEEK_TOTAL as int) / week_thread(n) + 1
    } else {
        0
    }
}

/// What remains of the date counts once the full-width ranges are taken.
pub open spec fn week_rest(n: int) -> int {
    (WEEK_TOTAL as int) % week_thread(n)
}

/// First date count of worker `i`.
pub open spec fn week_range_start(n: int, i: int) -> int {
    i * week_thread(n)
}

/// One past the last date count of worker `i`: the last worker takes the
/// remainder, every other one a full width.
pub open spec fn week_range_end(n: int, i: int) -> int {
    if i != week_range_count(n) - 1 {
        (i + 1) * week_thread(n)
    } else {
        i * week_thread(n) + week_rest(n)
    }
}

/// Which session counts the crawl accepts without a division by zero.
pub open spec fn crawl_session_count_ok(n: int) -> bool {
    (1 <= n <= 32) || (64int < n <= i32::MAX)
}

proof fn lemma_week_thread_bounds(n: int)
    requires
        1 <= n <= 32,
    ensures
        2 <= threads_per_session(n) <= 64int,
        6 <= week_thread(n) <= 361,
        1 <= week_range_count(n) <= 61,
        0 <= week_rest(n) < week_thread(n),
        (week_range_count(n) - 1) * week_thread(n) + week_rest(n) == WEEK_TOTAL,
{
    let t = threads_per_session(n);
    assert(2 <= t <= 64int) by (nonlinear_arith)
        requires
            t == 64int / n,
            1 <= n <= 32,
    ;
    let w = week_thread(n);
    assert(6 <= w <= 361) by (nonlinear_arith)
        requires
            w == 360int / (t - 1) + 1,
            2 <= t <= 64int,
    ;
    let q = (WEEK_TOTAL as int) / w;
    assert(0 <= q <= 60) by (nonlinear_arith)
        requires
            q == 360int / w,
            6 <= w,
    ;
    assert(q * w + 360int % w == 360int && 0 <= 360int % w < w) by (nonlinear_arith)
        requires
            q == 360int / w,
            6 <= w,
    ;
}

/// The date-count ranges of the workers of one session, in order; the
/// session count `n` is the number of sessions taking part.
pub fn week_ranges(n: usize) -> (ranges: Vec<(i32, i32)>)
    requires
        crawl_session_count_ok(n as int),
    ensures
        ranges.len() == week_range_count(n as int),
        forall|i: int|
            0 <= i < ranges.len() ==> #[trigger] ranges@[i] == (
            week_range_start(n as int, i) as i32,
            week_range_end(n as int, i) as i32,
        ),
{
    let mut ranges: Vec<(i32, i32)> = Vec::new();
    if n > 32 {
        return ranges;
    }
    proof {
        lemma_week_thread_bounds(n as int);
    }
    let sessions: i32 = n as i32;
    let thread_count: i32 = MAX_THREADS / sessions;
    let week_thread_w: i32 = WEEK_TOTAL / (thread_count - 1) + 1;
    let count: i32 = WEEK_TOTAL / week_thread_w + 1;
    let rest: i32 = WEEK_TOTAL % week_thread_w;
    assert(week_thread_w == week_thread(n as int));
    let mut i: i32 = 0;
    while i < count
        invariant
            1 <= n <= 32,
            0 <= i <= count,
            week_thread_w == week_thread(n as int),
            count == week_range_count(n as int),
            rest == week_rest(n as int),
            6 <= week_thread_w <= 361,
            (count - 1) * week_thread_w + rest == WEEK_TOTAL,
            ranges.len() == i,
            forall|k: int|
                0 <= k < i ==> #[trigger] ranges@[k] == (
                week_range_start(n as int, k) as i32,
                week_range_end(n as int, k) as i32,
            ),
        decreases count - i,
    {
        assert(i * week_thread_w <= WEEK_TOTAL && (i < count - 1 ==> (i + 1) * week_thread_w
            <= WEEK_TOTAL)) by (nonlinear_arith)
            requires
                0 <= i < count,
                (count - 1) * week_thread_w + rest == 360int,
                0 <= rest,
                6 <= week_thread_w,
        ;
        let start: i32 = i * week_thread_w;
        let end: i32 = if i != count - 1 {
            (i + 1) * week_thread_w
        } else {
            start + rest
        };
        ranges.push((start, end));
        i = i + 1;
    }
    ranges
}

/// Law: for every accepted session count with at least one worker, the
/// worker ranges are ordered, contiguous and together cover exactly the
/// date counts `0 .. WEEK_TOTAL`.
pub proof fn lemma_week_ranges_partition(n: int)
    requires
        1 <= n <= 32,
    ensures
        week_range_count(n) >= 1,
        week_range_start(n, 0) == 0,
        week_range_end(n, week_range_count(n) - 1) == WEEK_TOTAL,
        forall|i: int|
            0 <= i < week_range_count(n) ==> week_range_start(n, i) <= #[trigger] week_range_end(
                n,
                i,
            ),
        forall|i: int|
            0 <= i < week_range_count(n) - 1 ==> #[trigger] week_range_end(n, i)
                == week_range_start(n, i + 1),
{
    lemma_week_thread_bounds(n);
    let w = week_thread(n);
    let c = week_range_count(n);
    assert forall|i: int| 0 <= i < c implies week_range_start(n, i) <= #[trigger] week_range_end(
        n,
        i,
    ) by {
        assert(i * w <= (i + 1) * w) by (nonlinear_arith)
            requires
                w >= 0,
        ;
    }
    assert forall|i: int| 0 <= i < c - 1 implies #[trigger] week_range_end(n, i)
        == week_range_start(n, i + 1) by {
    }
}

/// Law: the workers started for all sessions together stay within the
/// thread budget: `n` sessions with `week_range_count(n)` workers each
/// make at most `MAX_THREADS` workers.
pub proof fn lemma_week_workers_within_budget(n: int)
    requires
        1 <= n <= 32,
    ensures
        n * week_range_count(n) <= MAX_THREADS,
        week_range_count(n) < threads_per_session(n),
{
    lemma_week_thread_bounds(n);
    let t = threads_per_session(n);
    let w = week_thread(n);
    let q = (WEEK_TOTAL as int) / w;
    assert(n * t <= 64) by (nonlinear_arith)
        requires
            t == 64int / n,
            1 <= n,
    ;
    let u = 360int / (t - 1);
    assert(w * (t - 1) > 360) by (nonlinear_arith)
        requires
            u == 360int / (t - 1),
            w == u + 1,
            t >= 2,
    ;
    assert(q <= t - 2) by (nonlinear_arith)
        requires
            q == 360int / w,
            w * (t - 1) > 360,
            w >= 6,
            t >= 2,
    ;
    assert(n * (q + 1) <= n * t) by (nonlinear_arith)
        requires
            q + 1 <= t,
            n >= 1,
    ;
}

/// Law: every date count `d` in `0 .. WEEK_TOTAL` falls into exactly one
/// worker range, the one numbered `d / week_thread(n)`.
pub proof fn lemma_week_range_owner(n: int, d: int, j: int)
    requires
        1 <= n <= 32,
        0 <= d < WEEK_TOTAL,
    ensures
        0 <= d / week_thread(n) < week_range_count(n),
        week_range_start(n, d / week_thread(n)) <= d < week_range_end(n, d / week_thread(n)),
        0 <= j < week_range_count(n) && week_range_start(n, j) <= d < week_range_end(n, j) ==> j
            == d / week_thread(n),
{
    lemma_week_thread_bounds(n);
    let w = week_thread(n);
    let c = week_range_count(n);
    let r = week_rest(n);
    let i = d / w;
    assert(0 <= i <= c - 1 && i * w <= d && d < (i + 1) * w) by (nonlinear_arith)
        requires
            i == d / w,
            6 <= w,
            0 <= d < 360int,
            (c - 1) * w + r == 360int,
            0 <= r < w,
            c - 1 == 360int / w,
    ;
    if 0 <= j < c && week_range_start(n, j) <= d < week_range_end(n, j) {
        assert(j * w <= d);
        assert(d < (j + 1) * w) by {
            assert((j + 1) * w == j * w + w) by (nonlinear_arith);
            if j == c - 1 {
                assert(d < j * w + r);
            }
        }
        assert(j == i) by (nonlinear_arith)
            requires
                j * w <= d < (j + 1) * w,
                i * w <= d < (i + 1) * w,
                w > 0,
        ;
    }
}

// ---------------------------------------------------------------------
// Batches of lecture identifiers resolved together.
// ---------------------------------------------------------------------

/// Number of batches for `len` identifiers.
pub open spec fn chunk_count(len: int) -> int {
    len / (CHUNK_SIZE as int) + if len % (CHUNK_SIZE as int) == 0 {
        0int
    } else {
        1int
    }
}

/// First index of batch `i`.
pub open spec fn chunk_start(i: int) -> int {
    i * CHUNK_SIZE
}

/// One past the last index of batch `i`: a full batch except the last one,
/// which ends at `len`.
pub open spec fn chunk_end(len: int, i: int) -> int {
    if i != chunk_count(len) - 1 {
        (i + 1) * CHUNK_SIZE
    } else {
        len
    }
}

proof fn lemma_chunk_count_bounds(len: int)
    requires
        len >= 0,
    ensures
        len == 0 ==> chunk_count(len) == 0,
        len > 0 ==> chunk_count(len) >= 1,
        len > 0 ==> (chunk_count(len) - 1) * 64int < len <= chunk_count(len) * 64int,
{
    let q = len / 64int;
    let r = len % 64int;
    assert(q * 64int + r == len && 0 <= r < 64int && q >= 0) by (nonlinear_arith)
        requires
            q == len / 64int,
            r == len % 64int,
            len >= 0,
    ;
}

/// The index ranges of the batches that `len` identifiers are split into.
pub fn id_chunks(len: usize) -> (chunks: Vec<(usize, usize)>)
    requires
        len <= i32::MAX,
    ensures
        chunks.len() == chunk_count(len as int),
        forall|i: int|
            0 <= i < chunks.len() ==> #[trigger] chunks@[i] == (
            chunk_start(i) as usize,
            chunk_end(len as int, i) as usize,
        ),
{
    proof {
        lemma_chunk_count_bounds(len as int);
    }
    let count: usize = len / CHUNK_SIZE + if len % CHUNK_SIZE == 0 {
        0
    } else {
        1
    };
    let mut chunks: Vec<(usize, usize)> = Vec::new();
    let mut i: usize = 0;
    while i < count
        invariant
            len <= i32::MAX,
            count == chunk_count(len as int),
            len > 0 ==> (count - 1) * 64int < len <= count * 64int,
            0 <= i <= count,
            chunks.len() == i,
            forall|k: int|
                0 <= k < i ==> #[trigger] chunks@[k] == (
                chunk_start(k) as usize,
                chunk_end(len as int, k) as usize,
            ),
        decreases count - i,
    {
        assert(i * 64int < len && (i + 1) * 64int <= count * 64int) by (nonlinear_arith)
            requires
                0 <= i < count,
                (count - 1) * 64int < len,
        ;
        let start: usize = i * CHUNK_SIZE;
        let end: usize = if i != count - 1 {
            (i + 1) * CHUNK_SIZE
        } else {
            len
        };
        chunks.push((start, end));
        i = i + 1;
    }
    chunks
}

/// Law: the batches are ordered, contiguous, cover exactly `0 .. len`, and
/// every batch holds at least one and at most `CHUNK_SIZE` identifiers.
pub proof fn lemma_id_chunks_partition(len: int)
    requires
        len >= 0,
    ensures
        len == 0 ==> chunk_count(len) == 0,
        len > 0 ==> chunk_start(0) == 0 && chunk_end(len, chunk_count(len) - 1) == len,
        forall|i: int|
            0 <= i < chunk_count(len) ==> 0 < #[trigger] chunk_end(len, i) - chunk_start(i)
                <= CHUNK_SIZE,
        forall|i: int|
            0 <= i < chunk_count(len) - 1 ==> #[trigger] chunk_end(len, i) == chunk_start(i + 1),
{
    lemma_chunk_count_bounds(len);
    let c = chunk_count(len);
    assert forall|i: int| 0 <= i < c implies 0 < #[trigger] chunk_end(len, i) - chunk_start(i)
        <= CHUNK_SIZE by {
        if i == c - 1 {
            assert(i * 64int < len <= (i + 1) * 64int);
        } else {
            assert((i + 1) * 64int - i * 64int == 64int) by (nonlinear_arith);
        }
    }
}

} // verus!
