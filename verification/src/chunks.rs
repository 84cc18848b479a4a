//! Chunked downloads: an object larger than one chunk is fetched as
//! consecutive byte ranges of `CHUNK_SIZE` bytes (the last one possibly
//! shorter), handed out in batches to at most `concurrency` workers.

use vstd::prelude::*;

verus! {

/// The size of one download chunk: 32 MiB. Objects of at most this size are
/// fetched, and uploaded, in a single request.
pub const CHUNK_SIZE: usize = 32 * 1024 * 1024;

/// The number of chunks of an object of `size` bytes: `ceil(size / CHUNK_SIZE)`,
/// and none for an empty (or negative) size.
pub open spec fn num_chunks(size: int) -> int {
    if size <= 0 {
        0
    } else {
        (size + CHUNK_SIZE - 1) / (CHUNK_SIZE as int)
    }
}

/// `ceil(a / b)`.
pub open spec fn ceil_div(a: int, b: int) -> int {
    (a + b - 1) / b
}

pub open spec fn min_int(a: int, b: int) -> int {
    if a <= b {
        a
    } else {
        b
    }
}

/// The inclusive byte range of one chunk, in the form a ranged read takes.
#[derive(Clone, Copy, Debug, PartialEq, Eq, Structural)]
pub struct ChunkRange {
    /// The position of the chunk in the object.
    pub index: usize,
    /// The offset of its first byte.
    pub first: u64,
    /// The offset of its last byte.
    pub last: u64,
}

/// The range of chunk `i` of an object of `size` bytes: from `i * CHUNK_SIZE`
/// up to the next chunk boundary or the end of the object, whichever is first.
pub open spec fn spec_chunk_range(i: int, size: int) -> ChunkRange {
    ChunkRange {
        index: i as usize,
        first: (i * CHUNK_SIZE) as u64,
        last: (min_int(i * CHUNK_SIZE + CHUNK_SIZE, size) - 1) as u64,
    }
}

/// The ranges of all chunks of an object of `size` bytes, in order.
pub open spec fn all_chunk_ranges(size: int) -> Seq<ChunkRange> {
    Seq::new(num_chunks(size) as nat, |i: int| spec_chunk_range(i, size))
}

/// Facts about where the chunks of an object start.
pub proof fn lemma_chunk_count(size: int)
    requires
        size > 0,
    ensures
        num_chunks(size) >= 1,
        num_chunks(size) == (size - 1) / (CHUNK_SIZE as int) + 1,
        (num_chunks(size) - 1) * CHUNK_SIZE < size,
        size <= num_chunks(size) * CHUNK_SIZE,
        num_chunks(size) <= size,
{
    let n: int = num_chunks(size);
    let c: int = CHUNK_SIZE as int;
    let q: int = (size - 1) / c;
    let r: int = (size - 1) % c;
    vstd::arithmetic::div_mod::lemma_fundamental_div_mod(size - 1, c);
    assert(0 <= r < c);
    assert(size + c - 1 == (q + 1) * c + r) by (nonlinear_arith)
        requires
            size - 1 == c * q + r,
    ;
    vstd::arithmetic::div_mod::lemma_fundamental_div_mod_converse(size + c - 1, c, q + 1, r);
    assert(n == q + 1);
    assert(q >= 0);
    assert((n - 1) * c < size && size <= n * c) by (nonlinear_arith)
        requires
            size - 1 == c * q + r,
            n == q + 1,
            0 <= r < c,
    ;
    assert(n <= size) by (nonlinear_arith)
        requires
            (n - 1) * c < size,
            c == 33554432,
            n >= 1,
    ;
}

/// Lists the chunks of an object of `size` bytes as `(index, first byte)`
/// pairs: `(i, i * CHUNK_SIZE)` for every chunk `i`.
pub fn chunk_starts(size: i64) -> (starts: Vec<(usize, i64)>)
    requires
        num_chunks(size as int) <= usize::MAX,
    ensures
        starts@.len() == num_chunks(size as int),
        forall|i: int|
            0 <= i < starts@.len() ==> #[trigger] starts@[i] == (i as usize, (i * CHUNK_SIZE) as i64),
{
    let mut starts: Vec<(usize, i64)> = Vec::new();
    if size <= 0 {
        return starts;
    }
    proof {
        lemma_chunk_count(size as int);
    }
    let n: usize = ((size - 1) / (CHUNK_SIZE as i64) + 1) as usize;
    assert(n == num_chunks(size as int));
    let mut i: usize = 0;
    while i < n
        invariant
            n == num_chunks(size as int),
            (n - 1) * CHUNK_SIZE < size,
            i <= n,
            starts@.len() == i,
            forall|j: int|
                0 <= j < i ==> #[trigger] starts@[j] == (j as usize, (j * CHUNK_SIZE) as i64),
        decreases n - i,
    {
        assert(i * CHUNK_SIZE <= (n - 1) * CHUNK_SIZE) by (nonlinear_arith)
            requires
                i < n,
        ;
        assert(i <= i * CHUNK_SIZE) by (nonlinear_arith);
        let start: i64 = (i as i64) * (CHUNK_SIZE as i64);
        assert(start == i * CHUNK_SIZE);
        starts.push((i, start));
        i = i + 1;
    }
    starts
}

/// The chunks per worker: `max(ceil(n / workers), 1)`.
pub open spec fn spec_chunks_per_worker(n: int, workers: int) -> int {
    if ceil_div(n, workers) >= 1 {
        ceil_div(n, workers)
    } else {
        1
    }
}

/// `ceil_div(a, b) == k + 1` when `a` lies in `(k * b, (k + 1) * b]`, and
/// `ceil_div(k * b, b) == k`.
pub proof fn lemma_ceil_div_between(a: int, b: int, k: int)
    requires
        b > 0,
        k >= 0,
        k * b <= a <= (k + 1) * b,
    ensures
        a == k * b ==> ceil_div(a, b) == k,
        a > k * b ==> ceil_div(a, b) == k + 1,
{
    if a == k * b {
        vstd::arithmetic::div_mod::lemma_fundamental_div_mod_converse(a + b - 1, b, k, b - 1);
    } else {
        assert(a + b - 1 == (k + 1) * b + (a - k * b - 1)) by (nonlinear_arith);
        vstd::arithmetic::div_mod::lemma_fundamental_div_mod_converse(
            a + b - 1,
            b,
            k + 1,
            a - k * b - 1,
        );
    }
}

/// The number of download workers: one per chunk, but at most `concurrency`.
pub fn worker_count(concurrency: usize, num_chunks: usize) -> (workers: usize)
    ensures
        workers == min_int(concurrency as int, num_chunks as int),
{
    if concurrency <= num_chunks {
        concurrency
    } else {
        num_chunks
    }
}

/// The number of chunks each worker takes, `max(ceil(n / workers), 1)`: the
/// fewest per worker with which `workers` workers cover all `n` chunks.
pub fn chunks_per_worker(num_chunks: usize, workers: usize) -> (per: usize)
    requires
        workers > 0,
    ensures
        per == spec_chunks_per_worker(num_chunks as int, workers as int),
        per >= 1,
        workers * per >= num_chunks,
        per > 1 ==> workers * (per - 1) < num_chunks,
{
    let q: usize = num_chunks / workers;
    let r: usize = num_chunks % workers;
    proof {
        vstd::arithmetic::div_mod::lemma_fundamental_div_mod(num_chunks as int, workers as int);
        assert(num_chunks == workers * q + r);
        assert(q * workers <= num_chunks) by (nonlinear_arith)
            requires
                num_chunks == workers * q + r,
                r >= 0,
        ;
    }
    let c: usize = if r != 0 {
        proof {
            assert(q < num_chunks) by (nonlinear_arith)
                requires
                    num_chunks == workers * q + r,
                    0 < r < workers,
                    q >= 0,
            ;
            assert(q * workers < num_chunks && num_chunks < (q + 1) * workers) by (nonlinear_arith)
                requires
                    num_chunks == workers * q + r,
                    0 < r < workers,
            ;
            lemma_ceil_div_between(num_chunks as int, workers as int, q as int);
        }
        q + 1
    } else {
        proof {
            assert(num_chunks == q * workers && num_chunks <= (q + 1) * workers) by (nonlinear_arith)
                requires
                    num_chunks == workers * q + r,
                    r == 0,
                    workers > 0,
            ;
            lemma_ceil_div_between(num_chunks as int, workers as int, q as int);
        }
        q
    };
    let per: usize = if c == 0 {
        1
    } else {
        c
    };
    proof {
        if r != 0 {
            assert(workers * per >= num_chunks && workers * (per - 1) < num_chunks) by (nonlinear_arith)
                requires
                    num_chunks == workers * q + r,
                    0 < r < workers,
                    per == q + 1,
            ;
        } else if q == 0 {
            assert(num_chunks == 0) by (nonlinear_arith)
                requires
                    num_chunks == workers * q + r,
                    r == 0,
                    q == 0,
            ;
        } else {
            assert(workers * per >= num_chunks && workers * (per - 1) < num_chunks) by (nonlinear_arith)
                requires
                    num_chunks == workers * q,
                    workers > 0,
                    per == q,
                    q >= 1,
            ;
        }
    }
    per
}

/// Whether an object of `size` bytes can be planned: its length fits in
/// memory, and the end of every chunk is representable as an `i64` offset.
pub open spec fn download_fits(size: int) -> bool {
    &&& size <= usize::MAX
    &&& num_chunks(size) * CHUNK_SIZE <= i64::MAX
}

/// The inclusive byte range of chunk `index`, which starts at `start`, in an
/// object of `size` bytes: it ends at the next chunk boundary or at the end
/// of the object, whichever is first. The offsets are converted to the
/// unsigned form a ranged read takes.
pub fn chunk_range(index: usize, start: i64, size: i64) -> (range: ChunkRange)
    requires
        start + CHUNK_SIZE <= i64::MAX,
        min_int(start + CHUNK_SIZE, size as int) > i64::MIN,
    ensures
        range.index == index,
        range.first == start as u64,
        range.last == (min_int(start + CHUNK_SIZE, size as int) - 1) as u64,
{
    let next: i64 = start + CHUNK_SIZE as i64;
    let end: i64 = if next <= size {
        next
    } else {
        size
    } - 1;
    ChunkRange { index, first: start as u64, last: end as u64 }
}

/// Batch `b` of `ranges` cut into batches of `per`: the `per` ranges from
/// `b * per`, or the rest of them.
pub open spec fn batch_of(ranges: Seq<ChunkRange>, per: int, b: int) -> Seq<ChunkRange> {
    ranges.subrange(b * per, min_int((b + 1) * per, ranges.len() as int))
}

/// `ranges` cut into consecutive batches of `per` ranges, the last possibly
/// shorter.
pub open spec fn batched(ranges: Seq<ChunkRange>, per: int) -> Seq<Seq<ChunkRange>> {
    Seq::new(ceil_div(ranges.len() as int, per) as nat, |b: int| batch_of(ranges, per, b))
}

/// The contents of a list of batches.
pub open spec fn batches_view(batches: Seq<Vec<ChunkRange>>) -> Seq<Seq<ChunkRange>> {
    batches.map_values(|batch: Vec<ChunkRange>| batch@)
}

/// Cuts `ranges` into consecutive batches of `per` ranges.
fn batch_ranges(ranges: &Vec<ChunkRange>, per: usize) -> (batches: Vec<Vec<ChunkRange>>)
    requires
        per > 0,
    ensures
        batches_view(batches@) == batched(ranges@, per as int),
{
    let n: usize = ranges.len();
    let mut batches: Vec<Vec<ChunkRange>> = Vec::new();
    let mut start: usize = 0;
    assert(0 * per == 0) by (nonlinear_arith);
    assert(start == min_int(batches@.len() * per, n as int));
    while start < n
        invariant
            n == ranges@.len(),
            per > 0,
            start <= n,
            start == min_int(batches@.len() * per, n as int),
            batches@.len() > 0 ==> (batches@.len() - 1) * per < n,
            forall|b: int|
                0 <= b < batches@.len() ==> #[trigger] batches@[b]@ == batch_of(
                    ranges@,
                    per as int,
                    b,
                ),
        decreases n - start,
    {
        let ghost len: nat = batches@.len();
        assert(start == len * per);
        let end: usize = if n - start <= per {
            n
        } else {
            start + per
        };
        assert(end == min_int((len + 1) * per, n as int)) by (nonlinear_arith)
            requires
                start == len * per,
                end == (if n - start <= per {
                    n as int
                } else {
                    start + per
                }),
        ;
        let mut batch: Vec<ChunkRange> = Vec::new();
        let mut i: usize = start;
        while i < end
            invariant
                n == ranges@.len(),
                start <= i <= end <= n,
                batch@ == ranges@.subrange(start as int, i as int),
            decreases end - i,
        {
            batch.push(ranges[i]);
            i = i + 1;
            assert(batch@ =~= ranges@.subrange(start as int, i as int));
        }
        batches.push(batch);
        assert((len + 1) * per == len * per + per) by (nonlinear_arith);
        start = end;
    }
    let ghost len: nat = batches@.len();
    proof {
        if len == 0 {
            assert(n == 0);
            assert(ceil_div(0, per as int) == 0) by {
                lemma_ceil_div_between(0, per as int, 0);
            }
        } else {
            assert(n <= len * per);
            assert(len * per == (len - 1) * per + per) by (nonlinear_arith);
            lemma_ceil_div_between(n as int, per as int, len - 1);
        }
    }
    assert(batches_view(batches@) =~= batched(ranges@, per as int));
    batches
}

/// How an object is fetched.
pub enum DownloadPlan {
    /// In one request.
    Whole,
    /// As chunk ranges, into a buffer of `size` bytes, by `workers` workers,
    /// each of which fetches the ranges of one batch.
    Chunked { size: usize, workers: usize, batches: Vec<Vec<ChunkRange>> },
}

/// Whether `plan_download` accepts an object of `size` bytes with
/// `concurrency` workers: always for objects of at most one chunk; for larger
/// ones, when there is at least one worker and the object fits.
pub fn download_plannable(size: i64, concurrency: usize) -> (ok: bool)
    ensures
        ok == (size <= CHUNK_SIZE || (concurrency > 0 && download_fits(size as int))),
        size <= CHUNK_SIZE ==> ok,
        ok && size > CHUNK_SIZE ==> concurrency >= 1 && size <= usize::MAX,
        concurrency >= 1 && CHUNK_SIZE < size <= usize::MAX && ((size - 1) / (CHUNK_SIZE as int)
            + 1) * CHUNK_SIZE <= i64::MAX ==> ok,
{
    proof {
        if CHUNK_SIZE < size <= usize::MAX && ((size - 1) / (CHUNK_SIZE as int) + 1) * CHUNK_SIZE
            <= i64::MAX {
            lemma_large_objects_are_plannable(size as int);
        }
    }
    if size <= CHUNK_SIZE as i64 {
        return true;
    }
    if concurrency == 0 || size as u64 > usize::MAX as u64 {
        return false;
    }
    proof {
        lemma_chunk_count(size as int);
    }
    let n: i64 = (size - 1) / (CHUNK_SIZE as i64) + 1;
    proof {
        let c: int = CHUNK_SIZE as int;
        let m: int = i64::MAX as int;
        vstd::arithmetic::div_mod::lemma_fundamental_div_mod(m, c);
        assert((n <= m / c) <==> (n * c <= m)) by (nonlinear_arith)
            requires
                m == c * (m / c) + m % c,
                0 <= m % c < c,
                n >= 1,
                c > 0,
        ;
    }
    n <= i64::MAX / (CHUNK_SIZE as i64)
}

/// Plans the download of an object of `size` bytes: objects up to
/// `CHUNK_SIZE` bytes in one request; larger ones as all their chunk ranges,
/// cut into batches of `max(ceil(n / workers), 1)` for
/// `workers = min(concurrency, n)` workers, `n` being the number of chunks.
/// There are at most `workers` batches; as each is fetched by one worker, one
/// range at a time, at most `min(concurrency, n)` ranged reads of one download
/// are in flight at once.
pub fn plan_download(size: i64, concurrency: usize) -> (plan: DownloadPlan)
    requires
        size <= CHUNK_SIZE || (concurrency > 0 && download_fits(size as int)),
    ensures
        size <= CHUNK_SIZE ==> plan is Whole,
        size > CHUNK_SIZE ==> (plan matches DownloadPlan::Chunked { size: s, workers: w, batches: b }
            && s == size && w == min_int(concurrency as int, num_chunks(size as int))
            && batches_view(b@) == batched(
            all_chunk_ranges(size as int),
            spec_chunks_per_worker(num_chunks(size as int), w as int),
        ) && b@.len() <= w && w <= concurrency),
        size > CHUNK_SIZE ==> (plan matches DownloadPlan::Chunked { batches: b, .. }
            && batches_view(b@).flatten().len() * CHUNK_SIZE >= size && (batches_view(
            b@,
        ).flatten().len() - 1) * CHUNK_SIZE < size && (forall|k: int|
            0 <= k < batches_view(b@).flatten().len() ==> #[trigger] batches_view(
                b@,
            ).flatten()[k].index == k && batches_view(b@).flatten()[k].first == k * CHUNK_SIZE
                && batches_view(b@).flatten()[k].last == (if k * CHUNK_SIZE + CHUNK_SIZE <= size {
                k * CHUNK_SIZE + CHUNK_SIZE
            } else {
                size as int
            }) - 1) && (forall|x: int, j: int|
            0 <= x < b@.len() && 0 <= j < b@[x]@.len() ==> #[trigger] b@[x]@[j].first
                == b@[x]@[j].index * CHUNK_SIZE)),
{
    if size <= CHUNK_SIZE as i64 {
        return DownloadPlan::Whole;
    }
    proof {
        lemma_chunk_count(size as int);
    }
    let starts = chunk_starts(size);
    let n: usize = starts.len();
    let workers: usize = worker_count(concurrency, n);
    let per: usize = chunks_per_worker(n, workers);
    let mut ranges: Vec<ChunkRange> = Vec::new();
    let mut k: usize = 0;
    while k < n
        invariant
            n == starts@.len(),
            n == num_chunks(size as int),
            size > CHUNK_SIZE,
            download_fits(size as int),
            forall|i: int|
                0 <= i < n ==> #[trigger] starts@[i] == (i as usize, (i * CHUNK_SIZE) as i64),
            k <= n,
            ranges@.len() == k,
            forall|i: int|
                0 <= i < k ==> #[trigger] ranges@[i] == spec_chunk_range(i, size as int),
        decreases n - k,
    {
        let (index, start) = starts[k];
        proof {
            lemma_chunk_count(size as int);
            assert(k * CHUNK_SIZE <= (n - 1) * CHUNK_SIZE) by (nonlinear_arith)
                requires
                    k < n,
            ;
            assert((n - 1) * CHUNK_SIZE + CHUNK_SIZE == n * CHUNK_SIZE) by (nonlinear_arith);
        }
        let range = chunk_range(index, start, size);
        assert(range == spec_chunk_range(k as int, size as int)) by {
            assert(0 <= k * CHUNK_SIZE < size) by (nonlinear_arith)
                requires
                    k < n,
                    (n - 1) * CHUNK_SIZE < size,
            ;
        }
        ranges.push(range);
        k = k + 1;
    }
    assert(ranges@ =~= all_chunk_ranges(size as int));
    let batches = batch_ranges(&ranges, per);
    proof {
        lemma_batch_count(n as int, workers as int);
        assert(batches_view(batches@).len() == batches@.len());
        assert(batched(ranges@, per as int).len() == ceil_div(n as int, per as int));
        lemma_batches_cover_every_chunk_once(ranges@, per as int);
        lemma_chunk_ranges_positional(size as int);
        let bv = batches_view(batches@);
        assert(bv.flatten() == all_chunk_ranges(size as int));
        assert forall|x: int, j: int|
            0 <= x < batches@.len() && 0 <= j < batches@[x]@.len() implies #[trigger] batches@[x]@[j].first
            == batches@[x]@[j].index * CHUNK_SIZE by {
            let p: int = per as int;
            assert(bv[x] == batches@[x]@);
            assert(bv[x] == batch_of(ranges@, p, x));
            let q: int = ceil_div(n as int, p);
            vstd::arithmetic::div_mod::lemma_fundamental_div_mod(n + p - 1, p);
            assert(x * p < n) by (nonlinear_arith)
                requires
                    n + p - 1 == p * q + (n + p - 1) % p,
                    0 <= (n + p - 1) % p < p,
                    0 <= x < q,
                    p > 0,
            ;
            assert((x + 1) * p == x * p + p) by (nonlinear_arith);
            assert(x * p >= 0) by (nonlinear_arith)
                requires
                    x >= 0,
                    p > 0,
            ;
            assert(batch_of(ranges@, p, x).len() == min_int((x + 1) * p, n as int) - x * p);
            assert(batches@[x]@[j] == ranges@[x * p + j]);
            assert(ranges@[x * p + j] == all_chunk_ranges(size as int)[x * p + j]);
        }
    }
    DownloadPlan::Chunked { size: size as usize, workers, batches }
}

/// Cutting `n` chunks into batches of `max(ceil(n / w), 1)` gives at most `w`
/// batches, so no more workers than planned are needed.
pub proof fn lemma_batch_count(n: int, w: int)
    requires
        n >= 0,
        w >= 1,
    ensures
        ceil_div(n, spec_chunks_per_worker(n, w)) <= w,
{
    let per: int = spec_chunks_per_worker(n, w);
    let q: int = ceil_div(n, w);
    // n <= w * q: the batches of size q cover all chunks.
    vstd::arithmetic::div_mod::lemma_fundamental_div_mod(n + w - 1, w);
    let r: int = (n + w - 1) % w;
    assert(n + w - 1 == w * q + r);
    assert(0 <= r < w);
    assert(n <= w * per) by (nonlinear_arith)
        requires
            n + w - 1 == w * q + r,
            r < w,
            per >= q,
            per >= 1,
            w >= 1,
    ;
    // ceil(n / per) <= w since n <= w * per.
    vstd::arithmetic::div_mod::lemma_fundamental_div_mod(n + per - 1, per);
    let c: int = ceil_div(n, per);
    let r2: int = (n + per - 1) % per;
    assert(n + per - 1 == per * c + r2);
    assert(0 <= r2 < per);
    assert(c <= w) by (nonlinear_arith)
        requires
            n + per - 1 == per * c + r2,
            0 <= r2,
            n <= w * per,
            per >= 1,
    ;
}

/// Laying the batches end to end gives back every range once, in order: no
/// chunk is lost or fetched twice.
pub proof fn lemma_batches_cover_every_chunk_once(ranges: Seq<ChunkRange>, per: int)
    requires
        per > 0,
    ensures
        batched(ranges, per).flatten() == ranges,
    decreases ranges.len(),
{
    let len: int = ranges.len() as int;
    let bs = batched(ranges, per);
    if len == 0 {
        lemma_ceil_div_between(0, per, 0);
        assert(bs.len() == 0);
        assert(bs.flatten() =~= ranges);
    } else if len <= per {
        lemma_ceil_div_between(len, per, 0);
        assert(bs.len() == 1);
        assert(bs[0] =~= ranges);
        assert(bs.drop_first().len() == 0);
        assert(bs.drop_first().flatten() =~= Seq::<ChunkRange>::empty());
        assert(bs.flatten() == bs[0] + bs.drop_first().flatten());
        assert(bs.flatten() =~= ranges);
    } else {
        let rest = ranges.skip(per);
        lemma_batches_cover_every_chunk_once(rest, per);
        let k: int = ceil_div(len - per, per);
        vstd::arithmetic::div_mod::lemma_fundamental_div_mod(len - per + per - 1, per);
        let r: int = (len - per + per - 1) % per;
        assert(len - per + per - 1 == per * k + r);
        assert(len + per - 1 == (k + 1) * per + r) by (nonlinear_arith)
            requires
                len - per + per - 1 == per * k + r,
        ;
        vstd::arithmetic::div_mod::lemma_fundamental_div_mod_converse(len + per - 1, per, k + 1, r);
        assert(bs.len() == k + 1);
        let rb = batched(rest, per);
        assert(rb.len() == k);
        assert forall|b: int| 0 <= b < k implies #[trigger] bs.drop_first()[b] == rb[b] by {
            assert((b + 1) * per == per + b * per) by (nonlinear_arith);
            assert((b + 2) * per == per + (b + 1) * per) by (nonlinear_arith);
            assert(b * per < len - per) by (nonlinear_arith)
                requires
                    len - per + per - 1 == per * k + r,
                    0 <= b < k,
                    r >= 0,
                    per > 0,
            ;
            assert(bs.drop_first()[b] == bs[b + 1]);
            assert(bs[b + 1] == batch_of(ranges, per, b + 1));
            assert(rb[b] == batch_of(rest, per, b));
            assert(min_int((b + 2) * per, len) == per + min_int((b + 1) * per, len - per));
            assert(batch_of(ranges, per, b + 1) =~= batch_of(rest, per, b));
        }
        assert(bs.drop_first() =~= rb);
        assert(bs[0] =~= ranges.take(per));
        assert(bs.flatten() == bs[0] + bs.drop_first().flatten());
        assert(bs.flatten() =~= ranges);
    }
}

/// The chunk ranges of an object tile it: the first starts at byte 0, each
/// starts right after the one before it ends, the last ends at the object's
/// last byte, and every chunk holds `CHUNK_SIZE` bytes but the last, which
/// holds between one and `CHUNK_SIZE` bytes.
pub proof fn lemma_chunk_ranges_tile(size: int)
    requires
        size > 0,
        download_fits(size),
    ensures
        all_chunk_ranges(size).len() >= 1,
        all_chunk_ranges(size)[0].first == 0,
        all_chunk_ranges(size)[all_chunk_ranges(size).len() - 1].last == size - 1,
        forall|i: int|
            0 <= i < all_chunk_ranges(size).len() - 1 ==> #[trigger] all_chunk_ranges(size)[i].last
                + 1 == all_chunk_ranges(size)[i + 1].first && all_chunk_ranges(size)[i].last
                - all_chunk_ranges(size)[i].first + 1 == CHUNK_SIZE,
        1 <= all_chunk_ranges(size)[all_chunk_ranges(size).len() - 1].last - all_chunk_ranges(
            size,
        )[all_chunk_ranges(size).len() - 1].first + 1 <= CHUNK_SIZE,
{
    lemma_chunk_count(size);
    let n: int = num_chunks(size);
    let rs = all_chunk_ranges(size);
    assert(rs[0] == spec_chunk_range(0, size));
    assert(rs[n - 1] == spec_chunk_range(n - 1, size));
    assert(n * CHUNK_SIZE == (n - 1) * CHUNK_SIZE + CHUNK_SIZE) by (nonlinear_arith);
    assert forall|i: int| 0 <= i < n - 1 implies #[trigger] rs[i].last + 1 == rs[i + 1].first
        && rs[i].last - rs[i].first + 1 == CHUNK_SIZE by {
        assert(rs[i] == spec_chunk_range(i, size));
        assert(rs[i + 1] == spec_chunk_range(i + 1, size));
        assert((i + 1) * CHUNK_SIZE <= (n - 1) * CHUNK_SIZE) by (nonlinear_arith)
            requires
                i + 1 <= n - 1,
        ;
        assert((i + 1) * CHUNK_SIZE == i * CHUNK_SIZE + CHUNK_SIZE) by (nonlinear_arith);
        assert(0 <= i * CHUNK_SIZE) by (nonlinear_arith)
            requires
                i >= 0,
        ;
    }
}

/// Chunk `i` is the `i`-th range of the object: its index is its position,
/// it starts at byte `i * CHUNK_SIZE`, and it ends one byte before the next
/// chunk boundary or at the object's last byte, whichever is first; the
/// chunks are just enough to cover the object.
pub proof fn lemma_chunk_ranges_positional(size: int)
    requires
        size > 0,
        download_fits(size),
    ensures
        all_chunk_ranges(size).len() * CHUNK_SIZE >= size,
        (all_chunk_ranges(size).len() - 1) * CHUNK_SIZE < size,
        forall|i: int|
            0 <= i < all_chunk_ranges(size).len() ==> #[trigger] all_chunk_ranges(size)[i].index
                == i && all_chunk_ranges(size)[i].first == i * CHUNK_SIZE && all_chunk_ranges(
                size,
            )[i].last == (if i * CHUNK_SIZE + CHUNK_SIZE <= size {
                i * CHUNK_SIZE + CHUNK_SIZE
            } else {
                size
            }) - 1,
{
    lemma_chunk_count(size);
    let n: int = num_chunks(size);
    let rs = all_chunk_ranges(size);
    assert forall|i: int| 0 <= i < n implies #[trigger] rs[i].index == i && rs[i].first == i
        * CHUNK_SIZE && rs[i].last == (if i * CHUNK_SIZE + CHUNK_SIZE <= size {
        i * CHUNK_SIZE + CHUNK_SIZE
    } else {
        size
    }) - 1 by {
        assert(rs[i] == spec_chunk_range(i, size));
        assert(0 <= i * CHUNK_SIZE <= (n - 1) * CHUNK_SIZE) by (nonlinear_arith)
            requires
                0 <= i < n,
        ;
    }
}

/// Every object larger than one chunk whose length fits in memory and whose
/// chunk ends are representable as `i64` offsets can be planned; in
/// particular every such object of at most `i64::MAX - CHUNK_SIZE + 1` bytes.
pub proof fn lemma_large_objects_are_plannable(size: int)
    requires
        CHUNK_SIZE < size <= usize::MAX,
        ((size - 1) / (CHUNK_SIZE as int) + 1) * CHUNK_SIZE <= i64::MAX,
    ensures
        download_fits(size),
        size + CHUNK_SIZE <= i64::MAX + 1 ==> ((size - 1) / (CHUNK_SIZE as int) + 1) * CHUNK_SIZE
            <= i64::MAX,
{
    lemma_chunk_count(size);
    let c: int = CHUNK_SIZE as int;
    vstd::arithmetic::div_mod::lemma_fundamental_div_mod(size - 1, c);
    assert(((size - 1) / c + 1) * c <= size - 1 + c) by (nonlinear_arith)
        requires
            size - 1 == c * ((size - 1) / c) + (size - 1) % c,
            0 <= (size - 1) % c,
    ;
}

} // verus!
