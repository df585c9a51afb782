//! Splitting an id sequence into bounded, order-preserving chunks.
use vstd::arithmetic::div_mod::lemma_fundamental_div_mod_converse;
use vstd::prelude::*;

verus! {

/// Number of pieces of size at most `size` needed to hold `n` items.
pub open spec fn ceil_div(n: int, size: int) -> int
    recommends
        size > 0,
{
    (n + size - 1) / size
}

pub open spec fn min_int(a: int, b: int) -> int {
    if a <= b {
        a
    } else {
        b
    }
}

/// The `i`-th chunk of `s` when it is cut into pieces of `size` items.
pub open spec fn chunk_at<T>(s: Seq<T>, size: int, i: int) -> Seq<T> {
    s.subrange(i * size, min_int((i + 1) * size, s.len() as int))
}

/// `s` cut, in order, into pieces of `size` items; the last one may be shorter.
pub open spec fn chunks_of<T>(s: Seq<T>, size: int) -> Seq<Seq<T>> {
    Seq::new(ceil_div(s.len() as int, size) as nat, |i: int| chunk_at(s, size, i))
}

/// The contents of each vector of `v`.
pub open spec fn vec_views<T>(v: Seq<Vec<T>>) -> Seq<Seq<T>> {
    v.map_values(|c: Vec<T>| c@)
}

/// `k` full pieces of `size` hold `n` items, with `k * size < n <= (k + 1) * size`,
/// in `k + 1` pieces.
pub proof fn lemma_ceil_div_step(n: int, size: int, k: int)
    requires
        size > 0,
        k >= 0,
        k * size < n <= (k + 1) * size,
    ensures
        ceil_div(n, size) == k + 1,
{
    assert((k + 1) * size == k * size + size) by (nonlinear_arith);
    lemma_fundamental_div_mod_converse(n + size - 1, size, k + 1, n - 1 - k * size);
}

/// `k` full pieces of `size` are `k` pieces.
pub proof fn lemma_ceil_div_exact(size: int, k: int)
    requires
        size > 0,
        k >= 0,
    ensures
        ceil_div(k * size, size) == k,
{
    lemma_fundamental_div_mod_converse(k * size + size - 1, size, k, size - 1);
}

/// Cuts `ids` into consecutive chunks of `size` items, keeping their order;
/// only the last chunk may hold fewer.
pub fn chunk_ids<T: Copy>(ids: &Vec<T>, size: usize) -> (chunks: Vec<Vec<T>>)
    requires
        size > 0,
    ensures
        vec_views(chunks@) == chunks_of(ids@, size as int),
{
    let mut chunks: Vec<Vec<T>> = Vec::new();
    let mut start: usize = 0;
    let n: usize = ids.len();
    proof {
        lemma_ceil_div_exact(size as int, 0);
        assert(0 * (size as int) == 0);
    }
    while start < n
        invariant
            size > 0,
            n == ids@.len(),
            start <= n,
            start < n ==> start as int == chunks@.len() * size,
            start == n ==> chunks@.len() == ceil_div(n as int, size as int),
            start < n ==> chunks@.len() == ceil_div(start as int, size as int),
            forall|i: int|
                0 <= i < chunks@.len() ==> #[trigger] chunks@[i]@ == chunk_at(
                    ids@,
                    size as int,
                    i,
                ),
        decreases n - start,
    {
        let end: usize = if n - start <= size {
            n
        } else {
            start + size
        };
        let mut chunk: Vec<T> = Vec::new();
        let mut j: usize = start;
        while j < end
            invariant
                start <= j <= end,
                end <= n,
                n == ids@.len(),
                chunk@ == ids@.subrange(start as int, j as int),
            decreases end - j,
        {
            chunk.push(ids[j]);
            j = j + 1;
            assert(chunk@ =~= ids@.subrange(start as int, j as int));
        }
        let ghost k = chunks@.len() as int;
        proof {
            assert((k + 1) * size == k * size + size) by (nonlinear_arith);
            assert(end as int == min_int((k + 1) * size, n as int));
            if end == n {
                lemma_ceil_div_step(n as int, size as int, k);
            } else {
                lemma_ceil_div_exact(size as int, k + 1);
            }
        }
        chunks.push(chunk);
        start = end;
    }
    proof {
        if n == 0 {
            assert(ceil_div(0, size as int) == 0) by {
                lemma_ceil_div_exact(size as int, 0);
            }
        }
        assert(vec_views(chunks@) =~= chunks_of(ids@, size as int));
    }
    chunks
}

/// Chunking loses, repeats and reorders nothing: the chunks, joined in order,
/// give back the sequence; there are `ceil(n / size)` of them; none is empty
/// and none holds more than `size` items.
pub proof fn lemma_chunks_partition<T>(s: Seq<T>, size: int)
    requires
        size > 0,
    ensures
        chunks_of(s, size).flatten() == s,
        chunks_of(s, size).len() == ceil_div(s.len() as int, size),
        forall|i: int|
            0 <= i < chunks_of(s, size).len() ==> 0 < (#[trigger] chunks_of(s, size)[i]).len()
                <= size,
{
    let cs = chunks_of(s, size);
    let m: int = cs.len() as int;
    let n: int = s.len() as int;
    lemma_chunk_prefix(s, size, m);
    if m > 0 {
        assert((m - 1) * size < n) by {
            lemma_ceil_div_bounds(n, size);
        }
        assert(n <= m * size) by {
            lemma_ceil_div_bounds(n, size);
        }
    } else {
        assert(n <= 0) by {
            lemma_ceil_div_bounds(n, size);
        }
    }
    assert(cs.subrange(0, m) =~= cs);
    assert(s.subrange(0, min_int(m * size, n)) =~= s);
    assert forall|i: int| 0 <= i < cs.len() implies 0 < (#[trigger] cs[i]).len() <= size by {
        lemma_ceil_div_bounds(n, size);
        assert(i * size < n) by (nonlinear_arith)
            requires
                0 <= i < m,
                (m - 1) * size < n,
                size > 0,
        ;
        assert((i + 1) * size == i * size + size) by (nonlinear_arith);
    }
}

/// `ceil_div(n, size)` pieces are enough for `n` items, and one fewer is not.
pub proof fn lemma_ceil_div_bounds(n: int, size: int)
    requires
        size > 0,
        n >= 0,
    ensures
        ceil_div(n, size) >= 0,
        n <= ceil_div(n, size) * size,
        ceil_div(n, size) > 0 ==> (ceil_div(n, size) - 1) * size < n,
        ceil_div(n, size) == 0 <==> n == 0,
{
    let q: int = ceil_div(n, size);
    let r: int = (n + size - 1) % size;
    vstd::arithmetic::div_mod::lemma_fundamental_div_mod(n + size - 1, size);
    assert(0 <= r < size) by {
        vstd::arithmetic::div_mod::lemma_mod_bound(n + size - 1, size);
    }
    assert(n + size - 1 == size * q + r);
    assert(q * size == size * q) by (nonlinear_arith);
    assert((q - 1) * size == q * size - size) by (nonlinear_arith);
    if n == 0 {
        lemma_ceil_div_exact(size, 0);
    }
    if q < 0 {
        assert(size * q <= -size) by (nonlinear_arith)
            requires
                q < 0,
                size > 0,
        ;
    }
}

/// The first `k` chunks, joined, are the first `min(k * size, n)` items.
pub proof fn lemma_chunk_prefix<T>(s: Seq<T>, size: int, k: int)
    requires
        size > 0,
        0 <= k <= chunks_of(s, size).len(),
    ensures
        chunks_of(s, size).subrange(0, k).flatten() == s.subrange(
            0,
            min_int(k * size, s.len() as int),
        ),
    decreases k,
{
    let cs = chunks_of(s, size);
    let n: int = s.len() as int;
    if k == 0 {
        assert(cs.subrange(0, 0) =~= Seq::<Seq<T>>::empty());
        assert(s.subrange(0, 0) =~= Seq::<T>::empty());
    } else {
        lemma_chunk_prefix(s, size, k - 1);
        lemma_ceil_div_bounds(n, size);
        assert((k - 1) * size < n) by (nonlinear_arith)
            requires
                1 <= k <= cs.len(),
                (cs.len() - 1) * size < n,
                size > 0,
        ;
        assert(k * size == (k - 1) * size + size) by (nonlinear_arith);
        assert(cs.subrange(0, k) =~= cs.subrange(0, k - 1).push(cs[k - 1]));
        cs.subrange(0, k - 1).lemma_flatten_push(cs[k - 1]);
        assert(s.subrange(0, min_int(k * size, n)) =~= s.subrange(0, (k - 1) * size) + chunk_at(
            s,
            size,
            k - 1,
        ));
    }
}

/// The indices `0, 1, ..., n - 1`.
pub open spec fn indices(n: int) -> Seq<usize> {
    Seq::new(n as nat, |i: int| i as usize)
}

/// The indices `0 .. n`, cut into consecutive chunks of `size`.
pub fn chunk_indices(n: usize, size: usize) -> (chunks: Vec<Vec<usize>>)
    requires
        size > 0,
    ensures
        vec_views(chunks@) == chunks_of(indices(n as int), size as int),
{
    let mut all: Vec<usize> = Vec::new();
    let mut i: usize = 0;
    while i < n
        invariant
            i <= n,
            all@ == indices(i as int),
        decreases n - i,
    {
        all.push(i);
        i = i + 1;
        proof {
            assert(all@ =~= indices(i as int));
        }
    }
    chunk_ids(&all, size)
}

/// Every index a chunk of `0 .. n` names is below `n`.
pub proof fn lemma_chunk_indices_in_range(n: int, size: int)
    requires
        size > 0,
        0 <= n <= usize::MAX,
    ensures
        forall|b: int, k: int|
            0 <= b < chunks_of(indices(n), size).len() && 0 <= k < chunks_of(indices(n), size)[b].len()
                ==> (#[trigger] chunks_of(indices(n), size)[b][k]) < n,
{
    assert forall|b: int, k: int|
        0 <= b < chunks_of(indices(n), size).len() && 0 <= k < chunks_of(indices(n), size)[b].len()
            implies (#[trigger] chunks_of(indices(n), size)[b][k]) < n by {
        lemma_ceil_div_bounds(n, size);
        let q: int = ceil_div(n, size);
        assert(b * size >= 0) by (nonlinear_arith)
            requires
                b >= 0,
                size > 0,
        ;
        assert(b * size <= (q - 1) * size) by (nonlinear_arith)
            requires
                b <= q - 1,
                size > 0,
        ;
        assert(b * size < n);
        assert((b + 1) * size == b * size + size) by (nonlinear_arith);
        let c = chunk_at(indices(n), size, b);
        assert(c.len() == min_int((b + 1) * size, n) - b * size);
        assert(b * size + k < n);
        assert(c[k] == indices(n)[b * size + k]);
    }
}

} // verus!
