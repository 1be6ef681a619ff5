//! Partitioning of the input into contiguous, ordinal-tagged chunks.
//!
//! A chunk's ordinal `j` fixes where its output lands during reassembly:
//! chunk `j` holds exactly the elements `input[chunk_start(j) .. chunk_start(j+1)]`,
//! so the chunks partition the input without overlap and in order.

use vstd::prelude::*;
use vstd::arithmetic::div_mod::lemma_fundamental_div_mod;
use vstd::arithmetic::div_mod::lemma_mod_bound;

verus! {

/// How many chunks an input of length `n` yields with chunk size `c`:
/// one full chunk per `c` elements, plus one for any remainder.
pub open spec fn spec_num_chunks(n: int, c: int) -> int
    decreases n,
{
    if n <= 0 || c <= 0 {
        0
    } else if n <= c {
        1
    } else {
        1 + spec_num_chunks(n - c, c)
    }
}

/// The index of the first element of chunk `j`: `j * c`, capped at `n`.
/// Chunk `j` holds the elements `[spec_chunk_start(n, c, j), spec_chunk_start(n, c, j + 1))`.
pub open spec fn spec_chunk_start(n: int, c: int, j: int) -> int {
    if j * c <= n {
        j * c
    } else {
        n
    }
}

/// The chunks cover the whole input: `m` chunks of up to `c` elements reach
/// past `n`, while the first `m - 1` alone do not.
pub proof fn lemma_num_chunks_cover(n: int, c: int)
    requires
        c >= 1,
        n >= 0,
    ensures
        spec_num_chunks(n, c) * c >= n,
        n > 0 ==> (spec_num_chunks(n, c) - 1) * c < n,
        n == 0 ==> spec_num_chunks(n, c) == 0,
        spec_num_chunks(n, c) >= 0,
    decreases n,
{
    if n <= 0 {
    } else if n <= c {
    } else {
        lemma_num_chunks_cover(n - c, c);
        let m_rest = spec_num_chunks(n - c, c);
        assert((1 + m_rest) * c == c + m_rest * c) by (nonlinear_arith);
        assert((1 + m_rest - 1) * c == (m_rest - 1) * c + c) by (nonlinear_arith);
    }
}

/// The chunk count is the ceiling of `n / c`.
pub proof fn lemma_num_chunks_is_ceil(n: int, c: int)
    requires
        c >= 1,
        n >= 0,
    ensures
        spec_num_chunks(n, c) == (n + c - 1) / c,
{
    let m = spec_num_chunks(n, c);
    lemma_num_chunks_cover(n, c);
    if n == 0 {
        lemma_fundamental_div_mod(c - 1, c);
        lemma_mod_bound(c - 1, c);
        assert((c - 1) / c == 0) by (nonlinear_arith)
            requires
                c >= 1,
                c - 1 == c * ((c - 1) / c) + (c - 1) % c,
                0 <= (c - 1) % c < c,
        ;
    } else {
        let q = (n + c - 1) / c;
        lemma_fundamental_div_mod(n + c - 1, c);
        lemma_mod_bound(n + c - 1, c);
        assert(m == q) by (nonlinear_arith)
            requires
                c >= 1,
                n > 0,
                m * c >= n,
                (m - 1) * c < n,
                n + c - 1 == c * q + (n + c - 1) % c,
                0 <= (n + c - 1) % c < c,
        ;
    }
}

/// Bounds on one chunk: chunk `j` starts at `j * c`, holds at least one and
/// at most `c` elements, and every chunk before the last holds exactly `c`.
pub proof fn lemma_chunk_bounds(n: int, c: int, j: int)
    requires
        c >= 1,
        n >= 0,
        0 <= j < spec_num_chunks(n, c),
    ensures
        spec_chunk_start(n, c, j) == j * c,
        j * c < n,
        1 <= spec_chunk_start(n, c, j + 1) - spec_chunk_start(n, c, j) <= c,
        j < spec_num_chunks(n, c) - 1 ==> spec_chunk_start(n, c, j + 1) == (j + 1) * c,
{
    let m = spec_num_chunks(n, c);
    lemma_num_chunks_cover(n, c);
    assert(j * c <= (m - 1) * c && (j + 1) * c <= m * c && (j + 1) * c == j * c + c)
        by (nonlinear_arith)
        requires
            c >= 1,
            j + 1 <= m,
    ;
    if j < m - 1 {
        assert((j + 1) * c <= (m - 1) * c) by (nonlinear_arith)
            requires
                c >= 1,
                j + 1 <= m - 1,
        ;
    }
}

/// Splits `input` into `spec_num_chunks` contiguous chunks in order: chunk `j`
/// is exactly the slice of the input between the starts of chunks `j` and `j + 1`.
pub fn split_into_chunks<T>(input: Vec<T>, chunk_size: usize) -> (chunks: Vec<Vec<T>>)
    requires
        chunk_size >= 1,
    ensures
        chunks@.len() == spec_num_chunks(input@.len() as int, chunk_size as int),
        forall|j: int|
            0 <= j < chunks@.len() ==> #[trigger] chunks@[j]@ == input@.subrange(
                spec_chunk_start(input@.len() as int, chunk_size as int, j),
                spec_chunk_start(input@.len() as int, chunk_size as int, j + 1),
            ),
{
    let ghost in0 = input@;
    let ghost n = input@.len() as int;
    let ghost c = chunk_size as int;
    let mut rest = input;
    let mut chunks: Vec<Vec<T>> = Vec::new();
    while rest.len() > 0
        invariant
            chunk_size >= 1,
            c == chunk_size as int,
            n == in0.len(),
            rest@.len() <= n,
            spec_chunk_start(n, c, chunks@.len() as int) == n - rest@.len(),
            rest@ == in0.subrange(n - rest@.len(), n),
            forall|j: int|
                0 <= j < chunks@.len() ==> #[trigger] chunks@[j]@ == in0.subrange(
                    spec_chunk_start(n, c, j),
                    spec_chunk_start(n, c, j + 1),
                ),
            chunks@.len() + spec_num_chunks(rest@.len() as int, c) == spec_num_chunks(n, c),
            rest@.len() > 0 ==> chunks@.len() * c == spec_chunk_start(n, c, chunks@.len() as int),
        decreases rest@.len(),
    {
        let ghost rest0 = rest@;
        let ghost jlen = chunks@.len() as int;
        let ghost done = n - rest0.len();
        let k: usize = if rest.len() > chunk_size {
            chunk_size
        } else {
            rest.len()
        };
        let tail = rest.split_off(k);
        proof {
            assert((jlen + 1) * c == jlen * c + c) by (nonlinear_arith);
            assert(rest@ =~= in0.subrange(done, done + k as int));
            assert(tail@ =~= in0.subrange(done + k as int, n));
            assert(spec_chunk_start(n, c, jlen + 1) == done + k as int);
        }
        chunks.push(rest);
        rest = tail;
    }
    proof {
        assert(spec_num_chunks(0, c) == 0);
    }
    chunks
}

} // verus!
