//! The threshold-gated parallel map itself.
//!
//! `apply` maps a transform over a vector: inputs no longer than the policy
//! threshold are mapped inline; longer inputs are split into ordinal-tagged
//! chunks, one worker maps each chunk in order, and the per-chunk outputs are
//! concatenated in ordinal order, so the result preserves input order on
//! both paths.

use vstd::prelude::*;
use crate::chunking::{
    lemma_chunk_bounds, lemma_num_chunks_cover, spec_chunk_start, spec_num_chunks,
    split_into_chunks,
};
use crate::policy::{takes_parallel_path, Policy};

verus! {

/// Maps `f` over one chunk, in order, inline. This is both the body that a
/// worker runs on its chunk and the whole sequential path of `apply`.
pub fn map_chunk<T, R, F: Fn(T) -> R>(chunk: Vec<T>, f: F) -> (out: Vec<R>)
    requires
        forall|i: int| 0 <= i < chunk@.len() ==> call_requires(f, (#[trigger] chunk@[i],)),
    ensures
        out@.len() == chunk@.len(),
        forall|i: int| 0 <= i < chunk@.len() ==> call_ensures(f, (chunk@[i],), #[trigger] out@[i]),
{
    let ghost in0 = chunk@;
    let mut rest = chunk;
    let mut out: Vec<R> = Vec::new();
    while rest.len() > 0
        invariant
            forall|i: int| 0 <= i < in0.len() ==> call_requires(f, (#[trigger] in0[i],)),
            out@.len() + rest@.len() == in0.len(),
            rest@ == in0.subrange(out@.len() as int, in0.len() as int),
            forall|i: int| 0 <= i < out@.len() ==> call_ensures(f, (in0[i],), #[trigger] out@[i]),
        decreases rest@.len(),
    {
        let t = rest.remove(0);
        proof {
            assert(t == in0[out@.len() as int]);
            assert(rest@ =~= in0.subrange(out@.len() as int + 1, in0.len() as int));
        }
        out.push(f(t));
    }
    out
}

/// Runs one worker per chunk and collects each worker's output under its
/// chunk's ordinal.
///
/// Relies on `crossbeam::thread::scope`, `Scope::spawn` and
/// `ScopedJoinHandle::join`: `spawn` starts one worker per chunk, each worker
/// runs `map_chunk` on its own chunk, `join` returns that worker's output,
/// and `scope` joins every spawned worker before it returns, so no worker
/// outlives this call. Output `j` is the joined output of the worker spawned
/// for chunk `j`, whatever order the workers finish in.
#[verifier::external_body]
fn par_map_chunks<T: Send, R: Send, F: Fn(T) -> R + Copy + Send>(
    chunks: Vec<Vec<T>>,
    f: F,
) -> (out: Vec<Vec<R>>)
    requires
        forall|j: int, i: int|
            0 <= j < chunks@.len() && 0 <= i < chunks@[j]@.len() ==> call_requires(
                f,
                (#[trigger] chunks@[j]@[i],),
            ),
    ensures
        out@.len() == chunks@.len(),
        forall|j: int| 0 <= j < out@.len() ==> #[trigger] out@[j]@.len() == chunks@[j]@.len(),
        forall|j: int, i: int|
            0 <= j < out@.len() && 0 <= i < out@[j]@.len() ==> call_ensures(
                f,
                (chunks@[j]@[i],),
                #[trigger] out@[j]@[i],
            ),
{
    crossbeam::thread::scope(|s| {
        let mut handles = Vec::new();
        for chunk in chunks {
            handles.push(s.spawn(move |_| map_chunk(chunk, f)));
        }
        let mut out = Vec::new();
        for handle in handles {
            out.push(handle.join().expect("a worker panicked"));
        }
        out
    }).expect("failed to run the worker scope")
}

/// Concatenates per-chunk outputs in ordinal order, rebuilding the output
/// for the whole input `in0` that the chunks were cut from.
fn reassemble<T, R, F: Fn(T) -> R>(
    results: Vec<Vec<R>>,
    f: &F,
    Ghost(in0): Ghost<Seq<T>>,
    Ghost(c): Ghost<int>,
) -> (out: Vec<R>)
    requires
        c >= 1,
        results@.len() == spec_num_chunks(in0.len() as int, c),
        forall|j: int|
            0 <= j < results@.len() ==> #[trigger] results@[j]@.len() == spec_chunk_start(
                in0.len() as int,
                c,
                j + 1,
            ) - spec_chunk_start(in0.len() as int, c, j),
        forall|j: int, i: int|
            0 <= j < results@.len() && 0 <= i < results@[j]@.len() ==> call_ensures(
                *f,
                (in0[spec_chunk_start(in0.len() as int, c, j) + i],),
                #[trigger] results@[j]@[i],
            ),
    ensures
        out@.len() == in0.len(),
        forall|i: int| 0 <= i < in0.len() ==> call_ensures(*f, (in0[i],), #[trigger] out@[i]),
{
    let ghost n = in0.len() as int;
    let ghost res0 = results@;
    let mut rem = results;
    let mut out: Vec<R> = Vec::new();
    while rem.len() > 0
        invariant
            c >= 1,
            n == in0.len(),
            res0.len() == spec_num_chunks(n, c),
            rem@.len() <= res0.len(),
            rem@ == res0.subrange(res0.len() - rem@.len(), res0.len() as int),
            out@.len() == spec_chunk_start(n, c, res0.len() - rem@.len()),
            forall|j: int|
                0 <= j < res0.len() ==> #[trigger] res0[j]@.len() == spec_chunk_start(n, c, j + 1)
                    - spec_chunk_start(n, c, j),
            forall|j: int, i: int|
                0 <= j < res0.len() && 0 <= i < res0[j]@.len() ==> call_ensures(
                    *f,
                    (in0[spec_chunk_start(n, c, j) + i],),
                    #[trigger] res0[j]@[i],
                ),
            forall|i: int| 0 <= i < out@.len() ==> call_ensures(*f, (in0[i],), #[trigger] out@[i]),
        decreases rem@.len(),
    {
        let ghost j = res0.len() - rem@.len();
        let ghost out_before = out@;
        let ghost rem_before = rem@;
        let mut chunk = rem.remove(0);
        proof {
            assert(rem_before[0] == res0.subrange(j, res0.len() as int)[0]);
            assert(chunk == res0[j]);
            assert(rem@ =~= res0.subrange(j + 1, res0.len() as int));
            lemma_chunk_bounds(n, c, j);
        }
        out.append(&mut chunk);
        proof {
            let start = spec_chunk_start(n, c, j);
            assert forall|i: int| 0 <= i < out@.len() implies call_ensures(
                *f,
                (in0[i],),
                #[trigger] out@[i],
            ) by {
                if i < start {
                    assert(out@[i] == out_before[i]);
                } else {
                    assert(out@[i] == res0[j]@[i - start]);
                    assert(call_ensures(*f, (in0[start + (i - start)],), res0[j]@[i - start]));
                }
            }
        }
    }
    proof {
        lemma_num_chunks_cover(n, c);
        assert(spec_chunk_start(n, c, res0.len() as int) == n);
    }
    out
}

/// Applies `f` to every element of `input`, in order.
///
/// Inputs of length at most `p.threshold` are mapped inline; longer inputs
/// are partitioned into chunks of up to `p.chunk_size` elements, one worker
/// maps each chunk, and the chunk outputs are concatenated in ordinal order.
/// On either path the output has the input's length and `out[i]` is an
/// output of `f` on `input[i]`.
pub fn apply<T: Send, R: Send, F: Fn(T) -> R + Copy + Send>(
    input: Vec<T>,
    f: F,
    p: &Policy,
) -> (out: Vec<R>)
    requires
        p.wf(),
        forall|i: int| 0 <= i < input@.len() ==> call_requires(f, (#[trigger] input@[i],)),
    ensures
        out@.len() == input@.len(),
        forall|i: int| 0 <= i < input@.len() ==> call_ensures(f, (input@[i],), #[trigger] out@[i]),
{
    let ghost in0 = input@;
    let n = input.len();
    if !takes_parallel_path(n, p) {
        map_chunk(input, f)
    } else {
        let ghost c = p.chunk_size as int;
        let chunks = split_into_chunks(input, p.chunk_size);
        proof {
            assert forall|j: int, i: int|
                0 <= j < chunks@.len() && 0 <= i < chunks@[j]@.len() implies call_requires(
                f,
                (#[trigger] chunks@[j]@[i],),
            ) by {
                lemma_chunk_bounds(in0.len() as int, c, j);
                let start = spec_chunk_start(in0.len() as int, c, j);
                assert(chunks@[j]@[i] == in0[start + i]);
            }
        }
        let results = par_map_chunks(chunks, f);
        proof {
            assert forall|j: int|
                0 <= j < results@.len() implies #[trigger] results@[j]@.len() == spec_chunk_start(
                in0.len() as int,
                c,
                j + 1,
            ) - spec_chunk_start(in0.len() as int, c, j) by {
                lemma_chunk_bounds(in0.len() as int, c, j);
                assert(results@[j]@.len() == chunks@[j]@.len());
            }
            assert forall|j: int, i: int|
                0 <= j < results@.len() && 0 <= i < results@[j]@.len() implies call_ensures(
                f,
                (in0[spec_chunk_start(in0.len() as int, c, j) + i],),
                #[trigger] results@[j]@[i],
            ) by {
                lemma_chunk_bounds(in0.len() as int, c, j);
                let start = spec_chunk_start(in0.len() as int, c, j);
                assert(chunks@[j]@[i] == in0[start + i]);
                assert(call_ensures(f, (chunks@[j]@[i],), results@[j]@[i]));
            }
        }
        reassemble(results, &f, Ghost(in0), Ghost(c))
    }
}

/// `out` is a success output of `f` per element of `input`, in input order.
pub open spec fn ok_outputs<T, R, E, F: Fn(T) -> Result<R, E>>(
    f: F,
    input: Seq<T>,
    out: Seq<R>,
) -> bool {
    &&& out.len() == input.len()
    &&& forall|i: int|
        0 <= i < input.len() ==> call_ensures(f, (input[i],), Ok(#[trigger] out[i]))
}

/// `f` returned the error `e` on some element of `input`.
pub open spec fn fails_on<T, R, E, F: Fn(T) -> Result<R, E>>(f: F, input: Seq<T>, e: E) -> bool {
    exists|i: int| 0 <= i < input.len() && #[trigger] call_ensures(f, (input[i],), Err(e))
}

/// What `try_apply` promises of its outcome: on success, one `Ok` output of
/// `f` per input element, in input order; on failure, the reported error was
/// returned by `f` on some input element.
pub open spec fn fallible_apply_post<T, R, E, F: Fn(T) -> Result<R, E>>(
    f: F,
    input: Seq<T>,
    outcome: Result<Seq<R>, E>,
) -> bool {
    match outcome {
        Ok(out) => ok_outputs(f, input, out),
        Err(e) => fails_on(f, input, e),
    }
}

/// The outcome of `try_apply` with each element sequence replaced by its view.
pub open spec fn outcome_view<R, E>(outcome: Result<Vec<R>, E>) -> Result<Seq<R>, E> {
    match outcome {
        Ok(out) => Ok(out@),
        Err(e) => Err(e),
    }
}

/// Applies a fallible transform to every element of `input`, all or nothing.
///
/// Both paths run every element to completion first (on the parallel path,
/// every worker is joined); only then is the first failure, in input order,
/// reported. On success the outcome holds one `Ok` output of `f` per input
/// element, in input order; no partial or reordered sequence is ever
/// returned. If `f` cannot fail on any element of `input`, success is
/// guaranteed.
#[verifier::loop_isolation(false)]
pub fn try_apply<T: Send, R: Send, E: Send, F: Fn(T) -> Result<R, E> + Copy + Send>(
    input: Vec<T>,
    f: F,
    p: &Policy,
) -> (outcome: Result<Vec<R>, E>)
    requires
        p.wf(),
        forall|i: int| 0 <= i < input@.len() ==> call_requires(f, (#[trigger] input@[i],)),
    ensures
        fallible_apply_post(f, input@, outcome_view(outcome)),
        (forall|i: int, r: Result<R, E>|
            0 <= i < input@.len() && #[trigger] call_ensures(f, (input@[i],), r) ==> r is Ok)
            ==> outcome is Ok,
{
    let ghost in0 = input@;
    let raw = apply(input, f, p);
    let ghost raw0 = raw@;
    let mut rem = raw;
    let mut out: Vec<R> = Vec::new();
    while rem.len() > 0
        invariant
            out@.len() + rem@.len() == raw0.len(),
            raw0.len() == in0.len(),
            rem@ == raw0.subrange(out@.len() as int, raw0.len() as int),
            forall|i: int| 0 <= i < in0.len() ==> call_ensures(f, (in0[i],), #[trigger] raw0[i]),
            forall|i: int| 0 <= i < out@.len() ==> raw0[i] == Ok::<R, E>(#[trigger] out@[i]),
        decreases rem@.len(),
    {
        let ghost k = out@.len() as int;
        let ghost rem_before = rem@;
        let step = rem.remove(0);
        proof {
            assert(rem_before[0] == raw0.subrange(k, raw0.len() as int)[0]);
            assert(step == raw0[k]);
            assert(rem@ =~= raw0.subrange(k + 1, raw0.len() as int));
        }
        match step {
            Ok(r) => {
                out.push(r);
            },
            Err(e) => {
                proof {
                    assert(call_ensures(f, (in0[k],), Err(e)));
                    assert(fails_on(f, in0, e));
                }
                return Err(e);
            },
        }
    }
    proof {
        assert forall|i: int| 0 <= i < in0.len() implies call_ensures(
            f,
            (in0[i],),
            Ok(#[trigger] out@[i]),
        ) by {
            assert(raw0[i] == Ok::<R, E>(out@[i]));
        }
        assert(ok_outputs(f, in0, out@));
    }
    Ok(out)
}

/// `f` has at least one possible output on `t`.
pub open spec fn has_output<T, R, F: Fn(T) -> R>(f: F, t: T) -> bool {
    exists|r: R| #[trigger] call_ensures(f, (t,), r)
}

/// `f` was applied to every element of `input` and returned each time.
pub open spec fn all_applied<T, R, F: Fn(T) -> R>(f: F, input: Seq<T>) -> bool {
    forall|i: int| 0 <= i < input.len() ==> #[trigger] has_output(f, input[i])
}

/// Applies `f` to every element of `input` for its effect alone, returning
/// one completion marker per element: `done[i]` is `true` exactly because
/// `f` was applied to `input[i]` and returned.
pub fn apply_for_effect<T: Send, R: Send, F: Fn(T) -> R + Copy + Send>(
    input: Vec<T>,
    f: F,
    p: &Policy,
) -> (done: Vec<bool>)
    requires
        p.wf(),
        forall|i: int| 0 <= i < input@.len() ==> call_requires(f, (#[trigger] input@[i],)),
    ensures
        done@.len() == input@.len(),
        forall|i: int| 0 <= i < done@.len() ==> done@[i] == true,
        all_applied(f, input@),
{
    let ghost in0 = input@;
    let n = input.len();
    let results = apply(input, f, p);
    let ghost rs = results@;
    let mut done: Vec<bool> = Vec::new();
    while done.len() < n
        invariant
            done@.len() <= n,
            forall|i: int| 0 <= i < done@.len() ==> done@[i] == true,
        decreases n - done@.len(),
    {
        done.push(true);
    }
    proof {
        assert forall|i: int| 0 <= i < in0.len() implies #[trigger] has_output(f, in0[i]) by {
            assert(call_ensures(f, (in0[i],), rs[i]));
        }
        assert(all_applied(f, in0));
    }
    done
}

} // verus!
