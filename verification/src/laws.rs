//! Laws that relate several runs of the map.

use vstd::prelude::*;
use crate::parmap::fallible_apply_post;

verus! {

/// Path equivalence: for a deterministic transform, any two outputs that meet
/// `apply`'s contract on the same input are the same sequence. Which path each
/// run took — inline, or fanned out under any policy — cannot be observed in
/// the result.
pub proof fn lemma_deterministic_paths_agree<T, R, F: Fn(T) -> R>(
    f: F,
    input: Seq<T>,
    out1: Seq<R>,
    out2: Seq<R>,
)
    requires
        forall|t: T, r1: R, r2: R|
            #![trigger call_ensures(f, (t,), r1), call_ensures(f, (t,), r2)]
            call_ensures(f, (t,), r1) && call_ensures(f, (t,), r2) ==> r1 == r2,
        out1.len() == input.len(),
        forall|i: int| 0 <= i < input.len() ==> call_ensures(f, (input[i],), #[trigger] out1[i]),
        out2.len() == input.len(),
        forall|i: int| 0 <= i < input.len() ==> call_ensures(f, (input[i],), #[trigger] out2[i]),
    ensures
        out1 == out2,
{
    assert forall|i: int| 0 <= i < out1.len() implies out1[i] == out2[i] by {
        assert(call_ensures(f, (input[i],), out1[i]));
        assert(call_ensures(f, (input[i],), out2[i]));
    }
    assert(out1 =~= out2);
}

/// Failure propagation: when `f` can only fail on some element of the input,
/// an outcome that meets `try_apply`'s contract reports failure — never a
/// complete-looking sequence with that element missing or defaulted.
pub proof fn lemma_failure_propagates<T, R, E, F: Fn(T) -> Result<R, E>>(
    f: F,
    input: Seq<T>,
    outcome: Result<Seq<R>, E>,
    i: int,
)
    requires
        fallible_apply_post(f, input, outcome),
        0 <= i < input.len(),
        forall|r: Result<R, E>| #[trigger] call_ensures(f, (input[i],), r) ==> r is Err,
    ensures
        outcome is Err,
{
    match outcome {
        Ok(out) => {
            assert(call_ensures(f, (input[i],), Ok(out[i])));
            assert(false);
        },
        Err(_) => {},
    }
}

} // verus!
