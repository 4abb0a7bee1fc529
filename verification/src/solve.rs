//! A root solve by iteration, with a limit on its steps.
//!
//! The inverse Langevin function has no closed form and is found this way.
//! What a step does to the iterate, and when an iterate is good enough, is the
//! caller's: both work on scalars. Kept here is the loop: when it ends, with
//! what, and the verdict when the steps run out.

use vstd::prelude::*;
use crate::error::Error;

verus! {

/// Whether `iterate` is what the solve holds after `steps` steps from `start`:
/// each iterate before it was judged not good enough and then improved.
pub open spec fn searched<T, C: Fn(&T) -> bool, S: Fn(T) -> T>(
    converged: C,
    improve: S,
    start: T,
    steps: nat,
    iterate: T,
) -> bool
    decreases steps,
{
    if steps == 0 {
        iterate == start
    } else {
        exists|before: T|
            searched(converged, improve, start, (steps - 1) as nat, before) && call_ensures(
                converged,
                (&before,),
                false,
            ) && #[trigger] call_ensures(improve, (before,), iterate)
    }
}

/// Whether the solve holds `iterate` after `steps` steps and judges it as
/// `verdict` says.
pub open spec fn judged<T, C: Fn(&T) -> bool, S: Fn(T) -> T>(
    converged: C,
    improve: S,
    start: T,
    steps: nat,
    iterate: T,
    verdict: bool,
) -> bool {
    searched(converged, improve, start, steps, iterate) && call_ensures(
        converged,
        (&iterate,),
        verdict,
    )
}

/// Improves a first guess until it is good enough, in `limit` steps at most.
///
/// The guess is judged first, and then each iterate as it comes. The first
/// that is judged good is the result. If the iterate after `limit` steps is
/// still judged bad, the solve has failed to converge.
pub fn iterate<T, C: Fn(&T) -> bool, S: Fn(T) -> T>(
    guess: T,
    limit: usize,
    converged: C,
    improve: S,
) -> (outcome: Result<T, Error>)
    requires
        forall|iterate: T| call_requires(converged, (&iterate,)),
        forall|iterate: T| call_requires(improve, (iterate,)),
    ensures
        outcome matches Ok(root) ==> exists|steps: nat|
            steps <= limit && #[trigger] judged(converged, improve, guess, steps, root, true),
        outcome matches Err(error) ==> error == Error::NumericalNonconvergence && exists|last: T| #[trigger]
            judged(converged, improve, guess, limit as nat, last, false),
{
    let mut current = guess;
    let mut taken: usize = 0;
    loop
        invariant
            taken <= limit,
            forall|iterate: T| call_requires(converged, (&iterate,)),
            forall|iterate: T| call_requires(improve, (iterate,)),
            searched(converged, improve, guess, taken as nat, current),
        decreases limit - taken,
    {
        if converged(&current) {
            let outcome: Result<T, Error> = Ok(current);
            assert(judged(converged, improve, guess, taken as nat, outcome->Ok_0, true));
            return outcome;
        }
        if taken == limit {
            assert(judged(converged, improve, guess, limit as nat, current, false));
            return Err(Error::NumericalNonconvergence);
        }
        let ghost before = current;
        current = improve(current);
        taken += 1;
        assert(call_ensures(improve, (before,), current));
    }
}

} // verus!
