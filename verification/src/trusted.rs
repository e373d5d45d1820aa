//! What the library takes on trust of code that it calls and does not
//! verify: one function of the standard library and the random number
//! generator of the `rand` crate.

use rand::rngs::ThreadRng;
use rand::Rng;
use vstd::prelude::*;

verus! {

/// `String::push` appends the given character to the end of the string.
pub assume_specification[ String::push ](s: &mut String, ch: char)
    ensures
        final(s)@ == old(s)@.push(ch),
;

/// `rand::rngs::ThreadRng`, the handle to the random number generator of
/// the current thread.
#[verifier::external_type_specification]
#[verifier::external_body]
pub struct ExThreadRng(ThreadRng);

/// `rand::thread_rng` hands out the generator of the current thread, which
/// the system seeds. Nothing is claimed of the handle.
pub assume_specification[ rand::thread_rng ]() -> (rng: ThreadRng)
;

/// `Rng::gen_range(low, high)` gives a value that is at least `low` and
/// below `high`, and panics unless `low < high`. Which value comes is left
/// open: two calls may differ.
#[verifier::external_body]
pub(crate) fn random_index(rng: &mut ThreadRng, len: usize) -> (index: usize)
    requires
        0 < len,
    ensures
        index < len,
{
    rng.gen_range(0, len)
}

} // verus!
