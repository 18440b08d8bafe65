//! Random choices, drawn with rand's standard generator.

use rand::rngs::StdRng;
use rand::seq::SliceRandom;
use vstd::prelude::*;

verus! {

/// rand's standard generator: a seedable random number generator.
#[verifier::external_type_specification]
#[verifier::external_body]
pub struct ExStdRng(rand::rngs::StdRng);

/// Relies on rand's `SliceRandom::choose` for slices: `None` for an empty
/// slice, otherwise one of its elements, picked uniformly with `rng`.
#[verifier::external_body]
pub(crate) fn choose_column(cols: &Vec<usize>, rng: &mut StdRng) -> (r: Option<usize>)
    ensures
        r is None <==> cols@.len() == 0,
        r matches Some(c) ==> cols@.contains(c),
{
    cols.as_slice().choose(rng).copied()
}

} // verus!
