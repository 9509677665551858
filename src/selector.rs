//! Uniform choice of one item out of a sequence.

use rand::rngs::StdRng;
use rand::Rng;
use vstd::prelude::*;

verus! {

/// rand's standard generator, carried through as it is.
#[verifier::external_type_specification]
#[verifier::external_body]
pub struct ExStdRng(StdRng);

/// Relies on `rand::Rng::gen_range` over `0..len`: a value of that range,
/// drawn uniformly. It panics on an empty range, hence `0 < len`.
#[verifier::external_body]
fn draw_index(rng: &mut StdRng, len: usize) -> (r: usize)
    requires
        0 < len,
    ensures
        r < len,
{
    rng.gen_range(0..len)
}

/// One item of `list` drawn at random, or `None` when `list` is empty.
/// The list itself is left as it is.
pub fn random_from<'a, T>(rng: &mut StdRng, list: &'a [T]) -> (r: Option<&'a T>)
    ensures
        r is None <==> list@.len() == 0,
        r matches Some(x) ==> exists|i: int| 0 <= i < list@.len() && x == &list@[i],
        list@.len() == 1 ==> r == Some(&list@[0]),
{
    if list.len() == 0 {
        None
    } else {
        let i = draw_index(rng, list.len());
        Some(&list[i])
    }
}

} // verus!
