use vstd::prelude::*;

verus! {

/// The random number generator that the parameter models draw from.
#[verifier::external_type_specification]
#[verifier::external_body]
pub struct ExStdRng(rand::StdRng);

/// Relies on rand's `Rng::gen_range`, which returns a value in `[lo, hi)`
/// and asserts that `lo < hi`.
#[verifier::external_body]
pub(crate) fn gen_range(rng: &mut rand::StdRng, lo: i64, hi: i64) -> (r: i64)
    requires
        lo < hi,
    ensures
        lo <= r < hi,
{
    rand::Rng::gen_range(rng, lo, hi)
}

} // verus!
