use vstd::prelude::*;

verus! {

/// Relies on rand's `Rng::gen_range` on `thread_rng()`: for `0..n` it draws
/// an index below `n`, uniformly, and panics only on an empty range.
#[verifier::external_body]
pub(crate) fn random_index(n: usize) -> (r: usize)
    requires
        n > 0,
    ensures
        r < n,
{
    rand::Rng::gen_range(&mut rand::thread_rng(), 0..n)
}

} // verus!
