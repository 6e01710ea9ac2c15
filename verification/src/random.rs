//! The one place where chance enters the library.

use vstd::prelude::*;

verus! {

/// Draws a number below `bound` with `rand::random_range`, from the
/// thread-local generator.
///
/// Unproved: that the number lies in `0..bound`, which is the range handed to
/// `random_range`. Nothing is said of which number comes, and two draws may
/// differ. `random_range` panics on an empty range, so `bound` must not be 0.
/// The generator seeds itself from the operating system on its first use in a
/// thread; `rand` panics if that fails, and nothing here rules it out.
#[verifier::external_body]
pub(crate) fn random_below(bound: usize) -> (drawn: usize)
    requires
        bound > 0,
    ensures
        drawn < bound,
{
    rand::random_range(0..bound)
}

} // verus!
