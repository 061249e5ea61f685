//! Comparing the names of groups and layouts.

use vstd::prelude::*;

verus! {

/// `==` of std on two string slices: whether they hold the same characters.
#[verifier::external_body]
pub(crate) fn same_name(a: &str, b: &str) -> (same: bool)
    ensures
        same == (a@ == b@),
{
    a == b
}

} // verus!
