//! Where the match takes its luck from: the random numbers of `rand`.

use vstd::prelude::*;

verus! {

/// `rand::random::<i8>`: some number; which one is not known beforehand,
/// and two calls need not agree.
#[verifier::external_body]
pub(crate) fn random_i8() -> i8 {
    rand::random::<i8>()
}

/// `rand::random::<usize>`: some number; which one is not known
/// beforehand, and two calls need not agree.
#[verifier::external_body]
pub(crate) fn random_usize() -> usize {
    rand::random::<usize>()
}

} // verus!
