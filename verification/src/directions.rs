//! The tokens a player types to move one step.

use vstd::prelude::*;

verus! {

/// One row down.
pub const DOWN: &'static str = "s";

/// One row up.
pub const UP: &'static str = "w";

/// One column to the left.
pub const LEFT: &'static str = "a";

/// One column to the right.
pub const RIGHT: &'static str = "d";

} // verus!
