//! How tightly each group of operators binds: the higher, the tighter. The
//! gaps leave room for operators between two levels.

use vstd::prelude::*;

verus! {

/// Comparisons.
pub const COMPARISON: u8 = 10;

/// Binary `+` and `-`.
pub const ADDITIVE: u8 = 20;

/// `*`, `/` and `%`.
pub const MULTIPLICATIVE: u8 = 30;

} // verus!
