//! The ways a generator can fail.

use vstd::prelude::*;

verus! {

/// Why a generator returned nothing.
#[derive(Copy, Clone, PartialEq, Eq, Structural, Debug)]
pub enum LayoutError {
    /// The request can never be met: a margin or a size does not fit the
    /// rectangle or the grid it was asked for.
    Infeasible,
    /// The request may be met, but no placement was found within
    /// `MAX_ATTEMPTS` draws.
    PlacementFailed,
}

/// `outcome` is the failure `error`.
pub open spec fn fails_as<T>(outcome: Result<T, LayoutError>, error: LayoutError) -> bool {
    outcome matches Err(e) && e == error
}

/// The number of draws a generator makes for one feature before it gives up.
pub const MAX_ATTEMPTS: u32 = 10000;

} // verus!
