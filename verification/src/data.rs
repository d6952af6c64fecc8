//! Market-data vocabulary shared with upstream collaborators.
//!
//! The ledger core itself only consumes already-constructed orders; the
//! side of a raw market trade is the one piece of that vocabulary with no
//! outside representation attached.

use vstd::prelude::*;

verus! {

/// Which side took the aggressor role in a raw market trade.
#[derive(Clone, Copy, Debug, PartialEq, Eq, Structural)]
pub enum TradeSide {
    Buy,
    Sell,
}

} // verus!
