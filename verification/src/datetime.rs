use vstd::prelude::*;

verus! {

/// Type for all timestamps: UTC seconds since the epoch.
pub type Timestamp = i64;

/// The epoch itself; creation time of the predefined categories.
pub const JANUARY_1970: Timestamp = 0;

/// First representable instant after the epoch; initial value of the
/// last-sync timestamp, so that rows created at the epoch are never
/// exported to peers.
pub const FIRST_AFTER_JANUARY_1970: Timestamp = 1;

} // verus!
