//! Whether the window follows the user between desktops on macOS.

use vstd::prelude::*;

verus! {

/// `NSWindowCollectionBehaviorCanJoinAllSpaces`.
pub const CAN_JOIN_ALL_SPACES: usize = 1;
/// `NSWindowCollectionBehaviorFullScreenAuxiliary`.
pub const FULL_SCREEN_AUXILIARY: usize = 256;
/// `NSWindowCollectionBehaviorDefault`.
pub const DEFAULT_BEHAVIOR: usize = 0;

/// The collection behaviour that shows the window on every desktop, or only
/// on the one it was opened on. Joining every Space also covers the Space a
/// full-screen app owns, where an auxiliary window would otherwise be hidden.
pub fn collection_behavior(on_all_desktops: bool) -> (behavior: usize)
    ensures
        behavior == if on_all_desktops {
            CAN_JOIN_ALL_SPACES | FULL_SCREEN_AUXILIARY
        } else {
            DEFAULT_BEHAVIOR
        },
{
    if on_all_desktops {
        CAN_JOIN_ALL_SPACES | FULL_SCREEN_AUXILIARY
    } else {
        DEFAULT_BEHAVIOR
    }
}

} // verus!
