//! The ring switch between the 64-bit base field and its 192-bit extension.

use vstd::prelude::*;

verus! {

/// Total degree that the soundness analysis charges for the composed map that batches base-field
/// claims into one extension-field claim. The value is assumed: nothing here derives it from the
/// map.
pub const RING_SWITCH_SOUNDNESS_DEGREE: usize = 65_536;

} // verus!
