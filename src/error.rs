//! Failures of a single selection attempt.

use vstd::prelude::*;

verus! {

/// Why a selection could not be turned into a cropped frame.
#[derive(Clone, Copy, Debug, PartialEq, Eq, Structural)]
pub enum ScanError {
    /// No monitor's box overlaps the selection with positive area.
    NoMonitorFound,
    /// The selection, in the monitor's own coordinates, leaves the monitor or
    /// the captured frame, or has no area.
    CropOutOfBounds,
}

} // verus!
