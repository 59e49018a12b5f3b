//! The parts of 2D snapping that do not touch coordinates.

use vstd::prelude::*;

verus! {

/// Whether snapping applies: holding Shift inverts the toolbar setting.
pub fn snap_effective(enabled: bool, shift_pressed: bool) -> (r: bool)
    ensures
        r == (enabled != shift_pressed),
{
    enabled != shift_pressed
}

} // verus!
