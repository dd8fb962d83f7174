//! How the field lines of the magnets are shaded.

use vstd::prelude::*;

verus! {

/// The grey of a field line after `steps` steps: white at first, a level
/// darker every second step, black from step 510 on.
pub fn line_shade(steps: usize) -> (grey: u8)
    ensures
        grey == if steps > 510 {
            0
        } else {
            255 - steps / 2
        },
{
    if steps > 255 * 2 {
        0
    } else {
        (255 - steps / 2) as u8
    }
}

} // verus!
