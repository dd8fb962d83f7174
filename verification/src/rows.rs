//! A source of pixels for a foreign caller: a short red run on the top row.

use crate::primitive::Pixel;
use vstd::prelude::*;

verus! {

/// How many pixels the run has.
pub const RUN: u32 = 10;

/// Hands out the pixels of the run, one at a time.
pub struct RowIter {
    pub value: u32,
}

impl RowIter {
    /// A run that has handed out nothing yet.
    pub fn create() -> (iter: RowIter)
        ensures
            iter.value == 0,
    {
        RowIter { value: 0 }
    }

    /// The next pixel of the run: red, on row zero, one column further right
    /// each time; `None` once ten are out.
    pub fn next(&mut self) -> (pixel: Option<Pixel>)
        ensures
            pixel == if old(self).value >= RUN {
                None
            } else {
                Some(Pixel { x: old(self).value as usize, y: 0, color: (255u8, 0u8, 0u8) })
            },
            final(self).value == if old(self).value >= RUN {
                old(self).value
            } else {
                (old(self).value + 1) as u32
            },
    {
        if self.value >= RUN {
            return None;
        }
        let pixel = Pixel { x: self.value as usize, y: 0, color: (255, 0, 0) };
        self.value = self.value + 1;
        Some(pixel)
    }
}

} // verus!
