//! The colours of a firework: sparks that fade as they fall.

use crate::primitive::{present, Pixel};
use vstd::prelude::*;

verus! {

/// Sparks are drawn on the cells below this bound, on either axis.
pub const FIELD: usize = 1024;

/// A channel one step later: four fifths of it where it fades fast, nineteen
/// twentieths where it fades slowly, rounded down.
pub open spec fn decayed(channel: u8, fast: bool) -> u8 {
    if fast {
        (channel * 4 / 5) as u8
    } else {
        (channel * 19 / 20) as u8
    }
}

/// Fades one channel by one step.
pub fn decay(channel: u8, fast: bool) -> (faded: u8)
    ensures
        faded == decayed(channel, fast),
        faded <= channel,
        channel > 0 ==> faded < channel,
{
    if fast {
        ((channel as usize) * 4 / 5) as u8
    } else {
        ((channel as usize) * 19 / 20) as u8
    }
}

/// Fades a colour by one step, each channel at its own rate.
pub fn fade(color: (u8, u8, u8), fast_falloff: (bool, bool, bool)) -> (faded: (u8, u8, u8))
    ensures
        faded == (
            decayed(color.0, fast_falloff.0),
            decayed(color.1, fast_falloff.1),
            decayed(color.2, fast_falloff.2),
        ),
{
    (decay(color.0, fast_falloff.0), decay(color.1, fast_falloff.1), decay(color.2, fast_falloff.2))
}

/// The pixel of a spark on `cell`: none once it has left the field or has
/// burnt out to black.
pub open spec fn lit(cell: (usize, usize), color: (u8, u8, u8)) -> Option<Pixel> {
    if cell.0 >= FIELD || cell.1 >= FIELD || color == (0u8, 0u8, 0u8) {
        None
    } else {
        Some(Pixel { x: cell.0, y: cell.1, color })
    }
}

/// The pixel of a spark, if it shows.
pub fn to_pixel(cell: (usize, usize), color: (u8, u8, u8)) -> (pixel: Option<Pixel>)
    ensures
        pixel == lit(cell, color),
{
    if cell.0 >= FIELD || cell.1 >= FIELD {
        None
    } else if color.0 == 0 && color.1 == 0 && color.2 == 0 {
        None
    } else {
        Some(Pixel { x: cell.0, y: cell.1, color })
    }
}

/// The pixels of the sparks that show, in the order of the sparks. A spark
/// comes as its cell and its colour.
pub fn current_pixels(sparks: &Vec<((usize, usize), (u8, u8, u8))>) -> (pixels: Vec<Pixel>)
    ensures
        pixels@ == present(Seq::new(sparks@.len(), |k: int| lit(sparks@[k].0, sparks@[k].1))),
{
    let ghost all = Seq::new(sparks@.len(), |k: int| lit(sparks@[k].0, sparks@[k].1));
    let mut pixels: Vec<Pixel> = Vec::new();
    let mut k: usize = 0;
    while k < sparks.len()
        invariant
            k <= sparks@.len(),
            all == Seq::new(sparks@.len(), |k: int| lit(sparks@[k].0, sparks@[k].1)),
            pixels@ == present(all.take(k as int)),
        decreases sparks@.len() - k,
    {
        proof {
            assert(all.take(k + 1).drop_last() =~= all.take(k as int));
        }
        let (cell, color) = sparks[k];
        if let Some(px) = to_pixel(cell, color) {
            pixels.push(px);
        }
        k = k + 1;
    }
    assert(all.take(sparks@.len() as int) =~= all);
    pixels
}

/// Every channel burns out: each step of fading takes at least one level
/// off it, so after as many steps as it has levels nothing is left, at
/// whichever rate it fades.
pub proof fn lemma_sparks_burn_out(channel: u8, fast: bool, steps: nat)
    requires
        steps >= channel,
    ensures
        decayed_often(channel, fast, steps) == 0,
    decreases steps,
{
    if steps > 0 {
        lemma_sparks_burn_out(decayed(channel, fast), fast, (steps - 1) as nat);
    }
}

/// A channel after `steps` steps of fading.
pub open spec fn decayed_often(channel: u8, fast: bool, steps: nat) -> u8
    decreases steps,
{
    if steps == 0 {
        channel
    } else {
        decayed_often(decayed(channel, fast), fast, (steps - 1) as nat)
    }
}

} // verus!
