//! A dot as a felt pen leaves it on rough paper: a solid core and a frayed
//! fringe.

use crate::dice::Chance;
use crate::primitive::{present, Pixel};
use vstd::prelude::*;

verus! {

/// The coordinate `by` away from `at`, if there is one.
pub open spec fn beside(at: usize, by: int) -> Option<usize> {
    if 0 <= at + by <= usize::MAX {
        Some((at + by) as usize)
    } else {
        None
    }
}

/// The pixel at offset `(dx, dy)` from `(x, y)`, if there is such a cell.
pub open spec fn dot_pixel(x: usize, y: usize, dx: int, dy: int, color: (u8, u8, u8)) -> Option<
    Pixel,
> {
    match (beside(x, dx), beside(y, dy)) {
        (Some(px), Some(py)) => Some(Pixel { x: px, y: py, color }),
        _ => None,
    }
}

/// The pixel that cell `k` of the fringe adds, if any. The fringe is the 4x4
/// block of cells from two left and above the dot to one right and below it,
/// in reading order; a cell is drawn where its entry of `hits` says so.
pub open spec fn fringe_pixel(
    x: usize,
    y: usize,
    color: (u8, u8, u8),
    hits: Seq<bool>,
    k: int,
) -> Option<Pixel> {
    if hits[k] {
        dot_pixel(x, y, k % 4 - 2, k / 4 - 2, color)
    } else {
        None
    }
}

/// The pixel that cell `k` of the core adds, if any. The core is the 2x2 block
/// of cells from one left and above the dot to the dot itself, in reading
/// order.
pub open spec fn core_pixel(x: usize, y: usize, color: (u8, u8, u8), k: int) -> Option<Pixel> {
    dot_pixel(x, y, k % 2 - 1, k / 2 - 1, color)
}

/// The pixels of a dot at `(x, y)`: the fringe, then the core.
pub open spec fn dot(x: usize, y: usize, color: (u8, u8, u8), hits: Seq<bool>) -> Seq<Pixel> {
    present(Seq::new(16, |k: int| fringe_pixel(x, y, color, hits, k))) + present(
        Seq::new(4, |k: int| core_pixel(x, y, color, k)),
    )
}

fn step_beside(at: usize, by: i8) -> (moved: Option<usize>)
    requires
        -2 <= by <= 1,
    ensures
        moved == beside(at, by as int),
{
    if by >= 0 {
        if at <= usize::MAX - (by as usize) {
            Some(at + by as usize)
        } else {
            None
        }
    } else {
        let back = (-by) as usize;
        if at >= back {
            Some(at - back)
        } else {
            None
        }
    }
}

fn pixel_beside(x: usize, y: usize, dx: i8, dy: i8, color: (u8, u8, u8)) -> (pixel: Option<Pixel>)
    requires
        -2 <= dx <= 1,
        -2 <= dy <= 1,
    ensures
        pixel == dot_pixel(x, y, dx as int, dy as int, color),
{
    match (step_beside(x, dx), step_beside(y, dy)) {
        (Some(px), Some(py)) => Some(Pixel { x: px, y: py, color }),
        _ => None,
    }
}

/// In how many of a hundred cases a cell of the fringe takes ink.
pub const INK: u8 = 40;

/// Draws a dot at `(x, y)`. Each of the sixteen cells of the fringe takes ink
/// with a chance of [`INK`] in a hundred; the four cells of the core always
/// do. Cells off the canvas are left out.
pub fn dot_at<C: Chance>(x: usize, y: usize, color: (u8, u8, u8), luck: &C) -> (pixels: Vec<Pixel>)
    ensures
        exists|hits: Seq<bool>| hits.len() == 16 && pixels@ == #[trigger] dot(x, y, color, hits),
{
    let mut hits = [false; 16];
    let mut k: usize = 0;
    while k < 16
        invariant
            k <= 16,
        decreases 16 - k,
    {
        hits[k] = luck.chance(INK);
        k = k + 1;
    }
    dot_with(x, y, color, &hits)
}

/// Draws a dot at `(x, y)`. `hits` says for each of the sixteen cells of the
/// fringe whether the pen left ink there; the four cells of the core always
/// take ink. Cells off the canvas are left out.
pub fn dot_with(x: usize, y: usize, color: (u8, u8, u8), hits: &[bool; 16]) -> (pixels: Vec<Pixel>)
    ensures
        pixels@ == dot(x, y, color, hits@),
{
    let mut pixels: Vec<Pixel> = Vec::new();
    let ghost fringe = Seq::new(16, |k: int| fringe_pixel(x, y, color, hits@, k));
    let ghost core = Seq::new(4, |k: int| core_pixel(x, y, color, k));
    let mut k: usize = 0;
    let mut dy: i8 = -2;
    while dy < 2
        invariant
            -2 <= dy <= 2,
            k == 4 * (dy + 2),
            fringe == Seq::new(16, |k: int| fringe_pixel(x, y, color, hits@, k)),
            pixels@ == present(fringe.take(k as int)),
        decreases 2 - dy,
    {
        let mut dx: i8 = -2;
        while dx < 2
            invariant
                -2 <= dy < 2,
                -2 <= dx <= 2,
                k == 4 * (dy + 2) + (dx + 2),
                fringe == Seq::new(16, |k: int| fringe_pixel(x, y, color, hits@, k)),
                pixels@ == present(fringe.take(k as int)),
            decreases 2 - dx,
        {
            proof {
                assert(fringe.take(k + 1).drop_last() =~= fringe.take(k as int));
                assert(fringe.take(k + 1).last() == fringe_pixel(x, y, color, hits@, k as int));
            }
            if hits[k] {
                if let Some(pixel) = pixel_beside(x, y, dx, dy, color) {
                    pixels.push(pixel);
                }
            }
            k = k + 1;
            dx = dx + 1;
        }
        dy = dy + 1;
    }
    assert(fringe.take(16) =~= fringe);
    let ghost frayed = pixels@;
    let mut k: usize = 0;
    let mut dy: i8 = -1;
    while dy < 1
        invariant
            -1 <= dy <= 1,
            k == 2 * (dy + 1),
            core == Seq::new(4, |k: int| core_pixel(x, y, color, k)),
            pixels@ == frayed + present(core.take(k as int)),
        decreases 1 - dy,
    {
        let mut dx: i8 = -1;
        while dx < 1
            invariant
                -1 <= dy < 1,
                -1 <= dx <= 1,
                k == 2 * (dy + 1) + (dx + 1),
                core == Seq::new(4, |k: int| core_pixel(x, y, color, k)),
                pixels@ == frayed + present(core.take(k as int)),
            decreases 1 - dx,
        {
            proof {
                assert(core.take(k + 1).drop_last() =~= core.take(k as int));
                assert(core.take(k + 1).last() == core_pixel(x, y, color, k as int));
            }
            if let Some(pixel) = pixel_beside(x, y, dx, dy, color) {
                pixels.push(pixel);
            }
            k = k + 1;
            dx = dx + 1;
        }
        dy = dy + 1;
    }
    assert(core.take(4) =~= core);
    pixels
}

} // verus!
