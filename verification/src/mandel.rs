//! How the Mandelbrot set is drawn, once it is known when each point escapes.

use crate::primitive::{lemma_row_major, Pixel};
use vstd::prelude::*;

verus! {

/// The most steps a point is followed for.
pub const MAX_ITER: usize = 20;

/// The grey of a point by the step in which it escaped: ten levels a step,
/// the earliest black. A point that never escaped is white.
pub open spec fn shaded(escaped: Option<usize>) -> (u8, u8, u8) {
    match escaped {
        Some(step) => ((10 * step) as u8, (10 * step) as u8, (10 * step) as u8),
        None => (255u8, 255u8, 255u8),
    }
}

/// The grey of a point.
pub fn shade(escaped: Option<usize>) -> (color: (u8, u8, u8))
    requires
        escaped is Some ==> 10 * escaped.unwrap() <= 255,
    ensures
        color == shaded(escaped),
        escaped is Some ==> color.0 == 10 * escaped.unwrap(),
{
    match escaped {
        Some(step) => {
            let grey = 10 * (step as u8);
            (grey, grey, grey)
        },
        None => (255, 255, 255),
    }
}

/// The picture of a grid of points, `xsize` columns of `ysize` points each.
/// `escapes` says for each point when it escaped, column by column from the
/// left, each column from the top; the pixels come in the same order. No point
/// may have escaped so late that its grey would not fit a channel.
pub fn draw(escapes: &Vec<Option<usize>>, xsize: usize, ysize: usize) -> (pixels: Vec<Pixel>)
    requires
        escapes@.len() == xsize * ysize,
        forall|k: int|
            0 <= k < escapes@.len() ==> ((#[trigger] escapes@[k]) is Some ==> 10
                * escapes@[k].unwrap() <= 255),
    ensures
        pixels@.len() == escapes@.len(),
        forall|x: int, y: int|
            0 <= x < xsize && 0 <= y < ysize ==> #[trigger] pixels@[x * ysize + y] == (Pixel {
                x: x as usize,
                y: y as usize,
                color: shaded(escapes@[x * ysize + y]),
            }),
{
    let mut pixels: Vec<Pixel> = Vec::new();
    let mut x: usize = 0;
    while x < xsize
        invariant
            x <= xsize,
            escapes@.len() == xsize * ysize,
            forall|k: int|
                0 <= k < escapes@.len() ==> ((#[trigger] escapes@[k]) is Some ==> 10
                    * escapes@[k].unwrap() <= 255),
            pixels@.len() == x * ysize,
            forall|cx: int, cy: int|
                0 <= cx < x && 0 <= cy < ysize ==> #[trigger] pixels@[cx * ysize + cy] == (Pixel {
                    x: cx as usize,
                    y: cy as usize,
                    color: shaded(escapes@[cx * ysize + cy]),
                }),
        decreases xsize - x,
    {
        let mut y: usize = 0;
        while y < ysize
            invariant
                x < xsize,
                y <= ysize,
                escapes@.len() == xsize * ysize,
                forall|k: int|
                    0 <= k < escapes@.len() ==> ((#[trigger] escapes@[k]) is Some ==> 10
                        * escapes@[k].unwrap() <= 255),
                pixels@.len() == x * ysize + y,
                forall|cx: int, cy: int|
                    (0 <= cx < x && 0 <= cy < ysize) || (cx == x && 0 <= cy < y)
                        ==> #[trigger] pixels@[cx * ysize + cy] == (Pixel {
                        x: cx as usize,
                        y: cy as usize,
                        color: shaded(escapes@[cx * ysize + cy]),
                    }),
            decreases ysize - y,
        {
            proof {
                lemma_row_major(x as int, y as int, ysize as int, xsize as int);
            }
            let ghost done = pixels@;
            let escaped = escapes[pixels.len()];
            pixels.push(Pixel { x, y, color: shade(escaped) });
            proof {
                assert forall|cx: int, cy: int|
                    (0 <= cx < x && 0 <= cy < ysize) || (cx == x && 0 <= cy < y + 1)
                    implies #[trigger] pixels@[cx * ysize + cy] == (Pixel {
                    x: cx as usize,
                    y: cy as usize,
                    color: shaded(escapes@[cx * ysize + cy]),
                }) by {
                    if cx < x {
                        lemma_row_major(cx, cy, ysize as int, xsize as int);
                        assert(cx * ysize + ysize <= x * ysize) by (nonlinear_arith)
                            requires
                                cx + 1 <= x,
                                ysize >= 0,
                        ;
                        assert(pixels@[cx * ysize + cy] == done[cx * ysize + cy]);
                    } else if cy < y {
                        assert(pixels@[cx * ysize + cy] == done[cx * ysize + cy]);
                    }
                }
            }
            y = y + 1;
        }
        proof {
            assert((x + 1) * ysize == x * ysize + ysize) by (nonlinear_arith);
        }
        x = x + 1;
    }
    proof {
        assert(x * ysize == xsize * ysize);
    }
    pixels
}

} // verus!
