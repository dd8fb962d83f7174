//! Black-and-white dithering by error diffusion, and 3x3 convolution, on the
//! colours of a rectangle held row by row.

use crate::primitive::{lemma_row_major, moved_within, Rect};
use vstd::prelude::*;

verus! {

/// The quotient of `a` by `b`, rounded toward zero.
pub open spec fn toward_zero(a: int, b: int) -> int {
    if a >= 0 && b > 0 {
        a / b
    } else if a >= 0 {
        -(a / (-b))
    } else if b > 0 {
        -((-a) / b)
    } else {
        (-a) / (-b)
    }
}

/// The nearest value a colour channel can take.
pub open spec fn clamped(value: int) -> u8 {
    if value < 0 {
        0
    } else if value > 255 {
        255
    } else {
        value as u8
    }
}

/// A channel after it took the share `top / bot` of an error.
pub open spec fn with_share(delta: int, top: int, bot: int, base: u8) -> u8 {
    clamped(toward_zero(delta * top, bot) + base)
}

/// A colour after each channel took its share of an error.
pub open spec fn with_shares(delta: (i32, i32, i32), top: int, bot: int, base: (u8, u8, u8)) -> (
    u8,
    u8,
    u8,
) {
    (
        with_share(delta.0 as int, top, bot, base.0),
        with_share(delta.1 as int, top, bot, base.1),
        with_share(delta.2 as int, top, bot, base.2),
    )
}

/// Black for the dark half of the scale, white for the light half, and how
/// far the channel was from what it became.
pub open spec fn nearest_extreme(col: u8) -> (u8, i32) {
    if col < 128 {
        (0u8, col as i32)
    } else {
        (255u8, (col - 255) as i32)
    }
}

/// The grey a colour is dithered to, and the error that leaves on each
/// channel: both follow the mean of the three channels.
pub open spec fn nearest_grey(col: (u8, u8, u8)) -> ((u8, u8, u8), (i32, i32, i32)) {
    let light = ((col.0 + col.1 + col.2) / 3) as u8;
    let (a, d) = nearest_extreme(light);
    ((a, a, a), (d, d, d))
}

fn quotient(a: i64, b: i64) -> (q: i64)
    requires
        b != 0,
        i64::MIN < a,
        i64::MIN < b,
    ensures
        q == toward_zero(a as int, b as int),
{
    if a >= 0 && b > 0 {
        a / b
    } else if a >= 0 {
        -(a / (-b))
    } else if b > 0 {
        -((-a) / b)
    } else {
        (-a) / (-b)
    }
}

fn clamp_wide(value: i64) -> (channel: u8)
    ensures
        channel == clamped(value as int),
{
    if value < 0 {
        0
    } else if value > 255 {
        255
    } else {
        value as u8
    }
}

/// Holds a number to the range of a colour channel.
pub fn clamp(i: i32) -> (channel: u8)
    ensures
        channel == clamped(i as int),
{
    if i < 0 {
        0
    } else if i > 255 {
        255
    } else {
        i as u8
    }
}

/// Adds the share `top / bot` of the error `delta` to a channel.
pub fn add_delta_single(delta: i32, top: i32, bot: i32, base: u8) -> (channel: u8)
    requires
        bot != 0,
    ensures
        channel == with_share(delta as int, top as int, bot as int, base),
{
    assert(-0x4000_0000_0000_0000 <= (delta as i64) * (top as i64) <= 0x4000_0000_0000_0000)
        by (nonlinear_arith)
        requires
            -0x8000_0000 <= delta as i64 <= 0x7fff_ffff,
            -0x8000_0000 <= top as i64 <= 0x7fff_ffff,
    ;
    let share = quotient((delta as i64) * (top as i64), bot as i64);
    assert(-0x4000_0000_0000_0000 <= share <= 0x4000_0000_0000_0000) by (nonlinear_arith)
        requires
            share == toward_zero((delta as i64) * (top as i64), bot as int),
            -0x4000_0000_0000_0000 <= (delta as i64) * (top as i64) <= 0x4000_0000_0000_0000,
            bot != 0,
    ;
    clamp_wide(share + base as i64)
}

/// Adds the share `top / bot` of an error to each channel of a colour.
pub fn add_delta(delta: (i32, i32, i32), top: i32, bot: i32, base: &mut (u8, u8, u8))
    requires
        bot != 0,
    ensures
        *final(base) == with_shares(delta, top as int, bot as int, *old(base)),
{
    base.0 = add_delta_single(delta.0, top, bot, base.0);
    base.1 = add_delta_single(delta.1, top, bot, base.1);
    base.2 = add_delta_single(delta.2, top, bot, base.2);
}

/// Black or white for a channel, whichever is nearer, and the error made.
pub fn approx_single(col: u8) -> (nearest: (u8, i32))
    ensures
        nearest == nearest_extreme(col),
{
    if col < 128 {
        (0, col as i32)
    } else {
        (255, col as i32 - 255)
    }
}

/// Black or white for a colour, by the mean of its channels, and the error
/// made.
pub fn approx(col: (u8, u8, u8)) -> (nearest: ((u8, u8, u8), (i32, i32, i32)))
    ensures
        nearest == nearest_grey(col),
{
    let light: u8 = ((col.0 as i32 + col.1 as i32 + col.2 as i32) / 3) as u8;
    let (a, d) = approx_single(light);
    ((a, a, a), (d, d, d))
}

/// Pure black or pure white.
pub open spec fn is_extreme(col: (u8, u8, u8)) -> bool {
    col == (0u8, 0u8, 0u8) || col == (255u8, 255u8, 255u8)
}

/// The colours after the neighbour of `(x, y)` at `(dx, dy)` took the share
/// `top / 16` of an error, if there is such a neighbour in the rectangle.
pub open spec fn spread(
    rect: Rect,
    colors: Seq<(u8, u8, u8)>,
    x: usize,
    y: usize,
    dx: i32,
    dy: i32,
    delta: (i32, i32, i32),
    top: int,
) -> Seq<(u8, u8, u8)> {
    match (moved_within(x, dx, rect.x, rect.w), moved_within(y, dy, rect.y, rect.h)) {
        (Some(nx), Some(ny)) => colors.update(
            rect.offset_of(nx, ny),
            with_shares(delta, top, 16, colors[rect.offset_of(nx, ny)]),
        ),
        _ => colors,
    }
}

/// The colours after the cell `(x, y)` was dithered: it turns black or white,
/// and its error goes to the cells not yet seen, 7 parts to the right, 3 down
/// left, 5 down and 1 down right, of 16.
pub open spec fn dither_cell(rect: Rect, colors: Seq<(u8, u8, u8)>, x: usize, y: usize) -> Seq<
    (u8, u8, u8),
> {
    let (grey, delta) = nearest_grey(colors[rect.offset_of(x, y)]);
    let seen = colors.update(rect.offset_of(x, y), grey);
    let right = spread(rect, seen, x, y, 1, 0, delta, 7);
    let down_left = spread(rect, right, x, y, -1i32, 1, delta, 3);
    let down = spread(rect, down_left, x, y, 0, 1, delta, 5);
    spread(rect, down, x, y, 1, 1, delta, 1)
}

/// The colours after the first `n` cells of row `y` were dithered, from the
/// left.
pub open spec fn row_dithered(rect: Rect, colors: Seq<(u8, u8, u8)>, y: usize, n: nat) -> Seq<
    (u8, u8, u8),
>
    decreases n,
{
    if n == 0 {
        colors
    } else {
        dither_cell(rect, row_dithered(rect, colors, y, (n - 1) as nat), (rect.x + n - 1) as usize, y)
    }
}

/// The colours after the first `m` rows were dithered, from the top.
pub open spec fn rows_dithered(rect: Rect, colors: Seq<(u8, u8, u8)>, m: nat) -> Seq<(u8, u8, u8)>
    decreases m,
{
    if m == 0 {
        colors
    } else {
        row_dithered(
            rect,
            rows_dithered(rect, colors, (m - 1) as nat),
            (rect.y + m - 1) as usize,
            rect.w as nat,
        )
    }
}

/// Hands a share of the error to the neighbour at `(dx, dy)`, if there is one.
fn hand_on(
    rect: Rect,
    colors: &mut Vec<(u8, u8, u8)>,
    x: usize,
    y: usize,
    dx: i32,
    dy: i32,
    delta: (i32, i32, i32),
    top: i32,
)
    requires
        rect.wf(),
        rect.contains(x, y),
        old(colors)@.len() == rect.w * rect.h,
        dx == 1 && dy == 0 || dx >= -1 && dy == 1,
    ensures
        final(colors)@ == spread(rect, old(colors)@, x, y, dx, dy, delta, top as int),
        final(colors)@.len() == old(colors)@.len(),
        forall|j: int|
            0 <= j <= rect.offset_of(x, y) ==> #[trigger] final(colors)@[j] == old(colors)@[j],
{
    if let Some((xx, yy)) = rect.get_mut_with_delta_abs(x, y, dx, dy) {
        proof {
            lemma_row_major(yy - rect.y, xx - rect.x, rect.w as int, rect.h as int);
            lemma_row_major(y - rect.y, x - rect.x, rect.w as int, rect.h as int);
            assert((y - rect.y + 1) * rect.w == (y - rect.y) * rect.w + rect.w) by (nonlinear_arith);
        }
        let j = rect.index_abs(xx, yy);
        let mut col = colors[j];
        add_delta(delta, top, 16, &mut col);
        colors[j] = col;
    }
}

/// Dithers the colours of a rectangle to black and white, cell by cell in
/// reading order, each cell handing its error on to the cells after it.
pub fn floyd_steinberg_bw(rect: Rect, colors: &mut Vec<(u8, u8, u8)>)
    requires
        rect.wf(),
        old(colors)@.len() == rect.w * rect.h,
    ensures
        final(colors)@ == rows_dithered(rect, old(colors)@, rect.h as nat),
        final(colors)@.len() == old(colors)@.len(),
        forall|j: int| 0 <= j < final(colors)@.len() ==> is_extreme(#[trigger] final(colors)@[j]),
{
    let ghost start = colors@;
    let mut y = rect.y;
    while y < rect.y + rect.h
        invariant
            rect.wf(),
            rect.y <= y <= rect.y + rect.h,
            colors@.len() == rect.w * rect.h,
            colors@ == rows_dithered(rect, start, (y - rect.y) as nat),
            forall|j: int| 0 <= j < (y - rect.y) * rect.w ==> is_extreme(#[trigger] colors@[j]),
        decreases rect.y + rect.h - y,
    {
        let ghost above = colors@;
        let mut x = rect.x;
        while x < rect.x + rect.w
            invariant
                rect.wf(),
                rect.y <= y < rect.y + rect.h,
                rect.x <= x <= rect.x + rect.w,
                colors@.len() == rect.w * rect.h,
                colors@ == row_dithered(rect, above, y, (x - rect.x) as nat),
                forall|j: int|
                    0 <= j < (y - rect.y) * rect.w + (x - rect.x) ==> is_extreme(
                        #[trigger] colors@[j],
                    ),
            decreases rect.x + rect.w - x,
        {
            proof {
                lemma_row_major(y - rect.y, x - rect.x, rect.w as int, rect.h as int);
            }
            let idx = rect.index_abs(x, y);
            let (new_col, delta) = approx(colors[idx]);
            colors[idx] = new_col;
            hand_on(rect, colors, x, y, 1, 0, delta, 7);
            hand_on(rect, colors, x, y, -1, 1, delta, 3);
            hand_on(rect, colors, x, y, 0, 1, delta, 5);
            hand_on(rect, colors, x, y, 1, 1, delta, 1);
            assert(is_extreme(colors@[idx as int]));
            x = x + 1;
        }
        proof {
            assert((y - rect.y + 1) * rect.w == (y - rect.y) * rect.w + rect.w) by (nonlinear_arith);
        }
        y = y + 1;
    }
    proof {
        assert((y - rect.y) * rect.w == rect.w * rect.h) by (nonlinear_arith)
            requires
                y - rect.y == rect.h,
        ;
    }
}

/// What the tap `k` of a 3x3 kernel adds to each channel at `(x, y)`: the
/// neighbour's channels times the tap's weight, a fraction, rounded toward
/// zero; nothing where the rectangle has no such neighbour. Taps are numbered
/// in reading order, tap 4 being the cell itself.
pub open spec fn tap(
    rect: Rect,
    kernel: Seq<(i32, i32)>,
    colors: Seq<(u8, u8, u8)>,
    x: usize,
    y: usize,
    k: int,
) -> (int, int, int) {
    match (
        moved_within(x, (k % 3 - 1) as i32, rect.x, rect.w),
        moved_within(y, (k / 3 - 1) as i32, rect.y, rect.h),
    ) {
        (Some(nx), Some(ny)) => {
            let col = colors[rect.offset_of(nx, ny)];
            (
                toward_zero(col.0 * kernel[k].0, kernel[k].1 as int),
                toward_zero(col.1 * kernel[k].0, kernel[k].1 as int),
                toward_zero(col.2 * kernel[k].0, kernel[k].1 as int),
            )
        },
        _ => (0, 0, 0),
    }
}

/// The sum of the first `n` taps at `(x, y)`.
pub open spec fn taps(
    rect: Rect,
    kernel: Seq<(i32, i32)>,
    colors: Seq<(u8, u8, u8)>,
    x: usize,
    y: usize,
    n: nat,
) -> (int, int, int)
    decreases n,
{
    if n == 0 {
        (0, 0, 0)
    } else {
        let before = taps(rect, kernel, colors, x, y, (n - 1) as nat);
        let last = tap(rect, kernel, colors, x, y, n - 1);
        (before.0 + last.0, before.1 + last.1, before.2 + last.2)
    }
}

/// The colour of `(x, y)` after the kernel: all nine taps, each channel held
/// to its range.
pub open spec fn filtered(
    rect: Rect,
    kernel: Seq<(i32, i32)>,
    colors: Seq<(u8, u8, u8)>,
    x: usize,
    y: usize,
) -> (u8, u8, u8) {
    let sum = taps(rect, kernel, colors, x, y, 9);
    (clamped(sum.0), clamped(sum.1), clamped(sum.2))
}

fn weigh(channel: u8, top: i32, bottom: i32) -> (share: i64)
    requires
        bottom != 0,
    ensures
        share == toward_zero(channel * top, bottom as int),
        -0x80_0000_0000 <= share <= 0x80_0000_0000,
{
    assert(-0x80_0000_0000 <= (channel as i64) * (top as i64) <= 0x80_0000_0000) by (nonlinear_arith)
        requires
            0 <= channel as i64 <= 255,
            -0x8000_0000 <= top as i64 <= 0x7fff_ffff,
    ;
    let share = quotient((channel as i64) * (top as i64), bottom as i64);
    assert(-0x80_0000_0000 <= share <= 0x80_0000_0000) by (nonlinear_arith)
        requires
            share == toward_zero((channel as i64) * (top as i64), bottom as int),
            -0x80_0000_0000 <= (channel as i64) * (top as i64) <= 0x80_0000_0000,
            bottom != 0,
    ;
    share
}

/// The colour of one cell after the kernel.
fn filter_cell(
    rect: Rect,
    kernel: &[(i32, i32); 9],
    colors: &Vec<(u8, u8, u8)>,
    x: usize,
    y: usize,
) -> (col: (u8, u8, u8))
    requires
        rect.wf(),
        rect.contains(x, y),
        colors@.len() == rect.w * rect.h,
        forall|k: int| 0 <= k < 9 ==> (#[trigger] kernel@[k]).1 != 0,
    ensures
        col == filtered(rect, kernel@, colors@, x, y),
{
    let mut sum: (i64, i64, i64) = (0, 0, 0);
    let mut index: usize = 0;
    let mut dy: i32 = -1;
    while dy <= 1
        invariant
            rect.wf(),
            rect.contains(x, y),
            colors@.len() == rect.w * rect.h,
            forall|k: int| 0 <= k < 9 ==> (#[trigger] kernel@[k]).1 != 0,
            -1 <= dy <= 2,
            index == 3 * (dy + 1),
            (sum.0 as int, sum.1 as int, sum.2 as int) == taps(
                rect,
                kernel@,
                colors@,
                x,
                y,
                index as nat,
            ),
            -0x80_0000_0000 * index <= sum.0 <= 0x80_0000_0000 * index,
            -0x80_0000_0000 * index <= sum.1 <= 0x80_0000_0000 * index,
            -0x80_0000_0000 * index <= sum.2 <= 0x80_0000_0000 * index,
        decreases 2 - dy,
    {
        let mut dx: i32 = -1;
        while dx <= 1
            invariant
                rect.wf(),
                rect.contains(x, y),
                colors@.len() == rect.w * rect.h,
                forall|k: int| 0 <= k < 9 ==> (#[trigger] kernel@[k]).1 != 0,
                -1 <= dy <= 1,
                -1 <= dx <= 2,
                index == 3 * (dy + 1) + (dx + 1),
                (sum.0 as int, sum.1 as int, sum.2 as int) == taps(
                    rect,
                    kernel@,
                    colors@,
                    x,
                    y,
                    index as nat,
                ),
                -0x80_0000_0000 * index <= sum.0 <= 0x80_0000_0000 * index,
                -0x80_0000_0000 * index <= sum.1 <= 0x80_0000_0000 * index,
                -0x80_0000_0000 * index <= sum.2 <= 0x80_0000_0000 * index,
            decreases 2 - dx,
        {
            let (top, bottom) = kernel[index];
            if let Some((xx, yy)) = rect.get_mut_with_delta_abs(x, y, dx, dy) {
                proof {
                    lemma_row_major(yy - rect.y, xx - rect.x, rect.w as int, rect.h as int);
                }
                let color = colors[rect.index_abs(xx, yy)];
                sum.0 = sum.0 + weigh(color.0, top, bottom);
                sum.1 = sum.1 + weigh(color.1, top, bottom);
                sum.2 = sum.2 + weigh(color.2, top, bottom);
            }
            index = index + 1;
            dx = dx + 1;
        }
        dy = dy + 1;
    }
    (clamp_wide(sum.0), clamp_wide(sum.1), clamp_wide(sum.2))
}

/// Runs a 3x3 kernel over the colours of a rectangle. The kernel comes as
/// nine fractions, numerator and denominator, in reading order; neighbours
/// outside the rectangle add nothing.
pub fn kernel_3x3(rect: Rect, kernel: [(i32, i32); 9], colors: &Vec<(u8, u8, u8)>) -> (new_colors: Vec<
    (u8, u8, u8),
>)
    requires
        rect.wf(),
        colors@.len() == rect.w * rect.h,
        forall|k: int| 0 <= k < 9 ==> (#[trigger] kernel@[k]).1 != 0,
    ensures
        new_colors@.len() == colors@.len(),
        forall|x: usize, y: usize|
            rect.contains(x, y) ==> new_colors@[#[trigger] rect.offset_of(x, y)] == filtered(
                rect,
                kernel@,
                colors@,
                x,
                y,
            ),
{
    let mut new_colors: Vec<(u8, u8, u8)> = Vec::new();
    let mut y = rect.y;
    while y < rect.y + rect.h
        invariant
            rect.wf(),
            rect.y <= y <= rect.y + rect.h,
            colors@.len() == rect.w * rect.h,
            forall|k: int| 0 <= k < 9 ==> (#[trigger] kernel@[k]).1 != 0,
            new_colors@.len() == (y - rect.y) * rect.w,
            forall|cx: usize, cy: usize|
                rect.contains(cx, cy) && cy < y ==> new_colors@[#[trigger] rect.offset_of(cx, cy)]
                    == filtered(rect, kernel@, colors@, cx, cy),
        decreases rect.y + rect.h - y,
    {
        let mut x = rect.x;
        while x < rect.x + rect.w
            invariant
                rect.wf(),
                rect.y <= y < rect.y + rect.h,
                rect.x <= x <= rect.x + rect.w,
                colors@.len() == rect.w * rect.h,
                forall|k: int| 0 <= k < 9 ==> (#[trigger] kernel@[k]).1 != 0,
                new_colors@.len() == (y - rect.y) * rect.w + (x - rect.x),
                forall|cx: usize, cy: usize|
                    rect.contains(cx, cy) && (cy < y || (cy == y && cx < x))
                        ==> new_colors@[#[trigger] rect.offset_of(cx, cy)] == filtered(
                        rect,
                        kernel@,
                        colors@,
                        cx,
                        cy,
                    ),
            decreases rect.x + rect.w - x,
        {
            let ghost done = new_colors@;
            let col = filter_cell(rect, &kernel, colors, x, y);
            new_colors.push(col);
            proof {
                assert forall|cx: usize, cy: usize|
                    rect.contains(cx, cy) && (cy < y || (cy == y && cx < x + 1))
                    implies new_colors@[#[trigger] rect.offset_of(cx, cy)] == filtered(
                    rect,
                    kernel@,
                    colors@,
                    cx,
                    cy,
                ) by {
                    lemma_offsets_in_order(rect, cx, cy, x, y);
                    if cy == y && cx == x {
                    } else {
                        assert(done[rect.offset_of(cx, cy)] == filtered(
                            rect,
                            kernel@,
                            colors@,
                            cx,
                            cy,
                        ));
                    }
                }
            }
            x = x + 1;
        }
        proof {
            assert((y - rect.y + 1) * rect.w == (y - rect.y) * rect.w + rect.w) by (nonlinear_arith);
        }
        y = y + 1;
    }
    proof {
        assert((y - rect.y) * rect.w == rect.w * rect.h) by (nonlinear_arith)
            requires
                y - rect.y == rect.h,
        ;
    }
    new_colors
}

/// A cell that is read before another has the smaller offset.
pub proof fn lemma_offsets_in_order(rect: Rect, ax: usize, ay: usize, bx: usize, by: usize)
    requires
        rect.contains(ax, ay),
        rect.contains(bx, by),
        ay < by || (ay == by && ax <= bx),
    ensures
        0 <= rect.offset_of(ax, ay) <= rect.offset_of(bx, by),
        (ax, ay) != (bx, by) ==> rect.offset_of(ax, ay) < rect.offset_of(bx, by),
{
    let w = rect.w as int;
    let ra = ay - rect.y;
    let rb = by - rect.y;
    lemma_row_major(ra, ax - rect.x, w, rect.h as int);
    if ay < by {
        assert(ra * w + w <= rb * w) by (nonlinear_arith)
            requires
                ra + 1 <= rb,
                0 <= w,
        ;
    }
}

/// The colours of a whole canvas, row by row.
pub struct Screen {
    pub w: usize,
    pub h: usize,
    pub colors: Vec<(u8, u8, u8)>,
}

impl Screen {
    /// There is one colour for each cell.
    pub open spec fn wf(&self) -> bool {
        self.colors@.len() == self.w * self.h
    }

    /// Where the neighbour of `(x, y)` at `(dx, dy)` lies in `colors`, if it is
    /// on the screen.
    pub open spec fn neighbor(&self, x: usize, y: usize, dx: i32, dy: i32) -> Option<int> {
        match (moved_within(x, dx, 0, self.w), moved_within(y, dy, 0, self.h)) {
            (Some(nx), Some(ny)) => Some(ny * self.w + nx),
            _ => None,
        }
    }

    /// The colour of the neighbour of `(x, y)` at `(dx, dy)`, to be changed
    /// in place, if that neighbour is on the screen.
    pub fn get_neighbor_mut(&mut self, x: usize, y: usize, dx: i32, dy: i32) -> (color: Option<
        &mut (u8, u8, u8),
    >)
        requires
            old(self).wf(),
            x < old(self).w,
            y < old(self).h,
        ensures
            final(self).w == old(self).w,
            final(self).h == old(self).h,
            final(self).wf(),
            color is Some <==> old(self).neighbor(x, y, dx, dy) is Some,
            match color {
                Some(cell) => {
                    let at = old(self).neighbor(x, y, dx, dy).unwrap();
                    &&& 0 <= at < old(self).colors@.len()
                    &&& *cell == old(self).colors@[at]
                    &&& final(self).colors@ == old(self).colors@.update(at, *final(cell))
                },
                None => final(self).colors@ == old(self).colors@,
            },
    {
        let cells = self.colors.len();
        assert(self.w * self.h == cells);
        let screen = Rect { x: 0, y: 0, w: self.w, h: self.h };
        match screen.get_mut_with_delta_abs(x, y, dx, dy) {
            Some((nx, ny)) => {
                proof {
                    lemma_row_major(ny as int, nx as int, self.w as int, self.h as int);
                }
                Some(&mut self.colors[ny * self.w + nx])
            },
            None => None,
        }
    }
}

} // verus!
