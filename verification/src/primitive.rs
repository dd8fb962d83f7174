//! The two values every drawing is made of: a coloured pixel and a rectangle.

use vstd::prelude::*;

verus! {

/// One coloured point of the canvas.
#[derive(Debug, Copy, Clone)]
pub struct Pixel {
    pub x: usize,
    pub y: usize,
    pub color: (u8, u8, u8),
}

impl PartialEq for Pixel {
    fn eq(&self, other: &Pixel) -> (same: bool) {
        self.x == other.x && self.y == other.y && self.color.0 == other.color.0 && self.color.1
            == other.color.1 && self.color.2 == other.color.2
    }
}

impl vstd::std_specs::cmp::PartialEqSpecImpl for Pixel {
    open spec fn obeys_eq_spec() -> bool {
        true
    }

    open spec fn eq_spec(&self, other: &Pixel) -> bool {
        self.x == other.x && self.y == other.y && self.color.0 == other.color.0 && self.color.1
            == other.color.1 && self.color.2 == other.color.2
    }
}

/// What a list of optional pixels draws: those that are there, in order.
pub open spec fn present(cells: Seq<Option<Pixel>>) -> Seq<Pixel>
    decreases cells.len(),
{
    if cells.len() == 0 {
        Seq::empty()
    } else {
        present(cells.drop_last()) + match cells.last() {
            Some(pixel) => seq![pixel],
            None => Seq::empty(),
        }
    }
}

/// An axis-aligned rectangle of the canvas: top-left corner, width and height.
#[derive(Debug, Copy, Clone, PartialEq, Eq, Structural)]
pub struct Rect {
    pub x: usize,
    pub y: usize,
    pub w: usize,
    pub h: usize,
}

/// Where a coordinate lands after moving by `delta` inside the half-open span
/// `[low, low + len)`. A move to the right (or none) is only held against the
/// far edge, a move to the left only against the near edge.
pub open spec fn moved_within(at: usize, delta: i32, low: usize, len: usize) -> Option<usize> {
    if delta >= 0 && at + delta < low + len {
        Some((at + delta) as usize)
    } else if delta < 0 && at + delta >= low {
        Some((at + delta) as usize)
    } else {
        None
    }
}

fn move_within(at: usize, delta: i32, low: usize, len: usize) -> (moved: Option<usize>)
    requires
        low + len <= usize::MAX,
    ensures
        moved == moved_within(at, delta, low, len),
{
    if delta >= 0 {
        let step = delta as usize;
        if at < low + len && step < low + len - at {
            Some(at + step)
        } else {
            None
        }
    } else {
        // -(delta + 1) cannot overflow, -delta can
        let back = (-(delta + 1)) as usize;
        if at > back && at - back - 1 >= low {
            Some(at - back - 1)
        } else {
            None
        }
    }
}

impl Rect {
    /// The far edges can be addressed and the area can be counted.
    pub open spec fn wf(&self) -> bool {
        &&& self.x + self.w <= usize::MAX
        &&& self.y + self.h <= usize::MAX
        &&& self.w * self.h <= usize::MAX
    }

    /// The point lies in the rectangle.
    pub open spec fn contains(&self, x: usize, y: usize) -> bool {
        &&& self.x <= x < self.x + self.w
        &&& self.y <= y < self.y + self.h
    }

    /// The row-major position of an absolute point among the rectangle's cells.
    pub open spec fn offset_of(&self, x: usize, y: usize) -> int {
        (y - self.y) * self.w + (x - self.x)
    }

    /// The neighbour of the absolute point `(x, y)` at offset `(dx, dy)`, if
    /// the move stays inside the rectangle on both axes.
    pub fn get_mut_with_delta_abs(&self, x: usize, y: usize, dx: i32, dy: i32) -> (cell: Option<
        (usize, usize),
    >)
        requires
            self.x + self.w <= usize::MAX,
            self.y + self.h <= usize::MAX,
        ensures
            cell == match (
                moved_within(x, dx, self.x, self.w),
                moved_within(y, dy, self.y, self.h),
            ) {
                (Some(nx), Some(ny)) => Some((nx, ny)),
                _ => None,
            },
            self.contains(x, y) && cell.is_some() ==> self.contains(cell.unwrap().0, cell.unwrap().1),
    {
        let new_x = move_within(x, dx, self.x, self.w);
        let new_y = move_within(y, dy, self.y, self.h);
        match (new_x, new_y) {
            (Some(nx), Some(ny)) => Some((nx, ny)),
            _ => None,
        }
    }

    /// The index of the absolute point `(x, y)` in a row-major buffer that
    /// holds exactly the rectangle's cells.
    pub fn index_abs(&self, x: usize, y: usize) -> (index: usize)
        requires
            self.x <= x,
            self.y <= y,
            self.offset_of(x, y) <= usize::MAX,
        ensures
            index == self.offset_of(x, y),
            self.contains(x, y) ==> index < self.w * self.h,
    {
        let row = y - self.y;
        let col = x - self.x;
        proof {
            lemma_row_major(row as int, col as int, self.w as int, self.h as int);
        }
        row * self.w + col
    }

    /// The absolute columns of the rectangle, left to right.
    pub fn xs_abs(&self) -> (columns: core::ops::Range<usize>)
        requires
            self.x + self.w <= usize::MAX,
        ensures
            columns.start == self.x,
            columns.end == self.x + self.w,
    {
        self.x..(self.x + self.w)
    }

    /// The absolute rows of the rectangle, top to bottom.
    pub fn ys_abs(&self) -> (rows: core::ops::Range<usize>)
        requires
            self.y + self.h <= usize::MAX,
        ensures
            rows.start == self.y,
            rows.end == self.y + self.h,
    {
        self.y..(self.y + self.h)
    }
}

/// A row-major offset is non-negative, a row's worth at least, and below the
/// area when row and column are inside.
pub proof fn lemma_row_major(row: int, col: int, w: int, h: int)
    requires
        0 <= row,
        0 <= col,
        0 <= w,
    ensures
        0 <= row * w <= row * w + col,
        row < h && col < w ==> row * w + col < w * h,
{
    assert(0 <= row * w) by (nonlinear_arith)
        requires
            0 <= row,
            0 <= w,
    ;
    if row < h && col < w {
        assert(row * w + w <= w * h) by (nonlinear_arith)
            requires
                0 <= row < h,
                0 <= w,
        ;
    }
}

} // verus!
