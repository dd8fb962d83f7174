//! Filled discs on the pixel grid.
//!
//! A disc is the list of grid cells it covers, row by row from the top and
//! left to right inside a row. Radii up to four have hand-shaped outlines; from
//! five on a disc is the open disc `dx² + dy² < radius²`. Cells that would have
//! a coordinate outside `usize` are left out; nothing else is clipped.

use crate::primitive::Pixel;
use vstd::prelude::*;

verus! {

/// The distance between two coordinates.
pub open spec fn gap(a: int, b: int) -> int {
    if a <= b {
        b - a
    } else {
        a - b
    }
}

/// Whether a disc of this radius covers the cell at offset `(dx, dy)` from its
/// centre.
///
/// Radius 1 is the centre alone, radius 2 a plus of five cells, radius 3 and 4
/// a square of side `2 * radius - 1` without its four corners, and every
/// larger radius the open disc.
pub open spec fn covers(radius: int, dx: int, dy: int) -> bool {
    let ax = gap(0, dx);
    let ay = gap(0, dy);
    if radius == 1 {
        ax == 0 && ay == 0
    } else if radius == 2 {
        ax + ay <= 1
    } else if radius == 3 || radius == 4 {
        ax < radius && ay < radius && !(ax == radius - 1 && ay == radius - 1)
    } else {
        dx * dx + dy * dy < radius * radius
    }
}

/// Whether the disc at `center` covers the cell `p`.
pub open spec fn in_disc(center: (usize, usize), radius: usize, p: (usize, usize)) -> bool {
    covers(radius as int, p.0 - center.0, p.1 - center.1)
}

/// Reading order of the grid: higher rows first, then further left.
pub open spec fn reads_before(a: (usize, usize), b: (usize, usize)) -> bool {
    a.1 < b.1 || (a.1 == b.1 && a.0 < b.0)
}

/// `cells` lists exactly the cells of the disc, each once, in reading order.
pub open spec fn is_disc(cells: Seq<(usize, usize)>, center: (usize, usize), radius: usize) -> bool {
    &&& forall|i: int| 0 <= i < cells.len() ==> in_disc(center, radius, #[trigger] cells[i])
    &&& forall|p: (usize, usize)| #[trigger] in_disc(center, radius, p) ==> cells.contains(p)
    &&& forall|i: int, j: int|
        0 <= i < j < cells.len() ==> reads_before(#[trigger] cells[i], #[trigger] cells[j])
}

/// The cells of the disc at `center`, in reading order.
pub open spec fn disc(center: (usize, usize), radius: usize) -> Seq<(usize, usize)> {
    choose|cells: Seq<(usize, usize)>| is_disc(cells, center, radius)
}

/// The cells as pixels of one colour, in the same order.
pub open spec fn paint(cells: Seq<(usize, usize)>, color: (u8, u8, u8)) -> Seq<Pixel> {
    Seq::new(cells.len(), |i: int| Pixel { x: cells[i].0, y: cells[i].1, color })
}

/// A covered cell is less than `radius` away from the centre on either axis.
pub proof fn lemma_covers_within_reach(radius: int, dx: int, dy: int)
    requires
        radius >= 1,
        covers(radius, dx, dy),
    ensures
        gap(0, dx) < radius,
        gap(0, dy) < radius,
{
    if radius >= 5 {
        assert(gap(0, dx) < radius && gap(0, dy) < radius) by (nonlinear_arith)
            requires
                radius >= 5,
                dx * dx + dy * dy < radius * radius,
                gap(0, dx) == if 0 <= dx {
                    dx
                } else {
                    -dx
                },
                gap(0, dy) == if 0 <= dy {
                    dy
                } else {
                    -dy
                },
        ;
    }
}

/// A disc looks the same from all sides: mirrored left to right, top to
/// bottom or at a diagonal it covers the same offsets.
pub proof fn lemma_disc_is_symmetric(radius: int, dx: int, dy: int)
    ensures
        covers(radius, dx, dy) == covers(radius, -dx, dy),
        covers(radius, dx, dy) == covers(radius, dx, -dy),
        covers(radius, dx, dy) == covers(radius, dy, dx),
{
    assert((-dx) * (-dx) == dx * dx && (-dy) * (-dy) == dy * dy) by (nonlinear_arith);
}

/// Discs nest: what a disc covers, the next larger disc covers too. So the
/// black disc that is drawn one smaller onto a worm's body leaves of the body
/// a ring, and nothing outside it turns black.
pub proof fn lemma_discs_nest(radius: int, dx: int, dy: int)
    requires
        radius >= 1,
        covers(radius, dx, dy),
    ensures
        covers(radius + 1, dx, dy),
{
    if radius == 4 {
        let ax = gap(0, dx);
        let ay = gap(0, dy);
        assert(dx * dx == ax * ax && dy * dy == ay * ay) by (nonlinear_arith)
            requires
                ax == gap(0, dx),
                ay == gap(0, dy),
        ;
        assert(ax * ax + ay * ay < 25) by (nonlinear_arith)
            requires
                0 <= ax <= 3,
                0 <= ay <= 3,
                !(ax == 3 && ay == 3),
        ;
    } else if radius >= 5 {
        assert(radius * radius < (radius + 1) * (radius + 1)) by (nonlinear_arith)
            requires
                radius >= 5,
        ;
    }
}

/// Two lists in reading order that hold the same cells are the same list.
pub proof fn lemma_reading_order_unique(a: Seq<(usize, usize)>, b: Seq<(usize, usize)>)
    requires
        forall|i: int, j: int|
            0 <= i < j < a.len() ==> reads_before(#[trigger] a[i], #[trigger] a[j]),
        forall|i: int, j: int|
            0 <= i < j < b.len() ==> reads_before(#[trigger] b[i], #[trigger] b[j]),
        forall|p: (usize, usize)| a.contains(p) <==> b.contains(p),
    ensures
        a == b,
    decreases a.len(),
{
    if a.len() == 0 {
        if b.len() > 0 {
            assert(b.contains(b[0]));
            assert(a.contains(b[0]));
        }
        assert(a =~= b);
    } else {
        let last = a.last();
        assert(a.contains(last));
        assert(b.contains(last));
        let k = choose|k: int| 0 <= k < b.len() && b[k] == last;
        if k < b.len() - 1 {
            // something after `last` in b must sit before `last` in a
            let later = b[k + 1];
            assert(reads_before(b[k], b[k + 1]));
            assert(b.contains(later));
            assert(a.contains(later));
            let m = choose|m: int| 0 <= m < a.len() && a[m] == later;
            if m < a.len() - 1 {
                assert(reads_before(a[m], a[a.len() - 1]));
            }
            assert(false);
        }
        let a0 = a.drop_last();
        let b0 = b.drop_last();
        assert forall|p: (usize, usize)| a0.contains(p) <==> b0.contains(p) by {
            if a0.contains(p) {
                let i = choose|i: int| 0 <= i < a0.len() && a0[i] == p;
                assert(a[i] == p);
                assert(reads_before(a[i], a[a.len() - 1]));
                assert(a.contains(p));
                assert(b.contains(p));
                let j = choose|j: int| 0 <= j < b.len() && b[j] == p;
                assert(j != b.len() - 1);
                assert(b0[j] == p);
            }
            if b0.contains(p) {
                let j = choose|j: int| 0 <= j < b0.len() && b0[j] == p;
                assert(b[j] == p);
                assert(reads_before(b[j], b[b.len() - 1]));
                assert(b.contains(p));
                assert(a.contains(p));
                let i = choose|i: int| 0 <= i < a.len() && a[i] == p;
                assert(i != a.len() - 1);
                assert(a0[i] == p);
            }
        }
        assert forall|i: int, j: int| 0 <= i < j < a0.len() implies reads_before(
            #[trigger] a0[i],
            #[trigger] a0[j],
        ) by {
            assert(reads_before(a[i], a[j]));
        }
        assert forall|i: int, j: int| 0 <= i < j < b0.len() implies reads_before(
            #[trigger] b0[i],
            #[trigger] b0[j],
        ) by {
            assert(reads_before(b[i], b[j]));
        }
        lemma_reading_order_unique(a0, b0);
        assert(a =~= a0.push(last));
        assert(b =~= b0.push(last));
    }
}

/// Whatever lists a disc's cells in reading order is the disc.
pub proof fn lemma_disc_unique(cells: Seq<(usize, usize)>, center: (usize, usize), radius: usize)
    requires
        is_disc(cells, center, radius),
    ensures
        cells == disc(center, radius),
        is_disc(disc(center, radius), center, radius),
{
    let d = disc(center, radius);
    assert(is_disc(d, center, radius));
    assert forall|p: (usize, usize)| cells.contains(p) <==> d.contains(p) by {
        if cells.contains(p) {
            let i = choose|i: int| 0 <= i < cells.len() && cells[i] == p;
            assert(in_disc(center, radius, cells[i]));
        }
        if d.contains(p) {
            let i = choose|i: int| 0 <= i < d.len() && d[i] == p;
            assert(in_disc(center, radius, d[i]));
        }
    }
    lemma_reading_order_unique(cells, d);
}

/// A disc of radius 1 is its centre and nothing else.
pub proof fn lemma_disc_of_radius_one(center: (usize, usize))
    ensures
        disc(center, 1) == seq![center],
{
    let cells = seq![center];
    assert(cells[0] == center);
    assert forall|p: (usize, usize)| #[trigger] in_disc(center, 1, p) implies cells.contains(p) by {
        assert(p == center);
    }
    lemma_disc_unique(cells, center, 1);
}

/// A disc of radius 2 that is clear of the edges of the grid is the plus
/// around its centre.
pub proof fn lemma_disc_of_radius_two(center: (usize, usize))
    requires
        1 <= center.0 < usize::MAX,
        1 <= center.1 < usize::MAX,
    ensures
        disc(center, 2) == seq![
            (center.0, (center.1 - 1) as usize),
            ((center.0 - 1) as usize, center.1),
            center,
            ((center.0 + 1) as usize, center.1),
            (center.0, (center.1 + 1) as usize),
        ],
{
    let cells = seq![
        (center.0, (center.1 - 1) as usize),
        ((center.0 - 1) as usize, center.1),
        center,
        ((center.0 + 1) as usize, center.1),
        (center.0, (center.1 + 1) as usize),
    ];
    assert forall|p: (usize, usize)| #[trigger] in_disc(center, 2, p) implies cells.contains(p) by {
        if p.1 < center.1 {
            assert(p == cells[0]);
        } else if p.1 > center.1 {
            assert(p == cells[4]);
        } else if p.0 < center.0 {
            assert(p == cells[1]);
        } else if p.0 > center.0 {
            assert(p == cells[3]);
        } else {
            assert(p == cells[2]);
        }
    }
    lemma_disc_unique(cells, center, 2);
}

/// The covered cells of row `y` among the `n` columns from `left` on, from
/// left to right.
pub proof fn lemma_row_of_a_disc(
    center: (usize, usize),
    radius: usize,
    y: usize,
    left: usize,
    n: nat,
) -> (row: Seq<(usize, usize)>)
    requires
        left + n <= usize::MAX + 1,
    ensures
        forall|i: int|
            0 <= i < row.len() ==> {
                &&& (#[trigger] row[i]).1 == y
                &&& left <= row[i].0 < left + n
                &&& in_disc(center, radius, row[i])
            },
        forall|i: int, j: int|
            0 <= i < j < row.len() ==> (#[trigger] row[i]).0 < (#[trigger] row[j]).0,
        forall|x: usize|
            left <= x < left + n && #[trigger] in_disc(center, radius, (x, y)) ==> row.contains(
                (x, y),
            ),
    decreases n,
{
    if n == 0 {
        Seq::empty()
    } else {
        let shorter = lemma_row_of_a_disc(center, radius, y, left, (n - 1) as nat);
        let x = (left + n - 1) as usize;
        let row = if in_disc(center, radius, (x, y)) {
            shorter.push((x, y))
        } else {
            shorter
        };
        assert forall|c: usize|
            left <= c < left + n && #[trigger] in_disc(center, radius, (c, y)) implies row.contains(
            (c, y),
        ) by {
            if c < x {
                let i = choose|i: int| 0 <= i < shorter.len() && shorter[i] == (c, y);
                assert(row[i] == (c, y));
            } else {
                assert(row[shorter.len() as int] == (x, y));
            }
        }
        row
    }
}

/// The covered cells of the `m` rows from `top` on, among the `n` columns from
/// `left` on, in reading order.
pub proof fn lemma_rows_of_a_disc(
    center: (usize, usize),
    radius: usize,
    top: usize,
    m: nat,
    left: usize,
    n: nat,
) -> (cells: Seq<(usize, usize)>)
    requires
        top + m <= usize::MAX + 1,
        left + n <= usize::MAX + 1,
    ensures
        forall|i: int|
            0 <= i < cells.len() ==> {
                &&& top <= (#[trigger] cells[i]).1 < top + m
                &&& in_disc(center, radius, cells[i])
            },
        forall|i: int, j: int|
            0 <= i < j < cells.len() ==> reads_before(#[trigger] cells[i], #[trigger] cells[j]),
        forall|p: (usize, usize)|
            left <= p.0 < left + n && top <= p.1 < top + m && #[trigger] in_disc(center, radius, p)
                ==> cells.contains(p),
    decreases m,
{
    if m == 0 {
        Seq::empty()
    } else {
        let above = lemma_rows_of_a_disc(center, radius, top, (m - 1) as nat, left, n);
        let y = (top + m - 1) as usize;
        let row = lemma_row_of_a_disc(center, radius, y, left, n);
        let cells = above + row;
        assert forall|p: (usize, usize)|
            left <= p.0 < left + n && top <= p.1 < top + m && #[trigger] in_disc(
                center,
                radius,
                p,
            ) implies cells.contains(p) by {
            if p.1 < y {
                let i = choose|i: int| 0 <= i < above.len() && above[i] == p;
                assert(cells[i] == p);
            } else {
                assert(in_disc(center, radius, (p.0, y)));
                let i = choose|i: int| 0 <= i < row.len() && row[i] == p;
                assert(cells[above.len() + i] == p);
            }
        }
        cells
    }
}

/// Every disc is well defined: there is a list of exactly its cells in
/// reading order, and [`disc`] is that list.
pub proof fn lemma_disc_is_disc(center: (usize, usize), radius: usize)
    requires
        radius >= 1,
    ensures
        is_disc(disc(center, radius), center, radius),
{
    let reach = radius - 1;
    let top = held_above_zero(center.1 - reach);
    let bottom = held_below_max(center.1 + reach);
    let left = held_above_zero(center.0 - reach);
    let right = held_below_max(center.0 + reach);
    let cells = lemma_rows_of_a_disc(
        center,
        radius,
        top,
        (bottom - top + 1) as nat,
        left,
        (right - left + 1) as nat,
    );
    assert forall|p: (usize, usize)| #[trigger] in_disc(center, radius, p) implies cells.contains(
        p,
    ) by {
        lemma_covers_within_reach(radius as int, p.0 - center.0, p.1 - center.1);
    }
    lemma_disc_unique(cells, center, radius);
}

/// A coordinate, or zero where it would be negative.
pub open spec fn held_above_zero(value: int) -> usize {
    if value < 0 {
        0
    } else {
        value as usize
    }
}

/// A coordinate, or the largest there is where it would be beyond.
pub open spec fn held_below_max(value: int) -> usize {
    if value > usize::MAX {
        usize::MAX
    } else {
        value as usize
    }
}

/// Every disc holds its centre, so no disc is empty; and every cell of a disc
/// is less than the radius away from the centre on either axis.
pub proof fn lemma_disc_lies_around_its_center(center: (usize, usize), radius: usize)
    requires
        radius >= 1,
    ensures
        disc(center, radius).contains(center),
        disc(center, radius).len() >= 1,
        forall|i: int|
            0 <= i < disc(center, radius).len() ==> {
                let p = #[trigger] disc(center, radius)[i];
                gap(center.0 as int, p.0 as int) < radius && gap(center.1 as int, p.1 as int) < radius
            },
{
    lemma_disc_is_disc(center, radius);
    let cells = disc(center, radius);
    assert(in_disc(center, radius, center)) by {
        assert(0 * 0 + 0 * 0 < radius * radius) by (nonlinear_arith)
            requires
                radius >= 1,
        ;
    }
    assert forall|i: int| 0 <= i < cells.len() implies {
        let p = #[trigger] cells[i];
        gap(center.0 as int, p.0 as int) < radius && gap(center.1 as int, p.1 as int) < radius
    } by {
        let p = cells[i];
        assert(in_disc(center, radius, p));
        lemma_covers_within_reach(radius as int, p.0 - center.0, p.1 - center.1);
    }
}

/// Whether the disc at `center` covers the cell `(x, y)`.
fn covered(center: (usize, usize), radius: usize, x: usize, y: usize) -> (hit: bool)
    requires
        radius >= 1,
    ensures
        hit == in_disc(center, radius, (x, y)),
{
    let ax = if x >= center.0 {
        x - center.0
    } else {
        center.0 - x
    };
    let ay = if y >= center.1 {
        y - center.1
    } else {
        center.1 - y
    };
    assert(ax == gap(0, x - center.0) && ay == gap(0, y - center.1));
    if radius == 1 {
        ax == 0 && ay == 0
    } else if radius == 2 {
        ax <= 1 && ay <= 1 && ax + ay <= 1
    } else if radius == 3 || radius == 4 {
        ax < radius && ay < radius && !(ax == radius - 1 && ay == radius - 1)
    } else if ax >= radius || ay >= radius {
        proof {
            if in_disc(center, radius, (x, y)) {
                lemma_covers_within_reach(radius as int, x - center.0, y - center.1);
            }
        }
        false
    } else {
        let a = ax as u128;
        let b = ay as u128;
        let r = radius as u128;
        assert(a * a < r * r && b * b < r * r && r * r <= u128::MAX) by (nonlinear_arith)
            requires
                0 <= a < r,
                0 <= b < r,
                r <= 0xffff_ffff_ffff_ffff,
        ;
        assert(a * a == (x - center.0) * (x - center.0) && b * b == (y - center.1) * (y
            - center.1)) by (nonlinear_arith)
            requires
                a == gap(0, x - center.0),
                b == gap(0, y - center.1),
        ;
        b * b < r * r - a * a
    }
}

/// Appends the covered cells of row `y` between columns `left` and `right`,
/// both included, from left to right.
fn scan_row(
    center: (usize, usize),
    radius: usize,
    y: usize,
    left: usize,
    right: usize,
    cells: &mut Vec<(usize, usize)>,
)
    requires
        radius >= 1,
        left <= right,
    ensures
        final(cells)@.len() >= old(cells)@.len(),
        final(cells)@.subrange(0, old(cells)@.len() as int) == old(cells)@,
        forall|i: int|
            old(cells)@.len() <= i < final(cells)@.len() ==> {
                &&& (#[trigger] final(cells)@[i]).1 == y
                &&& left <= final(cells)@[i].0 <= right
                &&& in_disc(center, radius, final(cells)@[i])
            },
        forall|i: int, j: int|
            old(cells)@.len() <= i < j < final(cells)@.len() ==> (#[trigger] final(cells)@[i]).0 < (
            #[trigger] final(cells)@[j]).0,
        forall|x: usize|
            left <= x <= right && #[trigger] in_disc(center, radius, (x, y))
                ==> final(cells)@.contains((x, y)),
{
    let ghost before = cells@;
    let mut x = left;
    loop
        invariant_except_break
            left <= x <= right,
            forall|i: int| before.len() <= i < cells@.len() ==> (#[trigger] cells@[i]).0 < x,
            forall|c: usize|
                left <= c < x && #[trigger] in_disc(center, radius, (c, y)) ==> cells@.contains(
                    (c, y),
                ),
        invariant
            radius >= 1,
            left <= right,
            cells@.len() >= before.len(),
            cells@.subrange(0, before.len() as int) == before,
            forall|i: int|
                before.len() <= i < cells@.len() ==> {
                    &&& (#[trigger] cells@[i]).1 == y
                    &&& left <= cells@[i].0 <= right
                    &&& in_disc(center, radius, cells@[i])
                },
            forall|i: int, j: int|
                before.len() <= i < j < cells@.len() ==> (#[trigger] cells@[i]).0 < (
                #[trigger] cells@[j]).0,
        ensures
            forall|c: usize|
                left <= c <= right && #[trigger] in_disc(center, radius, (c, y)) ==> cells@.contains(
                    (c, y),
                ),
        decreases right - x,
    {
        let ghost so_far = cells@;
        if covered(center, radius, x, y) {
            cells.push((x, y));
            assert(cells@[so_far.len() as int] == (x, y));
            assert(cells@.subrange(0, before.len() as int) =~= so_far.subrange(
                0,
                before.len() as int,
            ));
        }
        assert forall|c: usize|
            left <= c <= x && #[trigger] in_disc(center, radius, (c, y)) implies cells@.contains(
            (c, y),
        ) by {
            if c < x {
                assert(so_far.contains((c, y)));
                let i = choose|i: int| 0 <= i < so_far.len() && so_far[i] == (c, y);
                assert(cells@[i] == (c, y));
            } else {
                assert(cells@[so_far.len() as int] == (x, y));
            }
        }
        if x == right {
            break ;
        }
        x = x + 1;
    }
}

/// The cells of the filled disc of the given radius around `center`, in reading
/// order.
///
/// Radius 1 gives the centre alone. A radius of zero is not a disc.
pub fn dc(center: (usize, usize), radius: usize) -> (cells: Vec<(usize, usize)>)
    requires
        radius >= 1,
    ensures
        is_disc(cells@, center, radius),
        cells@ == disc(center, radius),
        radius == 1 ==> cells@ == seq![center],
{
    if radius == 1 {
        let cells = vec![center];
        proof {
            lemma_disc_of_radius_one(center);
            assert(cells@ =~= seq![center]);
            lemma_disc_unique(disc(center, 1), center, 1);
        }
        return cells;
    }
    let reach = radius - 1;
    let top = if center.1 >= reach {
        center.1 - reach
    } else {
        0
    };
    let bottom = if center.1 <= usize::MAX - reach {
        center.1 + reach
    } else {
        usize::MAX
    };
    let left = if center.0 >= reach {
        center.0 - reach
    } else {
        0
    };
    let right = if center.0 <= usize::MAX - reach {
        center.0 + reach
    } else {
        usize::MAX
    };
    let mut cells: Vec<(usize, usize)> = Vec::new();
    let mut y = top;
    loop
        invariant_except_break
            top <= y <= bottom,
            forall|i: int| 0 <= i < cells@.len() ==> (#[trigger] cells@[i]).1 < y,
            forall|p: (usize, usize)|
                left <= p.0 <= right && top <= p.1 < y && #[trigger] in_disc(center, radius, p)
                    ==> cells@.contains(p),
        invariant
            radius >= 1,
            left <= right,
            top <= bottom,
            forall|i: int| 0 <= i < cells@.len() ==> in_disc(center, radius, #[trigger] cells@[i]),
            forall|i: int, j: int|
                0 <= i < j < cells@.len() ==> reads_before(#[trigger] cells@[i], #[trigger] cells@[j]),
        ensures
            forall|p: (usize, usize)|
                left <= p.0 <= right && top <= p.1 <= bottom && #[trigger] in_disc(
                    center,
                    radius,
                    p,
                ) ==> cells@.contains(p),
        decreases bottom - y,
    {
        let ghost above = cells@;
        scan_row(center, radius, y, left, right, &mut cells);
        assert forall|i: int| 0 <= i < cells@.len() implies in_disc(
            center,
            radius,
            #[trigger] cells@[i],
        ) && cells@[i].1 <= y by {
            if i < above.len() {
                assert(cells@[i] == cells@.subrange(0, above.len() as int)[i]);
            }
        }
        assert forall|i: int, j: int| 0 <= i < j < cells@.len() implies reads_before(
            #[trigger] cells@[i],
            #[trigger] cells@[j],
        ) by {
            if j < above.len() {
                assert(cells@[i] == cells@.subrange(0, above.len() as int)[i]);
                assert(cells@[j] == cells@.subrange(0, above.len() as int)[j]);
            } else if i < above.len() {
                assert(cells@[i] == cells@.subrange(0, above.len() as int)[i]);
            }
        }
        assert forall|p: (usize, usize)|
            left <= p.0 <= right && top <= p.1 <= y && #[trigger] in_disc(
                center,
                radius,
                p,
            ) implies cells@.contains(p) by {
            if p.1 < y {
                assert(above.contains(p));
                let i = choose|i: int| 0 <= i < above.len() && above[i] == p;
                assert(cells@[i] == cells@.subrange(0, above.len() as int)[i]);
            } else {
                assert(in_disc(center, radius, (p.0, y)));
            }
        }
        if y == bottom {
            break ;
        }
        y = y + 1;
    }
    proof {
        assert forall|p: (usize, usize)| #[trigger] in_disc(center, radius, p) implies cells@.contains(
            p,
        ) by {
            lemma_covers_within_reach(radius as int, p.0 - center.0, p.1 - center.1);
        }
        lemma_disc_unique(cells@, center, radius);
    }
    cells
}

/// The cells of a disc for callers that cannot vouch for the radius: `None` for
/// the radius zero, which has no disc, and the disc for every other.
pub fn dc_checked(center: (usize, usize), radius: usize) -> (cells: Option<Vec<(usize, usize)>>)
    ensures
        radius == 0 <==> cells is None,
        cells is Some ==> cells.unwrap()@ == disc(center, radius),
{
    if radius == 0 {
        None
    } else {
        Some(dc(center, radius))
    }
}

/// The filled disc as pixels of one colour.
pub fn dc_pixels(center: (usize, usize), radius: usize, color: (u8, u8, u8)) -> (pixels: Vec<Pixel>)
    requires
        radius >= 1,
    ensures
        pixels@ == paint(disc(center, radius), color),
        radius == 1 ==> pixels@ == seq![Pixel { x: center.0, y: center.1, color }],
{
    let cells = dc(center, radius);
    let mut pixels: Vec<Pixel> = Vec::new();
    let mut i: usize = 0;
    while i < cells.len()
        invariant
            i <= cells@.len(),
            pixels@ == paint(cells@.take(i as int), color),
        decreases cells@.len() - i,
    {
        let (x, y) = cells[i];
        pixels.push(Pixel { x, y, color });
        assert(pixels@ =~= paint(cells@.take(i + 1), color));
        i = i + 1;
    }
    assert(cells@.take(i as int) =~= cells@);
    assert(radius == 1 ==> pixels@ =~= seq![Pixel { x: center.0, y: center.1, color }]);
    pixels
}

} // verus!
