//! The outline of a circle on the pixel grid.
//!
//! One eighth of the outline is walked from the lowest point to the right,
//! always to the neighbour that lies nearer to the true circle; the rest is
//! mirrored from it.

use crate::disc::gap;
use vstd::prelude::*;

verus! {

/// How far the cell at offset `(a, b)` from the centre misses the circle of
/// radius `r`, in squared distance.
pub open spec fn miss(r: int, a: int, b: int) -> int {
    gap(a * a + b * b, r * r)
}

/// The offset after `(a, b)` on the walk: one to the right, and one up if that
/// misses the circle by less.
pub open spec fn octant_next(r: int, p: (int, int)) -> (int, int) {
    if miss(r, p.0 + 1, p.1) <= miss(r, p.0 + 1, p.1 - 1) {
        (p.0 + 1, p.1)
    } else {
        (p.0 + 1, p.1 - 1)
    }
}

/// The offset that the walk reaches after `k` steps from `(0, r)`, the point
/// straight below the centre (rows grow downward).
pub open spec fn octant_at(r: int, k: nat) -> (int, int)
    decreases k,
{
    if k == 0 {
        (0, r)
    } else {
        octant_next(r, octant_at(r, (k - 1) as nat))
    }
}

/// `cells` is the walk around `center`: it starts straight below the centre,
/// goes on while it has not crossed the diagonal, and ends with the first cell
/// beyond it. No cell is further than `radius` from the centre on either axis,
/// and none misses the circle by more than `radius + 1`, which is about half a
/// cell.
pub open spec fn is_octant(
    cells: Seq<(usize, usize)>,
    center: (usize, usize),
    radius: usize,
) -> bool {
    &&& cells.len() >= 2
    &&& forall|k: int|
        0 <= k < cells.len() ==> {
            let at = octant_at(radius as int, k as nat);
            &&& #[trigger] cells[k] == ((center.0 + at.0) as usize, (center.1 + at.1) as usize)
            &&& 0 <= at.0 <= radius
            &&& 0 <= at.1 <= radius
            &&& miss(radius as int, at.0, at.1) <= radius + 1
            &&& k < cells.len() - 1 ==> at.1 >= at.0
        }
    &&& octant_at(radius as int, (cells.len() - 1) as nat).1 < octant_at(
        radius as int,
        (cells.len() - 1) as nat,
    ).0
}

/// `p` seen from `center`, with its offsets swapped: mirrored at the diagonal.
pub open spec fn swapped(center: (usize, usize), p: (usize, usize)) -> (usize, usize) {
    ((center.0 + p.1 - center.1) as usize, (center.1 + p.0 - center.0) as usize)
}

/// `p` mirrored at the row of `center`.
pub open spec fn flipped_up(center: (usize, usize), p: (usize, usize)) -> (usize, usize) {
    (p.0, (center.1 - (p.1 - center.1)) as usize)
}

/// `p` mirrored at the column of `center`.
pub open spec fn flipped_left(center: (usize, usize), p: (usize, usize)) -> (usize, usize) {
    ((center.0 - (p.0 - center.0)) as usize, p.1)
}

/// The whole outline made from one eighth: the eighth and its mirror image at
/// the diagonal, then both mirrored upward, then all four mirrored to the
/// left.
pub open spec fn mirrored(eighth: Seq<(usize, usize)>, center: (usize, usize)) -> Seq<
    (usize, usize),
> {
    let quarter = eighth + eighth.map_values(|p: (usize, usize)| swapped(center, p));
    let half = quarter + quarter.map_values(|p: (usize, usize)| flipped_up(center, p));
    half + half.map_values(|p: (usize, usize)| flipped_left(center, p))
}

/// One step of the walk from a cell on or above the diagonal that misses the
/// circle by no more than its height, and by less where it lies outside: the
/// next cell is no further right than the radius and misses the circle by no
/// more than `r + 1`; inside the circle it misses by no more than its height,
/// and if it is still on or above the diagonal it does so outside as well.
pub proof fn lemma_octant_step(r: int, a: int, b: int)
    requires
        1 <= b,
        0 <= a <= b <= r,
        r * r - b <= a * a + b * b <= r * r + b - 1,
    ensures
        a + 1 <= r,
        (a + 1) * (a + 1) + b * b <= 2 * r * r,
        ({
            let next = octant_next(r, (a, b));
            &&& next.0 == a + 1
            &&& b - 1 <= next.1 <= b
            &&& r * r - next.1 <= next.0 * next.0 + next.1 * next.1 <= r * r + r + 1
            &&& miss(r, next.0, next.1) <= r + 1
            &&& next.1 >= next.0 ==> next.0 * next.0 + next.1 * next.1 <= r * r + next.1 - 1
        }),
{
    assert(a + 1 <= r) by (nonlinear_arith)
        requires
            0 <= a <= b <= r,
            a * a + b * b <= r * r + b - 1,
    ;
    assert((a + 1) * (a + 1) + b * b <= 2 * r * r) by (nonlinear_arith)
        requires
            0 <= a,
            a + 1 <= r,
            0 <= b <= r,
    ;
    let stay = (a + 1) * (a + 1) + b * b;
    let rise = (a + 1) * (a + 1) + (b - 1) * (b - 1);
    assert(stay == a * a + b * b + 2 * a + 1 && rise == stay - 2 * b + 1) by (nonlinear_arith)
        requires
            stay == (a + 1) * (a + 1) + b * b,
            rise == (a + 1) * (a + 1) + (b - 1) * (b - 1),
    ;
    let next = octant_next(r, (a, b));
    if next.1 == b {
        // staying on the row was no worse than rising: the miss is below b
        assert(gap(stay, r * r) <= gap(rise, r * r));
        assert(next.0 * next.0 + next.1 * next.1 == stay);
    } else {
        // rising was better than staying: the cell is not far inside
        assert(gap(stay, r * r) > gap(rise, r * r));
        assert(next.0 * next.0 + next.1 * next.1 == rise);
    }
}

/// One eighth of the outline of the circle around `center`: from the cell
/// straight below the centre to the right, until the walk has crossed the
/// diagonal.
pub fn draw_circle_eighth(center: (usize, usize), radius: usize) -> (coords: Vec<(usize, usize)>)
    requires
        radius >= 1,
        center.0 + radius <= usize::MAX,
        center.1 + radius <= usize::MAX,
        2 * radius * radius <= usize::MAX,
    ensures
        is_octant(coords@, center, radius),
{
    assert(radius * radius <= 2 * radius * radius) by (nonlinear_arith);
    let rsq = radius * radius;
    let mut coords: Vec<(usize, usize)> = Vec::new();
    let mut x = center.0;
    let mut y = center.1 + radius;
    let mut from_c_x: usize = 0;
    let mut from_c_y: usize = radius;
    coords.push((x, y));
    while from_c_y >= from_c_x
        invariant
            radius >= 1,
            center.0 + radius <= usize::MAX,
            center.1 + radius <= usize::MAX,
            2 * radius * radius <= usize::MAX,
            rsq == radius * radius,
            coords@.len() >= 1,
            (from_c_x as int, from_c_y as int) == octant_at(
                radius as int,
                (coords@.len() - 1) as nat,
            ),
            x == center.0 + from_c_x,
            y == center.1 + from_c_y,
            from_c_x <= radius,
            from_c_y <= radius,
            from_c_x == coords@.len() - 1,
            from_c_x == 0 ==> from_c_y == radius,
            from_c_x * from_c_x + from_c_y * from_c_y >= radius * radius - from_c_y,
            from_c_y >= from_c_x ==> from_c_x * from_c_x + from_c_y * from_c_y <= radius * radius
                + from_c_y - 1,
            forall|k: int|
                0 <= k < coords@.len() ==> {
                    let at = octant_at(radius as int, k as nat);
                    &&& #[trigger] coords@[k] == (
                        (center.0 + at.0) as usize,
                        (center.1 + at.1) as usize,
                    )
                    &&& 0 <= at.0 <= radius
                    &&& 0 <= at.1 <= radius
                    &&& miss(radius as int, at.0, at.1) <= radius + 1
                    &&& k < coords@.len() - 1 ==> at.1 >= at.0
                },
        decreases radius + 1 - from_c_x,
    {
        proof {
            lemma_octant_step(radius as int, from_c_x as int, from_c_y as int);
            assert((from_c_y - 1) * (from_c_y - 1) <= from_c_y * from_c_y) by (nonlinear_arith)
                requires
                    from_c_y >= 1,
            ;
        }
        let dx1 = (x + 1) - center.0;
        let dy1 = y - center.1;
        let d1 = dx1 * dx1 + dy1 * dy1;
        let discrepancy1 = if d1 < rsq {
            rsq - d1
        } else {
            d1 - rsq
        };
        let dx2 = (x + 1) - center.0;
        let dy2 = (y - 1) - center.1;
        let d2 = dx2 * dx2 + dy2 * dy2;
        let discrepancy2 = if d2 < rsq {
            rsq - d2
        } else {
            d2 - rsq
        };
        assert(discrepancy1 == miss(radius as int, from_c_x + 1, from_c_y as int));
        assert(discrepancy2 == miss(radius as int, from_c_x + 1, from_c_y - 1));
        if discrepancy1 <= discrepancy2 {
            x += 1;
            from_c_x += 1;
        } else {
            x += 1;
            from_c_x += 1;
            y -= 1;
            from_c_y -= 1;
        }
        let ghost walked = coords@;
        coords.push((x, y));
        proof {
            let n = walked.len() as int;
            assert(octant_at(radius as int, n as nat) == octant_next(
                radius as int,
                octant_at(radius as int, (n - 1) as nat),
            ));
            assert forall|k: int| 0 <= k < coords@.len() implies {
                let at = octant_at(radius as int, k as nat);
                &&& #[trigger] coords@[k] == (
                    (center.0 + at.0) as usize,
                    (center.1 + at.1) as usize,
                )
                &&& 0 <= at.0 <= radius
                &&& 0 <= at.1 <= radius
                &&& miss(radius as int, at.0, at.1) <= radius + 1
                &&& k < coords@.len() - 1 ==> at.1 >= at.0
            } by {
                if k < n {
                    assert(coords@[k] == walked[k]);
                }
            }
        }
    }
    coords
}

/// The outline of the circle around `center`, which must lie on the canvas:
/// one eighth, mirrored into all eight.
pub fn draw_circle(center: (usize, usize), radius: usize) -> (coords: Vec<(usize, usize)>)
    requires
        radius >= 1,
        radius <= center.0,
        radius <= center.1,
        center.0 + radius <= usize::MAX,
        center.1 + radius <= usize::MAX,
        2 * radius * radius <= usize::MAX,
    ensures
        exists|eighth: Seq<(usize, usize)>| #[trigger]
            is_octant(eighth, center, radius) && coords@ == mirrored(eighth, center),
{
    let mut coords = draw_circle_eighth(center, radius);
    let ghost eighth = coords@;
    let mut coords2 = reflect(&coords, center, 0);
    coords.append(&mut coords2);
    let ghost quarter = coords@;
    assert forall|k: int| 0 <= k < quarter.len() implies center.0 <= (#[trigger] quarter[k]).0
        <= center.0 + radius && center.1 <= quarter[k].1 <= center.1 + radius by {
        if k < eighth.len() {
            assert(quarter[k] == eighth[k]);
        } else {
            assert(quarter[k] == swapped(center, eighth[k - eighth.len()]));
        }
    }
    let mut coords2 = reflect(&coords, center, 1);
    coords.append(&mut coords2);
    let ghost half = coords@;
    assert forall|k: int| 0 <= k < half.len() implies center.0 <= (#[trigger] half[k]).0 <= center.0
        + radius && half[k].1 <= center.1 + radius by {
        if k < quarter.len() {
            assert(half[k] == quarter[k]);
        } else {
            assert(half[k] == flipped_up(center, quarter[k - quarter.len()]));
        }
    }
    let mut coords2 = reflect(&coords, center, 2);
    coords.append(&mut coords2);
    assert(coords@ =~= mirrored(eighth, center));
    coords
}

/// `p` mirrored at the diagonal (`axis` 0), upward (1) or to the left (2).
pub open spec fn reflected(center: (usize, usize), p: (usize, usize), axis: u8) -> (usize, usize) {
    if axis == 0 {
        swapped(center, p)
    } else if axis == 1 {
        flipped_up(center, p)
    } else {
        flipped_left(center, p)
    }
}

/// Mirrors every cell.
fn reflect(cells: &Vec<(usize, usize)>, center: (usize, usize), axis: u8) -> (image: Vec<
    (usize, usize),
>)
    requires
        axis <= 2,
        forall|k: int|
            0 <= k < cells@.len() ==> {
                let p = #[trigger] cells@[k];
                &&& axis == 0 ==> center.0 <= p.0 && center.1 <= p.1 && center.0 + p.1 - center.1
                    <= usize::MAX && center.1 + p.0 - center.0 <= usize::MAX
                &&& axis == 1 ==> center.1 <= p.1 <= 2 * center.1
                &&& axis == 2 ==> center.0 <= p.0 <= 2 * center.0
            },
    ensures
        image@.len() == cells@.len(),
        forall|k: int|
            0 <= k < cells@.len() ==> #[trigger] image@[k] == reflected(center, cells@[k], axis),
{
    let mut image: Vec<(usize, usize)> = Vec::new();
    let mut i: usize = 0;
    while i < cells.len()
        invariant
            axis <= 2,
            i <= cells@.len(),
            image@.len() == i,
            forall|k: int| 0 <= k < i ==> #[trigger] image@[k] == reflected(center, cells@[k], axis),
            forall|k: int|
                0 <= k < cells@.len() ==> {
                    let p = #[trigger] cells@[k];
                    &&& axis == 0 ==> center.0 <= p.0 && center.1 <= p.1 && center.0 + p.1
                        - center.1 <= usize::MAX && center.1 + p.0 - center.0 <= usize::MAX
                    &&& axis == 1 ==> center.1 <= p.1 <= 2 * center.1
                    &&& axis == 2 ==> center.0 <= p.0 <= 2 * center.0
                },
        decreases cells@.len() - i,
    {
        let (x, y) = cells[i];
        let p = if axis == 0 {
            (center.0 + (y - center.1), center.1 + (x - center.0))
        } else if axis == 1 {
            (x, center.1 - (y - center.1))
        } else {
            (center.0 - (x - center.0), y)
        };
        image.push(p);
        i = i + 1;
    }
    image
}

} // verus!
