//! A motion that lives on the grid itself: it stands on cells, heads along one
//! of the eight directions of the compass and moves whole cells. With it a
//! worm tree is drawn in whole numbers from end to end.

use crate::dice::{random_u8, random_usize, Chance};
use crate::laws::{lemma_symmetric_tree_lives_its_span, symmetric_elder, symmetric_span};
use crate::primitive::Pixel;
use crate::stock::{seed_spot, SymmetricTreeDraw, SEED_SPEED};
use crate::tree::{is_growth, Fate, Motion, Spot, TreeDraw, Turn, Worm};
use vstd::prelude::*;

verus! {

/// No coordinate is kept further from zero than this.
pub const LIMIT: i128 = 0x10_0000_0000_0000_0000_0000_0000;

/// So many thousandths of a radian make an eighth of a turn, nearly.
pub const EIGHTH: i64 = 785;

/// A multiple of eight eighths that lifts every turn above zero.
pub const ROUNDS: i64 = 2_512_000_000;

/// A motion on the grid.
#[derive(Debug, Copy, Clone)]
pub struct Stride {
    /// The cell it stands on, column and row.
    pub at: (i128, i128),
    /// The cell it stood on before it last advanced.
    pub was: (i128, i128),
    /// Its heading in eighths of a turn, counter-clockwise from east; only
    /// the remainder by eight counts.
    pub heading: u8,
    /// The cells it covers per tick along either axis.
    pub speed: usize,
}

/// A coordinate held within [`LIMIT`] of zero.
pub open spec fn kept(value: int) -> i128 {
    if value < -LIMIT {
        (-LIMIT) as i128
    } else if value > LIMIT {
        LIMIT
    } else {
        value as i128
    }
}

/// One step along a heading: east is to the right, north is up, and rows grow
/// downward.
pub open spec fn toward(heading: u8) -> (int, int) {
    let h = heading % 8;
    if h == 0 {
        (1, 0)
    } else if h == 1 {
        (1, -1)
    } else if h == 2 {
        (0, -1)
    } else if h == 3 {
        (-1, -1)
    } else if h == 4 {
        (-1, 0)
    } else if h == 5 {
        (-1, 1)
    } else if h == 6 {
        (0, 1)
    } else {
        (1, 1)
    }
}

/// The heading after a turn by so many thousandths of a radian: the turn is
/// rounded to the nearest eighth and counted round the compass.
pub open spec fn veered(heading: u8, thousandths: int) -> u8 {
    ((heading % 8 + (thousandths + 392 + ROUNDS) / (EIGHTH as int)) % 8) as u8
}

/// A coordinate after `cells` steps of one cell in direction `d`.
pub open spec fn carried(at: i128, d: int, cells: usize) -> i128 {
    kept(kept(at as int) + d * cells)
}

fn keep(value: i128) -> (held: i128)
    ensures
        held == kept(value as int),
{
    if value < -LIMIT {
        -LIMIT
    } else if value > LIMIT {
        LIMIT
    } else {
        value
    }
}

fn carry(at: i128, d: i8, cells: usize) -> (moved: i128)
    requires
        -1 <= d <= 1,
    ensures
        moved == carried(at, d as int, cells),
{
    let from = keep(at);
    assert(d * cells == if d == 1 {
        cells as int
    } else if d == -1 {
        -cells
    } else {
        0
    }) by (nonlinear_arith)
        requires
            -1 <= d <= 1,
    ;
    let to = if d == 1 {
        from + cells as i128
    } else if d == -1 {
        from - cells as i128
    } else {
        from
    };
    keep(to)
}

fn step_of(heading: u8) -> (step: (i8, i8))
    ensures
        (step.0 as int, step.1 as int) == toward(heading),
{
    let h = heading % 8;
    if h == 0 {
        (1, 0)
    } else if h == 1 {
        (1, -1)
    } else if h == 2 {
        (0, -1)
    } else if h == 3 {
        (-1, -1)
    } else if h == 4 {
        (-1, 0)
    } else if h == 5 {
        (-1, 1)
    } else if h == 6 {
        (0, 1)
    } else {
        (1, 1)
    }
}

fn veer(heading: u8, thousandths: i64) -> (turned: u8)
    requires
        -0x8000_0000 <= thousandths <= 0x1_0000_0000,
    ensures
        turned == veered(heading, thousandths as int),
{
    (((heading % 8) as i64 + (thousandths + 392 + ROUNDS) / EIGHTH) % 8) as u8
}

/// A turn as a number of thousandths: what it says, or for a random turn a
/// draw from the interval around zero.
fn thousandths_of(by: Turn) -> (thousandths: i64)
    ensures
        -0x8000_0000 <= thousandths <= 0x1_0000_0000,
        by matches Turn::By(t) ==> thousandths == t,
{
    match by {
        Turn::By(t) => t as i64,
        Turn::Jitter(width) => {
            let drawn = random_usize(0, width as usize);
            drawn as i64 - (width / 2) as i64
        },
    }
}

impl Chance for Stride {
    /// Yes where a draw from 0 to 99 falls below `percent`.
    fn chance(&self, percent: u8) -> bool {
        random_u8(0, 99) < percent
    }
}

impl Motion for Stride {
    open spec fn risen(col: usize, row: usize, speed: usize) -> Stride {
        Stride { at: (col as i128, row as i128), was: (col as i128, row as i128), heading: 2, speed }
    }

    open spec fn place(&self) -> Spot {
        Spot { low: self.at, high: self.at }
    }

    open spec fn origin(&self) -> Spot {
        Spot { low: self.was, high: self.was }
    }

    open spec fn advanced(&self) -> Stride {
        Stride {
            at: (
                carried(self.at.0, toward(self.heading).0, self.speed),
                carried(self.at.1, toward(self.heading).1, self.speed),
            ),
            was: self.at,
            heading: self.heading,
            speed: self.speed,
        }
    }

    open spec fn turned(&self, thousandths: i32) -> Stride {
        Stride {
            at: self.at,
            was: self.was,
            heading: veered(self.heading, thousandths as int),
            speed: self.speed,
        }
    }

    open spec fn branched(&self, thousandths: i32) -> Stride {
        Stride {
            at: self.was,
            was: self.was,
            heading: veered(self.heading, thousandths as int),
            speed: self.speed,
        }
    }

    fn upward(col: usize, row: usize, speed: usize) -> (motion: Stride) {
        Stride { at: (col as i128, row as i128), was: (col as i128, row as i128), heading: 2, speed }
    }

    fn advance(&mut self) {
        let step = step_of(self.heading);
        let at = (carry(self.at.0, step.0, self.speed), carry(self.at.1, step.1, self.speed));
        self.was = self.at;
        self.at = at;
    }

    fn turn(&mut self, by: Turn) {
        self.heading = veer(self.heading, thousandths_of(by));
    }

    fn spot(&self) -> (spot: Spot) {
        Spot { low: self.at, high: self.at }
    }

    fn previous_spot(&self) -> (spot: Spot) {
        Spot { low: self.was, high: self.was }
    }

    fn branch(&self, by: Turn) -> (motion: Stride) {
        Stride {
            at: self.was,
            was: self.was,
            heading: veer(self.heading, thousandths_of(by)),
            speed: self.speed,
        }
    }

    /// A draw from the square of cells no further than `reach` on either
    /// axis.
    fn scatter(&self, reach: usize) -> (offset: (isize, isize)) {
        let r = if reach > 0x3fff_ffff {
            0x3fff_ffff
        } else {
            reach
        };
        let dx = random_usize(0, 2 * r) as isize - r as isize;
        let dy = random_usize(0, 2 * r) as isize - r as isize;
        (dx, dy)
    }
}

/// The seed of a symmetric tree of strides climbs straight up: after `k` steps
/// on the canvas it stands [`SEED_SPEED`] rows higher for each.
pub proof fn lemma_stride_climbs(col: usize, row: usize, seed: Worm<Stride>, k: nat)
    requires
        seed.motion == Stride::risen(col, row, SEED_SPEED),
        SEED_SPEED * k <= LIMIT,
    ensures
        symmetric_elder(seed, k).motion.at.0 == col,
        symmetric_elder(seed, k).motion.at.1 == row - SEED_SPEED * k,
        symmetric_elder(seed, k).motion.heading == 2,
        symmetric_elder(seed, k).motion.speed == SEED_SPEED,
    decreases k,
{
    if k > 0 {
        lemma_stride_climbs(col, row, seed, (k - 1) as nat);
        let before = symmetric_elder(seed, (k - 1) as nat).motion;
        assert(toward(2) == (0int, -1int));
        assert(veered(2, 0) == 2);
        assert(before.advanced().at.1 == before.at.1 - 3);
        assert(before.advanced().at.0 == before.at.0);
    }
}

/// On a canvas at least 508 rows high the symmetric tree of strides that
/// grows from the stock seed lives for exactly 170 ticks: the seed climbs the
/// 507 rows of its span without leaving the canvas.
pub proof fn lemma_stride_tree_lives_170_ticks(
    width: usize,
    height: usize,
    seed: Worm<Stride>,
    ticks: Seq<Seq<Fate<Stride>>>,
    batches: Seq<Vec<Pixel>>,
)
    requires
        is_growth(&SymmetricTreeDraw, width, height, seed, ticks, batches),
        SymmetricTreeDraw.may_start(width, height, &seed),
        height >= 508,
    ensures
        batches.len() == 170,
{
    let col = seed_spot(width, height).0;
    let row = seed_spot(width, height).1;
    assert forall|j: nat| 1 <= j < symmetric_span(seed.size, seed.steps) implies (
    #[trigger] symmetric_elder(seed, j)).motion.place().on_canvas(width, height) by {
        lemma_stride_climbs(col, row, seed, j);
    }
    lemma_symmetric_tree_lives_its_span(width, height, seed, ticks, batches);
}

} // verus!
