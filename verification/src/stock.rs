//! The two stock policies for worm trees, and what they share: the seed and
//! the leaves.

use crate::dice::{random_bool, random_u8, random_usize};
use crate::disc::{dc_pixels, disc, paint};
use crate::primitive::Pixel;
use crate::tree::{Motion, Spot, TreeDraw, Turn, Worm, EXACT, MIN_SIZE};
use vstd::prelude::*;

verus! {

/// The size of the seed.
pub const SEED_SIZE: usize = 20;

/// How many cells the seed and all its offspring cover in a tick.
pub const SEED_SPEED: usize = 3;

/// Below this size a worm bears leaves.
pub const BLOOM_SIZE: usize = 6;

/// How many leaves a blooming worm bears in a step.
pub const LEAVES: usize = 8;

/// How far from the worm a leaf may grow, in cells.
pub const LEAF_REACH: usize = 40;

/// How wide the interval is from which an organic worm draws its turn, in
/// thousandths of a radian: a quarter radian to either side.
pub const WOBBLE: u32 = 500;

/// In how many of a hundred steps an organic worm thins.
pub const THINNING: u8 = 18;

/// In how many of a hundred steps an organic worm branches.
pub const BRANCHING: u8 = 3;

/// In how many of a hundred steps an organic worm branches once it blooms.
pub const BRANCHING_IN_BLOOM: u8 = 13;

/// How far an organic offshoot heads off its parent, in thousandths of a
/// radian.
pub const SIDE_SHOOT: i32 = 300;

/// Every how many steps a symmetric worm thins.
pub const THINNING_PERIOD: usize = 10;

/// Every how many steps a symmetric worm forks.
pub const FORK_PERIOD: usize = 30;

/// How far each arm of a fork heads off the parent, in thousandths of a
/// radian.
pub const FORK: i32 = 400;

/// A cluster of leaf pixels: a small disc of one colour.
pub struct Leaf {
    pub at: (usize, usize),
    pub radius: usize,
    pub color: (u8, u8, u8),
}

/// The pixels of some leaves, leaf after leaf.
pub open spec fn foliage(leaves: Seq<Leaf>) -> Seq<Pixel>
    decreases leaves.len(),
{
    if leaves.len() == 0 {
        Seq::empty()
    } else {
        foliage(leaves.drop_last()) + paint(
            disc(leaves.last().at, leaves.last().radius),
            leaves.last().color,
        )
    }
}

/// A leaf as the stock policies make them: radius 1 to 4, first channel 50 and
/// up, second 10 to 19, third below 10.
pub open spec fn is_stock_leaf(leaf: Leaf) -> bool {
    &&& 1 <= leaf.radius <= 4
    &&& 50 <= leaf.color.0
    &&& 10 <= leaf.color.1 <= 19
    &&& leaf.color.2 <= 9
}

/// The leaf lies near the worm: no further than [`LEAF_REACH`] cells from the
/// worm's cell on either axis, and on the grid's edge where that would take
/// it off the grid.
pub open spec fn is_near<M: Motion>(worm: &Worm<M>, leaf: Leaf) -> bool {
    exists|offset: (isize, isize)|
        -LEAF_REACH <= offset.0 <= LEAF_REACH && -LEAF_REACH <= offset.1 <= LEAF_REACH && leaf.at
            == #[trigger] worm.motion.place().cell_at(offset)
}

/// `leaves` are eight stock leaves near the worm.
pub open spec fn are_stock_leaves<M: Motion>(worm: &Worm<M>, leaves: Seq<Leaf>) -> bool {
    &&& leaves.len() == LEAVES
    &&& forall|i: int|
        0 <= i < leaves.len() ==> is_stock_leaf(#[trigger] leaves[i]) && is_near(worm, leaves[i])
}

/// The leaves of a worm under the stock policies: none from [`BLOOM_SIZE`]
/// up, eight stock leaves near the worm below.
pub open spec fn is_stock_foliage<M: Motion>(worm: &Worm<M>, pixels: Seq<Pixel>) -> bool {
    if worm.size >= BLOOM_SIZE {
        pixels.len() == 0
    } else {
        exists|leaves: Seq<Leaf>| #[trigger]
            are_stock_leaves(worm, leaves) && pixels == foliage(leaves)
    }
}

/// The seed of the stock policies on a canvas of the given size: in the
/// middle of the bottom row, heading up at [`SEED_SPEED`], of size 20, light
/// grey, not stepped yet.
pub open spec fn is_stock_seed<M: Motion>(
    worm: &Worm<M>,
    screen_width: usize,
    screen_height: usize,
) -> bool {
    &&& worm.motion == M::risen(
        seed_spot(screen_width, screen_height).0,
        seed_spot(screen_width, screen_height).1,
        SEED_SPEED,
    )
    &&& screen_width / 2 <= EXACT && screen_height <= EXACT ==> worm.motion.place() == Spot::on(
        seed_spot(screen_width, screen_height).0,
        seed_spot(screen_width, screen_height).1,
    )
    &&& worm.size == SEED_SIZE
    &&& worm.color == (200u8, 200u8, 200u8)
    &&& worm.steps == 0
}

/// The cell the seed stands on: the middle of the bottom row.
pub open spec fn seed_spot(screen_width: usize, screen_height: usize) -> (usize, usize) {
    (
        screen_width / 2,
        if screen_height >= 1 {
            (screen_height - 1) as usize
        } else {
            0
        },
    )
}

/// The cell the seed stands on.
pub fn seed_cell(screen_width: usize, screen_height: usize) -> (cell: (usize, usize))
    ensures
        cell == seed_spot(screen_width, screen_height),
{
    let bottom = if screen_height >= 1 {
        screen_height - 1
    } else {
        0
    };
    (screen_width / 2, bottom)
}

/// `child` has just branched off `parent`: same size and colour, not stepped
/// yet.
pub open spec fn is_offshoot<M>(parent: &Worm<M>, child: Worm<M>) -> bool {
    &&& child.size == parent.size
    &&& child.color == parent.color
    &&& child.steps == 0
}

/// Every worm of the brood starts where `parent` came from.
pub open spec fn start_at_origin<M: Motion>(parent: &Worm<M>, brood: Seq<Worm<M>>) -> bool {
    forall|i: int|
        0 <= i < brood.len() ==> (#[trigger] brood[i]).motion.place() == parent.motion.origin()
}

/// The offshoot of `parent` that heads so many thousandths of a radian off
/// it: it starts where the parent came from, with the parent's speed, size
/// and colour, and has not been stepped yet.
pub open spec fn sprout<M: Motion>(parent: &Worm<M>, thousandths: i32) -> Worm<M> {
    Worm {
        motion: parent.motion.branched(thousandths),
        size: parent.size,
        color: parent.color,
        steps: 0,
    }
}

/// The seed of the stock policies, in the middle of the bottom row and
/// heading up at three cells per tick.
pub fn stock_seed<M: Motion>(screen_width: usize, screen_height: usize) -> (worm: Worm<M>)
    ensures
        is_stock_seed(&worm, screen_width, screen_height),
{
    let cell = seed_cell(screen_width, screen_height);
    Worm::from(M::upward(cell.0, cell.1, SEED_SPEED), SEED_SIZE, (200, 200, 200))
}

/// The leaves of the stock policies: below [`BLOOM_SIZE`], eight clusters
/// scattered up to 40 cells around the worm, pushed back onto the canvas where
/// they would fall off its top or left edge.
pub fn stock_leaves<M: Motion>(worm: &Worm<M>) -> (pixels: Vec<Pixel>)
    ensures
        is_stock_foliage(worm, pixels@),
{
    let mut pixels: Vec<Pixel> = Vec::new();
    if worm.size < BLOOM_SIZE {
        let ghost mut leaves: Seq<Leaf> = Seq::empty();
        let mut n: usize = 0;
        while n < LEAVES
            invariant
                n <= LEAVES,
                leaves.len() == n,
                forall|i: int|
                    0 <= i < leaves.len() ==> is_stock_leaf(#[trigger] leaves[i]) && is_near(
                        worm,
                        leaves[i],
                    ),
                pixels@ == foliage(leaves),
            decreases LEAVES - n,
        {
            let offset = worm.motion.scatter(LEAF_REACH);
            let at = worm.motion.spot().to_cell_at(offset);
            let red = random_u8(10, 19);
            let green = random_u8(50, 255);
            let blue = random_u8(0, 9);
            let color = (green, red, blue);
            let radius = random_usize(1, 4);
            let mut cluster = dc_pixels(at, radius, color);
            let ghost earlier = leaves;
            proof {
                let leaf = Leaf { at, radius, color };
                assert(leaf.at == worm.motion.place().cell_at(offset));
                assert(is_near(worm, leaf));
                leaves = earlier.push(leaf);
                assert(leaves.drop_last() =~= earlier);
            }
            pixels.append(&mut cluster);
            n = n + 1;
        }
        assert(are_stock_leaves(worm, leaves));
    }
    pixels
}

/// The organic policy: worms wander, thin out at random and branch now and
/// then, more often once they bloom.
pub struct DefaultTreeDraw;

impl<M: Motion> TreeDraw<M> for DefaultTreeDraw {
    open spec fn may_start(&self, screen_width: usize, screen_height: usize, worm: &Worm<M>) -> bool {
        is_stock_seed(worm, screen_width, screen_height)
    }

    /// A random turn of at most a quarter radian to either side.
    open spec fn may_turn(&self, worm: &Worm<M>, turn: Turn) -> bool {
        turn == Turn::Jitter(WOBBLE)
    }

    /// Thinner by one, or as it was.
    open spec fn may_resize(&self, worm: &Worm<M>, delta: isize) -> bool {
        delta == -1 || delta == 0
    }

    open spec fn may_leaf(&self, worm: &Worm<M>, leaves: Seq<Pixel>) -> bool {
        is_stock_foliage(worm, leaves)
    }

    /// No offshoot, or one that heads [`SIDE_SHOOT`] off to one side or the
    /// other; none of a worm below [`MIN_SIZE`].
    open spec fn may_spawn(&self, worm: &Worm<M>, brood: Seq<Worm<M>>) -> bool {
        &&& brood == side_shoots(worm, None) || brood == side_shoots(worm, Some(true)) || brood
            == side_shoots(worm, Some(false))
        &&& worm.size < MIN_SIZE ==> brood.len() == 0
        &&& start_at_origin(worm, brood)
    }

    fn starting_worm(&self, screen_width: usize, screen_height: usize) -> (worm: Worm<M>) {
        let worm = stock_seed(screen_width, screen_height);
        assert(self.may_start(screen_width, screen_height, &worm));
        worm
    }

    fn delta_angle(&self, worm: &Worm<M>) -> (turn: Turn) {
        let turn = Turn::Jitter(WOBBLE);
        assert(self.may_turn(worm, turn));
        turn
    }

    /// Thinner by one with a chance of [`THINNING`] in a hundred.
    fn delta_size(&self, worm: &Worm<M>) -> (delta: isize) {
        let hit = worm.motion.chance(THINNING);
        let delta = thinned_by(hit);
        assert(self.may_resize(worm, delta));
        delta
    }

    /// The stock leaves.
    fn leaves(&self, worm: &Worm<M>) -> (leaves: Vec<Pixel>) {
        let leaves = stock_leaves(worm);
        assert(self.may_leaf(worm, leaves@));
        leaves
    }

    /// One offshoot with a chance of [`BRANCHING`] in a hundred, of
    /// [`BRANCHING_IN_BLOOM`] once the worm blooms; it heads [`SIDE_SHOOT`]
    /// off to the left or to the right. Which chance is asked for is
    /// [`branching_chance`], which side a coin picks is [`side_of`]; a worm
    /// too small to branch asks for neither.
    fn children(&self, worm: &Worm<M>) -> (brood: Vec<Worm<M>>) {
        let side = match branching_chance(worm.size) {
            Some(percent) => {
                if worm.motion.chance(percent) {
                    Some(random_bool())
                } else {
                    None
                }
            },
            None => None,
        };
        let brood = offshoots(worm, side);
        assert(self.may_spawn(worm, brood@));
        brood
    }
}

/// The symmetric policy: worms run straight, thin out every tenth step and
/// fork in two every thirtieth.
pub struct SymmetricTreeDraw;

impl<M: Motion> TreeDraw<M> for SymmetricTreeDraw {
    /// The stock seed.
    open spec fn may_start(&self, screen_width: usize, screen_height: usize, worm: &Worm<M>) -> bool {
        is_stock_seed(worm, screen_width, screen_height)
    }

    /// No turn at all.
    open spec fn may_turn(&self, worm: &Worm<M>, turn: Turn) -> bool {
        turn == Turn::By(0)
    }

    /// Thinner by one on every tenth step.
    open spec fn may_resize(&self, worm: &Worm<M>, delta: isize) -> bool {
        delta == if worm.steps % THINNING_PERIOD == 0 {
            -1isize
        } else {
            0isize
        }
    }

    /// The stock leaves.
    open spec fn may_leaf(&self, worm: &Worm<M>, leaves: Seq<Pixel>) -> bool {
        is_stock_foliage(worm, leaves)
    }

    /// Two offshoots on every thirtieth step of a worm of at least
    /// [`MIN_SIZE`], the first heading [`FORK`] off to the left, the second as
    /// far to the right; none otherwise.
    open spec fn may_spawn(&self, worm: &Worm<M>, brood: Seq<Worm<M>>) -> bool {
        &&& brood == if worm.size >= MIN_SIZE && worm.steps % FORK_PERIOD == 0 {
            seq![sprout(worm, FORK), sprout(worm, (-FORK) as i32)]
        } else {
            Seq::empty()
        }
        &&& start_at_origin(worm, brood)
    }

    /// The stock seed.
    fn starting_worm(&self, screen_width: usize, screen_height: usize) -> (worm: Worm<M>) {
        let worm = stock_seed(screen_width, screen_height);
        assert(self.may_start(screen_width, screen_height, &worm));
        worm
    }

    /// Straight on, whatever the worm and whatever its luck: a turn by
    /// nothing.
    fn delta_angle(&self, worm: &Worm<M>) -> (turn: Turn) {
        let turn = Turn::By(0);
        assert(self.may_turn(worm, turn));
        turn
    }

    fn delta_size(&self, worm: &Worm<M>) -> (delta: isize) {
        let delta: isize = if worm.steps % THINNING_PERIOD == 0 {
            -1
        } else {
            0
        };
        assert(self.may_resize(worm, delta));
        delta
    }

    fn leaves(&self, worm: &Worm<M>) -> (leaves: Vec<Pixel>) {
        let leaves = stock_leaves(worm);
        assert(self.may_leaf(worm, leaves@));
        leaves
    }

    /// The offshoots head [`FORK`] off, one to the left, one to the right.
    fn children(&self, worm: &Worm<M>) -> (brood: Vec<Worm<M>>) {
        let mut brood: Vec<Worm<M>> = Vec::new();
        if worm.size >= MIN_SIZE {
            if worm.steps % FORK_PERIOD == 0 {
                brood.push(Worm::from(worm.motion.branch(Turn::By(FORK)), worm.size, worm.color));
                brood.push(Worm::from(worm.motion.branch(Turn::By(-FORK)), worm.size, worm.color));
                assert(brood@ =~= seq![sprout(worm, FORK), sprout(worm, (-FORK) as i32)]);
            }
        }
        assert(self.may_spawn(worm, brood@));
        brood
    }
}

/// The change of size of an organic worm by what its luck said: thinner by
/// one on a yes, as it was on a no.
pub open spec fn thinning(hit: bool) -> isize {
    if hit {
        -1isize
    } else {
        0isize
    }
}

/// The change of size of an organic worm, once its luck has answered.
pub fn thinned_by(hit: bool) -> (delta: isize)
    ensures
        delta == thinning(hit),
{
    if hit {
        -1
    } else {
        0
    }
}

/// The chance, in a hundred, with which an organic worm of `size` branches in
/// a step: none at all below [`MIN_SIZE`], [`BRANCHING_IN_BLOOM`] while it
/// blooms, [`BRANCHING`] from [`BLOOM_SIZE`] up.
pub open spec fn branching(size: usize) -> Option<u8> {
    if size < MIN_SIZE {
        None
    } else if size < BLOOM_SIZE {
        Some(BRANCHING_IN_BLOOM)
    } else {
        Some(BRANCHING)
    }
}

/// The chance with which an organic worm of `size` branches, `None` for a
/// worm that does not branch whatever its luck.
pub fn branching_chance(size: usize) -> (percent: Option<u8>)
    ensures
        percent == branching(size),
{
    if size < MIN_SIZE {
        None
    } else if size < BLOOM_SIZE {
        Some(BRANCHING_IN_BLOOM)
    } else {
        Some(BRANCHING)
    }
}

/// The turn of an organic offshoot by the side the coin picked: `left` heads
/// it [`SIDE_SHOOT`] off counter-clockwise, the other side as far clockwise.
pub open spec fn side_shoot(left: bool) -> Turn {
    if left {
        Turn::By(SIDE_SHOOT)
    } else {
        Turn::By((-SIDE_SHOOT) as i32)
    }
}

/// The turn of an organic offshoot, once the coin has fallen.
pub fn side_of(left: bool) -> (by: Turn)
    ensures
        by == side_shoot(left),
{
    if left {
        Turn::By(SIDE_SHOOT)
    } else {
        Turn::By(-SIDE_SHOOT)
    }
}

/// So many thousandths of a radian an organic offshoot heads off its parent:
/// [`SIDE_SHOOT`] counter-clockwise to the left, as far clockwise to the
/// right.
pub open spec fn side_turn(left: bool) -> i32 {
    if left {
        SIDE_SHOOT
    } else {
        (-SIDE_SHOOT) as i32
    }
}

/// The brood of an organic worm by the side its coin picked: one offshoot to
/// that side, or none where its luck said no and no coin was thrown.
pub open spec fn side_shoots<M: Motion>(worm: &Worm<M>, side: Option<bool>) -> Seq<Worm<M>> {
    match side {
        Some(left) => seq![sprout(worm, side_turn(left))],
        None => Seq::empty(),
    }
}

/// The brood of an organic worm, once its luck has answered and, on a yes,
/// the coin has fallen.
pub fn offshoots<M: Motion>(worm: &Worm<M>, side: Option<bool>) -> (brood: Vec<Worm<M>>)
    ensures
        brood@ == side_shoots(worm, side),
        start_at_origin(worm, brood@),
{
    let mut brood: Vec<Worm<M>> = Vec::new();
    if let Some(left) = side {
        let motion = worm.motion.branch(side_of(left));
        brood.push(Worm::from(motion, worm.size, worm.color));
        assert(brood@ =~= seq![sprout(worm, side_turn(left))]);
    }
    brood
}

} // verus!
