//! Worm trees: a population of worms that creep over the canvas, thin out,
//! branch and die, one synchronized tick at a time.
//!
//! Everything a worm does on the pixel grid is decided here. Where a worm is in
//! the plane, where it heads and how fast lies behind [`Motion`], which an
//! embedding program may implement over the real numbers of its choice; the
//! grid sees of it only positions rounded to whole cells, and yes or no.

use crate::dice::Chance;
use crate::disc::{disc, paint};
use crate::primitive::Pixel;
use vstd::prelude::*;

pub use crate::disc::{dc, dc_pixels};
pub use crate::stock::{DefaultTreeDraw, SymmetricTreeDraw};

verus! {

/// A worm whose size falls below this dies.
pub const MIN_SIZE: usize = 4;

/// Up to this column and row a motion must rise exactly on the cell it is
/// given: as far as every arithmetic in common use counts whole numbers
/// without a gap.
pub const EXACT: usize = 0x1000_0000;

/// A change of heading, counter-clockwise, in thousandths of a radian.
#[derive(Debug, Copy, Clone, PartialEq, Eq, Structural)]
pub enum Turn {
    /// Exactly this far.
    By(i32),
    /// A random amount, drawn evenly from an interval this wide around zero.
    Jitter(u32),
}

/// A point of the plane as the grid sees it: on each axis the whole numbers
/// next below and next above the coordinate (both the coordinate itself where
/// that is whole). Columns first, rows second; rows grow downward.
#[derive(Debug, Copy, Clone)]
pub struct Spot {
    pub low: (i128, i128),
    pub high: (i128, i128),
}

/// A number held inside `usize`: below zero it becomes zero, above
/// `usize::MAX` it becomes `usize::MAX`.
pub open spec fn held(value: int) -> usize {
    if value < 0 {
        0
    } else if value > usize::MAX {
        usize::MAX
    } else {
        value as usize
    }
}

/// `base` changed by `by`, held inside `usize`.
pub open spec fn shifted(base: usize, by: isize) -> usize {
    held(base + by)
}

impl Spot {
    /// The whole point on the corner of the cell `(col, row)`.
    pub open spec fn on(col: usize, row: usize) -> Spot {
        Spot { low: (col as i128, row as i128), high: (col as i128, row as i128) }
    }

    /// The point lies in `[0, width] x [0, height]`, edges included.
    pub open spec fn on_canvas(self, width: usize, height: usize) -> bool {
        &&& 0 <= self.low.0
        &&& 0 <= self.low.1
        &&& self.high.0 <= width
        &&& self.high.1 <= height
    }

    /// The coordinates without their fractions: rounded toward zero.
    pub open spec fn whole(self) -> (int, int) {
        (
            if self.low.0 >= 0 {
                self.low.0 as int
            } else {
                self.high.0 as int
            },
            if self.low.1 >= 0 {
                self.low.1 as int
            } else {
                self.high.1 as int
            },
        )
    }

    /// The cell the point is drawn on: its whole coordinates, held inside
    /// `usize`.
    pub open spec fn cell(self) -> (usize, usize) {
        (held(self.whole().0), held(self.whole().1))
    }

    /// The cell at `offset` from the point's whole coordinates, held inside
    /// `usize`.
    pub open spec fn cell_at(self, offset: (isize, isize)) -> (usize, usize) {
        (held(self.whole().0 + offset.0), held(self.whole().1 + offset.1))
    }

    /// Whether the point lies on a canvas of the given size.
    pub fn is_on_canvas(&self, width: usize, height: usize) -> (inside: bool)
        ensures
            inside == self.on_canvas(width, height),
    {
        0 <= self.low.0 && 0 <= self.low.1 && self.high.0 <= width as i128 && self.high.1
            <= height as i128
    }

    /// The cell the point is drawn on.
    pub fn to_cell(&self) -> (cell: (usize, usize))
        ensures
            cell == self.cell(),
    {
        self.to_cell_at((0, 0))
    }

    /// The cell at `offset` from the point.
    pub fn to_cell_at(&self, offset: (isize, isize)) -> (cell: (usize, usize))
        ensures
            cell == self.cell_at(offset),
    {
        let x = if self.low.0 >= 0 {
            self.low.0
        } else {
            self.high.0
        };
        let y = if self.low.1 >= 0 {
            self.low.1
        } else {
            self.high.1
        };
        (hold(x, offset.0), hold(y, offset.1))
    }
}

/// `value + by`, held inside `usize`.
fn hold(value: i128, by: isize) -> (kept: usize)
    ensures
        kept == held(value + by),
{
    // far enough outside `usize` the sum is outside whatever `by` is
    let near: i128 = if value < -0x1_0000_0000_0000_0000 {
        -0x1_0000_0000_0000_0000
    } else if value > 0x2_0000_0000_0000_0000 {
        0x2_0000_0000_0000_0000
    } else {
        value
    };
    let sum = near + by as i128;
    if sum < 0 {
        0
    } else if sum > usize::MAX as i128 {
        usize::MAX
    } else {
        sum as usize
    }
}

/// Changes a size by a signed amount.
pub fn shift(base: usize, by: isize) -> (moved: usize)
    ensures
        moved == shifted(base, by),
{
    hold(base as i128, by)
}

/// The side of a worm that lives in the plane: position, previous position,
/// heading and speed. It is also where a worm has its luck from.
///
/// Of a motion the simulation sees positions rounded to whole cells. What it
/// must be able to rely on is that a motion is a value like any other: where
/// it is, and where a move or a turn by a given amount leads, is settled by
/// the motion itself, and asking twice gives the same answer. The spec
/// functions name those answers; an implementation vouches that its methods
/// give them, that a move starts where the motion was, that a turn moves
/// nothing, and that an offshoot starts where its parent came from. Of a
/// random turn nothing more is claimed, and of the luck nothing but the range
/// of a scatter. [`crate::grid::Stride`] is a motion that is proved to keep
/// all of this.
pub trait Motion: Chance + Sized {
    /// The motion that rests on the cell `(col, row)`, heads straight up and
    /// covers `speed` cells per tick.
    spec fn risen(col: usize, row: usize, speed: usize) -> Self;

    /// Where the motion is.
    spec fn place(&self) -> Spot;

    /// Where the motion was before it last advanced.
    spec fn origin(&self) -> Spot;

    /// The motion one tick further along its heading, with its place of now
    /// as its origin.
    spec fn advanced(&self) -> Self;

    /// The motion with its heading changed by so many thousandths of a
    /// radian.
    spec fn turned(&self, thousandths: i32) -> Self;

    /// The motion that starts at the origin of this one, with its speed and
    /// its heading changed by so many thousandths of a radian.
    spec fn branched(&self, thousandths: i32) -> Self;

    /// A motion that rests on the cell `(col, row)`, heads straight up and
    /// covers `speed` cells per tick.
    fn upward(col: usize, row: usize, speed: usize) -> (motion: Self)
        ensures
            motion == Self::risen(col, row, speed),
            col <= EXACT && row <= EXACT ==> motion.place() == Spot::on(col, row)
                && motion.origin() == Spot::on(col, row),
    ;

    /// Remembers the position as the previous one, then moves one tick along
    /// the heading.
    fn advance(&mut self)
        ensures
            *final(self) == old(self).advanced(),
            final(self).origin() == old(self).place(),
    ;

    /// Changes the heading.
    fn turn(&mut self, by: Turn)
        ensures
            by matches Turn::By(thousandths) ==> *final(self) == old(self).turned(thousandths),
            final(self).place() == old(self).place(),
            final(self).origin() == old(self).origin(),
    ;

    /// The position.
    fn spot(&self) -> (spot: Spot)
        ensures
            spot == self.place(),
    ;

    /// The previous position.
    fn previous_spot(&self) -> (spot: Spot)
        ensures
            spot == self.origin(),
    ;

    /// A motion that starts at the previous position of this one, with its
    /// speed and its heading changed by `by`.
    fn branch(&self, by: Turn) -> (motion: Self)
        ensures
            by matches Turn::By(thousandths) ==> motion == self.branched(thousandths),
            motion.place() == self.origin(),
            motion.origin() == self.origin(),
    ;

    /// A random offset in cells, no further than `reach` on either axis.
    fn scatter(&self, reach: usize) -> (offset: (isize, isize))
        ensures
            -reach <= offset.0 <= reach,
            -reach <= offset.1 <= reach,
    ;
}

/// One growing, moving agent.
pub struct Worm<M> {
    pub motion: M,
    /// Radius of the disc it is drawn with.
    pub size: usize,
    pub color: (u8, u8, u8),
    /// Ticks it has been stepped for.
    pub steps: usize,
}

impl<M> Worm<M> {
    /// A worm that has not been stepped yet.
    pub fn from(motion: M, size: usize, color: (u8, u8, u8)) -> (worm: Self)
        ensures
            worm == (Worm { motion, size, color, steps: 0 }),
    {
        Worm { motion, size, color, steps: 0 }
    }
}

/// What a worm that survived a step hands to the scheduler.
pub struct WormResult<M> {
    pub new_worms: Vec<Worm<M>>,
    pub pixels: Vec<Pixel>,
}

/// What a surviving worm hands on, as plain sequences.
pub struct Yield<M> {
    pub brood: Seq<Worm<M>>,
    pub pixels: Seq<Pixel>,
}

impl<M> View for WormResult<M> {
    type V = Yield<M>;

    open spec fn view(&self) -> Yield<M> {
        Yield { brood: self.new_worms@, pixels: self.pixels@ }
    }
}

/// The outcome of a step as plain sequences.
pub open spec fn seen<M>(result: Option<WormResult<M>>) -> Option<Yield<M>> {
    match result {
        Some(r) => Some(r@),
        None => None,
    }
}

/// A step count after one more step; it stops counting at `usize::MAX`.
pub open spec fn ticked(steps: usize) -> usize {
    if steps < usize::MAX {
        (steps + 1) as usize
    } else {
        steps
    }
}

/// Radius of the stroke that joins a worm to where it was: one less than the
/// size it had, but never less than 1.
pub open spec fn trail_radius(old_size: usize) -> usize {
    if old_size >= 2 {
        (old_size - 1) as usize
    } else {
        1
    }
}

/// The three discs of a worm of `size` on the cell `at` that came from `was`
/// with `old_size`: its body in its colour, a black disc one smaller on top,
/// which leaves a ring, and a black stroke over where it was.
pub open spec fn drawn(
    at: (usize, usize),
    was: (usize, usize),
    size: usize,
    old_size: usize,
    color: (u8, u8, u8),
) -> Seq<Pixel> {
    paint(disc(at, size), color) + paint(disc(at, (size - 1) as usize), (0, 0, 0)) + paint(
        disc(was, trail_radius(old_size)),
        (0, 0, 0),
    )
}

/// Draws a living worm.
pub fn draw(
    at: (usize, usize),
    was: (usize, usize),
    size: usize,
    old_size: usize,
    color: (u8, u8, u8),
) -> (pixels: Vec<Pixel>)
    requires
        size >= MIN_SIZE,
    ensures
        pixels@ == drawn(at, was, size, old_size, color),
{
    let mut pixels = dc_pixels(at, size, color);
    let mut ring = dc_pixels(at, size - 1, (0, 0, 0));
    pixels.append(&mut ring);
    let trail = if old_size >= 2 {
        old_size - 1
    } else {
        1
    };
    let mut stroke = dc_pixels(was, trail, (0, 0, 0));
    pixels.append(&mut stroke);
    pixels
}

/// What the world around a worm answered during one step: the policy's turn,
/// where the move led and where it came from, and the policy's size change
/// and leaves.
pub struct Heard {
    pub turn: Turn,
    pub spot: Spot,
    pub was: Spot,
    pub delta: isize,
    pub leaves: Seq<Pixel>,
}

/// The worm that a step asks the policy about for its turn: `before`, moved
/// on by one tick and with the step counted.
pub open spec fn moved<M: Motion>(before: Worm<M>) -> Worm<M> {
    Worm {
        motion: before.motion.advanced(),
        size: before.size,
        color: before.color,
        steps: ticked(before.steps),
    }
}

/// The size a worm of `size` leaves a step with: unchanged where its move
/// left the canvas, changed by the policy's answer otherwise.
pub open spec fn size_after(size: usize, width: usize, height: usize, heard: Heard) -> usize {
    if heard.spot.on_canvas(width, height) {
        shifted(size, heard.delta)
    } else {
        size
    }
}

/// The pixels of a step, or `None` where the worm dies in it.
///
/// A worm dies when its move leaves the canvas, and when its changed size is
/// below [`MIN_SIZE`]; a worm that dies draws nothing, not even its leaves.
/// A worm that lives draws its leaves, then its three discs.
pub open spec fn outcome(
    size: usize,
    color: (u8, u8, u8),
    width: usize,
    height: usize,
    spot: Spot,
    was: Spot,
    delta: isize,
    leaves: Seq<Pixel>,
) -> Option<Seq<Pixel>> {
    if !spot.on_canvas(width, height) || shifted(size, delta) < MIN_SIZE {
        None
    } else {
        Some(leaves + drawn(spot.cell(), was.cell(), shifted(size, delta), size, color))
    }
}

/// The pixels of a step by what was heard in it.
pub open spec fn outcome_of(
    size: usize,
    color: (u8, u8, u8),
    width: usize,
    height: usize,
    heard: Heard,
) -> Option<Seq<Pixel>> {
    outcome(size, color, width, height, heard.spot, heard.was, heard.delta, heard.leaves)
}

/// The pixels of a step, once everything is heard: of a worm of `size` and
/// `color` whose move led to `spot` from `was`, and whose policy answered
/// `delta` and `leaves`. `None` where the worm dies: off the canvas, or
/// thinner than [`MIN_SIZE`] after the change. Otherwise the leaves, then the
/// three discs.
pub fn settle(
    size: usize,
    color: (u8, u8, u8),
    width: usize,
    height: usize,
    spot: Spot,
    was: Spot,
    delta: isize,
    leaves: Vec<Pixel>,
) -> (pixels: Option<Vec<Pixel>>)
    ensures
        match pixels {
            Some(drawn) => Some(drawn@),
            None => None,
        } == outcome(size, color, width, height, spot, was, delta, leaves@),
{
    if !spot.is_on_canvas(width, height) {
        return None;
    }
    let new_size = shift(size, delta);
    if new_size < MIN_SIZE {
        return None;
    }
    let mut pixels = leaves;
    let mut discs = draw(spot.to_cell(), was.to_cell(), new_size, size, color);
    pixels.append(&mut discs);
    Some(pixels)
}

/// A policy for growing a tree of worms: how a worm turns, thins, bears leaves
/// and branches.
///
/// The `may_` predicates say which answers a policy gives; left as they are,
/// they allow any.
pub trait TreeDraw<M: Motion>: Sized {
    /// The worms this policy may start a tree with.
    open spec fn may_start(&self, screen_width: usize, screen_height: usize, worm: &Worm<M>) -> bool {
        true
    }

    /// The turns this policy may answer for `worm`.
    open spec fn may_turn(&self, worm: &Worm<M>, turn: Turn) -> bool {
        true
    }

    /// The size changes this policy may answer for `worm`.
    open spec fn may_resize(&self, worm: &Worm<M>, delta: isize) -> bool {
        true
    }

    /// The leaves this policy may answer for `worm`.
    open spec fn may_leaf(&self, worm: &Worm<M>, leaves: Seq<Pixel>) -> bool {
        true
    }

    /// The children this policy may answer for `worm`.
    open spec fn may_spawn(&self, worm: &Worm<M>, brood: Seq<Worm<M>>) -> bool {
        true
    }

    /// The worm a tree starts with.
    fn starting_worm(&self, screen_width: usize, screen_height: usize) -> (worm: Worm<M>)
        ensures
            self.may_start(screen_width, screen_height, &worm),
    ;

    /// The change of heading in this step.
    fn delta_angle(&self, worm: &Worm<M>) -> (turn: Turn)
        ensures
            self.may_turn(worm, turn),
    ;

    /// The change of size in this step.
    fn delta_size(&self, worm: &Worm<M>) -> (delta: isize)
        ensures
            self.may_resize(worm, delta),
    ;

    /// The leaves the worm bears in this step.
    fn leaves(&self, worm: &Worm<M>) -> (leaves: Vec<Pixel>)
        ensures
            self.may_leaf(worm, leaves@),
    ;

    /// The worms that branch off in this step.
    fn children(&self, worm: &Worm<M>) -> (brood: Vec<Worm<M>>)
        ensures
            self.may_spawn(worm, brood@),
    ;
}

/// One step of `before` under `policy` on a canvas of the given size, given
/// what was heard: `after` is the worm as the step leaves it, `result` what it
/// hands on.
///
/// The step counts, and keeps the colour. The worm advances once and then
/// turns as the policy answers for the advanced worm; where that leaves it is
/// where the move led, and where it was before is where it came from. The
/// policy is asked for the size change and for the leaves only where the move
/// stayed on the canvas: for the size change with the old size, for the leaves
/// and the children with the new one.
pub open spec fn step_explained<M: Motion, T: TreeDraw<M>>(
    policy: &T,
    width: usize,
    height: usize,
    before: Worm<M>,
    after: Worm<M>,
    result: Option<Yield<M>>,
    heard: Heard,
) -> bool {
    let asked = Worm {
        motion: after.motion,
        size: before.size,
        color: after.color,
        steps: after.steps,
    };
    &&& after.color == before.color
    &&& after.steps == ticked(before.steps)
    &&& policy.may_turn(&moved(before), heard.turn)
    &&& heard.turn matches Turn::By(thousandths) ==> after.motion
        == before.motion.advanced().turned(thousandths)
    &&& heard.spot == after.motion.place()
    &&& heard.was == after.motion.origin()
    &&& heard.was == before.motion.place()
    &&& after.size == size_after(before.size, width, height, heard)
    &&& heard.spot.on_canvas(width, height) ==> policy.may_resize(&asked, heard.delta)
        && policy.may_leaf(&after, heard.leaves)
    &&& match result {
        Some(handed) => outcome_of(before.size, before.color, width, height, heard) == Some(
            handed.pixels,
        ) && policy.may_spawn(&after, handed.brood),
        None => outcome_of(before.size, before.color, width, height, heard) is None,
    }
}

/// `after` and `result` are what some step of `before` under `policy` gives.
pub open spec fn is_step<M: Motion, T: TreeDraw<M>>(
    policy: &T,
    width: usize,
    height: usize,
    before: Worm<M>,
    after: Worm<M>,
    result: Option<Yield<M>>,
) -> bool {
    exists|heard: Heard| step_explained(policy, width, height, before, after, result, heard)
}

/// Steps one worm by one tick: it moves and turns; if that took it off the
/// canvas it dies. Otherwise it changes size and bears leaves; if it is too
/// thin now it dies. Otherwise it draws itself and branches.
///
/// What the worm is afterwards and what it hands on is [`is_step`]; the
/// clauses after it spell out what of that does not hang on an answer of the
/// policy.
pub fn worm_step<M: Motion, T: TreeDraw<M>>(
    policy: &T,
    worm: &mut Worm<M>,
    screen_width: usize,
    screen_height: usize,
) -> (result: Option<WormResult<M>>)
    ensures
        is_step(policy, screen_width, screen_height, *old(worm), *final(worm), seen(result)),
        final(worm).color == old(worm).color,
        final(worm).steps == ticked(old(worm).steps),
        !final(worm).motion.place().on_canvas(screen_width, screen_height) ==> result is None
            && final(worm).size == old(worm).size,
        final(worm).motion.place().on_canvas(screen_width, screen_height) ==> (result is None
            <==> final(worm).size < MIN_SIZE),
        result is Some ==> policy.may_spawn(final(worm), result.unwrap().new_worms@),
{
    let ghost before = *worm;
    worm.steps = if worm.steps < usize::MAX {
        worm.steps + 1
    } else {
        worm.steps
    };
    worm.motion.advance();
    let turn = policy.delta_angle(worm);
    worm.motion.turn(turn);
    let spot = worm.motion.spot();
    if !spot.is_on_canvas(screen_width, screen_height) {
        proof {
            let heard = Heard {
                turn,
                spot,
                was: worm.motion.origin(),
                delta: 0,
                leaves: Seq::empty(),
            };
            assert(step_explained(policy, screen_width, screen_height, before, *worm, None, heard));
        }
        return None;
    }
    let old_size = worm.size;
    let delta = policy.delta_size(worm);
    worm.size = shift(old_size, delta);
    let leaves = policy.leaves(worm);
    let was = worm.motion.previous_spot();
    let ghost heard = Heard { turn, spot, was, delta, leaves: leaves@ };
    match settle(old_size, worm.color, screen_width, screen_height, spot, was, delta, leaves) {
        Some(pixels) => {
            let new_worms = policy.children(worm);
            let result = WormResult { new_worms, pixels };
            proof {
                assert(step_explained(
                    policy,
                    screen_width,
                    screen_height,
                    before,
                    *worm,
                    Some(result@),
                    heard,
                ));
            }
            Some(result)
        },
        None => {
            proof {
                assert(step_explained(
                    policy,
                    screen_width,
                    screen_height,
                    before,
                    *worm,
                    None,
                    heard,
                ));
            }
            None
        },
    }
}

/// What became of one worm in a tick: the worm as its step left it, and what
/// it handed on, `None` where it died.
pub struct Fate<M> {
    pub after: Worm<M>,
    pub handed: Option<Yield<M>>,
}

/// The worms one fate leaves for the next tick: the survivor, then its brood.
pub open spec fn heirs<M>(fate: Fate<M>) -> Seq<Worm<M>> {
    match fate.handed {
        Some(handed) => seq![fate.after] + handed.brood,
        None => Seq::empty(),
    }
}

/// The pixels one fate adds to its tick.
pub open spec fn marks<M>(fate: Fate<M>) -> Seq<Pixel> {
    match fate.handed {
        Some(handed) => handed.pixels,
        None => Seq::empty(),
    }
}

/// The population after a tick: the heirs of each worm, in the order of the
/// worms.
pub open spec fn successors<M>(fates: Seq<Fate<M>>) -> Seq<Worm<M>>
    decreases fates.len(),
{
    if fates.len() == 0 {
        Seq::empty()
    } else {
        successors(fates.drop_last()) + heirs(fates.last())
    }
}

/// The pixels of a tick: the marks of each worm, in the order of the worms.
pub open spec fn batch_of<M>(fates: Seq<Fate<M>>) -> Seq<Pixel>
    decreases fates.len(),
{
    if fates.len() == 0 {
        Seq::empty()
    } else {
        batch_of(fates.drop_last()) + marks(fates.last())
    }
}

/// `fates` tells, worm by worm, what a tick under `policy` made of `live`.
pub open spec fn is_tick<M: Motion, T: TreeDraw<M>>(
    policy: &T,
    width: usize,
    height: usize,
    live: Seq<Worm<M>>,
    fates: Seq<Fate<M>>,
) -> bool {
    &&& fates.len() == live.len()
    &&& forall|i: int|
        0 <= i < live.len() ==> is_step(
            policy,
            width,
            height,
            live[i],
            (#[trigger] fates[i]).after,
            fates[i].handed,
        )
}

/// The worms alive when tick `k` begins: the seed alone at first, later the
/// successors of the tick before.
pub open spec fn population<M>(seed: Worm<M>, ticks: Seq<Seq<Fate<M>>>, k: int) -> Seq<Worm<M>> {
    if k <= 0 {
        seq![seed]
    } else {
        successors(ticks[k - 1])
    }
}

/// `ticks` is the history of a tree grown from `seed` under `policy`, and
/// `batches` its output.
///
/// Every tick steps exactly the worms that were alive when it began, each
/// once, and its batch holds their pixels and no others: a worm born in a tick
/// is stepped, and draws, from the next tick on. The history ends with the
/// population (unless the output can hold no further batch).
pub open spec fn is_growth<M: Motion, T: TreeDraw<M>>(
    policy: &T,
    width: usize,
    height: usize,
    seed: Worm<M>,
    ticks: Seq<Seq<Fate<M>>>,
    batches: Seq<Vec<Pixel>>,
) -> bool {
    &&& ticks.len() >= 1
    &&& batches.len() == ticks.len()
    &&& forall|k: int|
        0 <= k < ticks.len() ==> {
            &&& (#[trigger] ticks[k]).len() > 0
            &&& is_tick(policy, width, height, population(seed, ticks, k), ticks[k])
            &&& batches[k]@ == batch_of(ticks[k])
        }
    &&& successors(ticks.last()).len() == 0 || ticks.len() == usize::MAX
}

/// Grows a tree from `seed`: steps every living worm once per tick until none
/// is left, and returns the pixels of each tick.
pub fn grow<M: Motion, T: TreeDraw<M>>(
    policy: &T,
    seed: Worm<M>,
    screen_width: usize,
    screen_height: usize,
) -> (batches: Vec<Vec<Pixel>>)
    ensures
        exists|ticks: Seq<Seq<Fate<M>>>|
            is_growth(policy, screen_width, screen_height, seed, ticks, batches@),
{
    let mut worms: Vec<Worm<M>> = Vec::new();
    worms.push(seed);
    let mut batches: Vec<Vec<Pixel>> = Vec::new();
    let ghost mut ticks: Seq<Seq<Fate<M>>> = Seq::empty();
    while worms.len() > 0 && batches.len() < usize::MAX
        invariant
            batches@.len() == ticks.len(),
            worms@ == population(seed, ticks, ticks.len() as int),
            forall|k: int|
                0 <= k < ticks.len() ==> {
                    &&& (#[trigger] ticks[k]).len() > 0
                    &&& is_tick(
                        policy,
                        screen_width,
                        screen_height,
                        population(seed, ticks, k),
                        ticks[k],
                    )
                    &&& batches@[k]@ == batch_of(ticks[k])
                },
        decreases usize::MAX - batches@.len(),
    {
        let ghost live = worms@;
        let ghost so_far = ticks;
        let mut next: Vec<Worm<M>> = Vec::new();
        let mut batch: Vec<Pixel> = Vec::new();
        let ghost mut fates: Seq<Fate<M>> = Seq::empty();
        for worm in it: worms
            invariant
                it.seq() == live,
                fates.len() == it.index(),
                forall|i: int|
                    0 <= i < fates.len() ==> is_step(
                        policy,
                        screen_width,
                        screen_height,
                        live[i],
                        (#[trigger] fates[i]).after,
                        fates[i].handed,
                    ),
                next@ == successors(fates),
                batch@ == batch_of(fates),
        {
            let mut worm = worm;
            let ghost earlier = fates;
            match worm_step(policy, &mut worm, screen_width, screen_height) {
                Some(result) => {
                    let WormResult { mut new_worms, mut pixels } = result;
                    proof {
                        fates = earlier.push(Fate { after: worm, handed: Some(result@) });
                    }
                    batch.append(&mut pixels);
                    next.push(worm);
                    next.append(&mut new_worms);
                },
                None => {
                    proof {
                        fates = earlier.push(Fate { after: worm, handed: None });
                    }
                },
            }
            proof {
                assert(fates.drop_last() =~= earlier);
                assert(next@ =~= successors(earlier) + heirs(fates.last()));
            }
        }
        worms = next;
        batches.push(batch);
        proof {
            ticks = so_far.push(fates);
            assert forall|k: int| 0 <= k < ticks.len() implies {
                &&& (#[trigger] ticks[k]).len() > 0
                &&& is_tick(policy, screen_width, screen_height, population(seed, ticks, k), ticks[k])
                &&& batches@[k]@ == batch_of(ticks[k])
            } by {
                if k < so_far.len() {
                    assert(ticks[k] == so_far[k]);
                    assert(population(seed, ticks, k) == population(seed, so_far, k));
                }
            }
        }
    }
    proof {
        assert(is_growth(policy, screen_width, screen_height, seed, ticks, batches@));
    }
    batches
}

/// Grows the tree of `policy` on a canvas of the given size, from the worm the
/// policy starts with.
pub fn steps<M: Motion, T: TreeDraw<M>>(
    policy: &T,
    screen_width: usize,
    screen_height: usize,
) -> (batches: Vec<Vec<Pixel>>)
    ensures
        exists|seed: Worm<M>, ticks: Seq<Seq<Fate<M>>>|
            policy.may_start(screen_width, screen_height, &seed) && #[trigger] is_growth(
                policy,
                screen_width,
                screen_height,
                seed,
                ticks,
                batches@,
            ),
{
    let seed = policy.starting_worm(screen_width, screen_height);
    let ghost first = seed;
    let batches = grow(policy, seed, screen_width, screen_height);
    proof {
        let ticks = choose|ticks: Seq<Seq<Fate<M>>>|
            is_growth(policy, screen_width, screen_height, first, ticks, batches@);
        assert(is_growth(policy, screen_width, screen_height, first, ticks, batches@));
    }
    batches
}

} // verus!
