//! What holds of every step, every tick and every tree, proved from the
//! definitions in [`crate::tree`] and [`crate::stock`].

use crate::disc::{disc, lemma_disc_lies_around_its_center, paint};
use crate::primitive::Pixel;
use crate::stock::{
    sprout, DefaultTreeDraw, SymmetricTreeDraw, BLOOM_SIZE, FORK, FORK_PERIOD, THINNING_PERIOD,
};
use crate::tree::{
    batch_of, drawn, heirs, is_growth, is_step, is_tick, marks, moved, outcome_of, population,
    shifted, step_explained, successors, ticked, trail_radius, Fate, Heard, Motion, TreeDraw, Turn,
    Worm, Yield, MIN_SIZE,
};
use vstd::prelude::*;

verus! {

/// A step moves the worm: it advances once, and then turns as the policy
/// answered for the advanced worm. Where it was before is where it comes from
/// afterwards. Where the policy answers a turn by a fixed amount, that settles
/// where the worm is afterwards.
pub proof fn lemma_step_moves_the_worm<M: Motion, T: TreeDraw<M>>(
    policy: &T,
    width: usize,
    height: usize,
    before: Worm<M>,
    after: Worm<M>,
    result: Option<Yield<M>>,
)
    requires
        is_step(policy, width, height, before, after, result),
    ensures
        after.color == before.color,
        after.steps == ticked(before.steps),
        after.motion.origin() == before.motion.place(),
        exists|turn: Turn| #[trigger]
            policy.may_turn(&moved(before), turn) && (turn matches Turn::By(thousandths)
                ==> after.motion == before.motion.advanced().turned(thousandths)),
{
    let heard = choose|heard: Heard|
        step_explained(policy, width, height, before, after, result, heard);
    assert(policy.may_turn(&moved(before), heard.turn));
}

/// A worm whose move leaves `[0, width] x [0, height]`, on either axis and at
/// either end, dies in that step. The step hands nothing on, the worm keeps
/// its size, and its fate adds no worm to the next tick and no pixel to this
/// one.
pub proof fn lemma_leaving_the_canvas_kills<M: Motion, T: TreeDraw<M>>(
    policy: &T,
    width: usize,
    height: usize,
    before: Worm<M>,
    after: Worm<M>,
    result: Option<Yield<M>>,
)
    requires
        is_step(policy, width, height, before, after, result),
        after.motion.place().low.0 < 0 || after.motion.place().low.1 < 0
            || after.motion.place().high.0 > width || after.motion.place().high.1 > height,
    ensures
        result is None,
        after.size == before.size,
        heirs(Fate { after, handed: result }).len() == 0,
        marks(Fate { after, handed: result }).len() == 0,
{
}

/// A worm that stays on the canvas changes its size as the policy answered,
/// and dies in the step exactly if its changed size is below [`MIN_SIZE`].
pub proof fn lemma_thin_worms_die<M: Motion, T: TreeDraw<M>>(
    policy: &T,
    width: usize,
    height: usize,
    before: Worm<M>,
    after: Worm<M>,
    result: Option<Yield<M>>,
)
    requires
        is_step(policy, width, height, before, after, result),
        after.motion.place().on_canvas(width, height),
    ensures
        result is None <==> after.size < MIN_SIZE,
        exists|delta: isize| #[trigger]
            policy.may_resize(
                &(Worm {
                    motion: after.motion,
                    size: before.size,
                    color: after.color,
                    steps: after.steps,
                }),
                delta,
            ) && after.size == shifted(before.size, delta),
{
    let heard = choose|heard: Heard|
        step_explained(policy, width, height, before, after, result, heard);
    let asked = Worm {
        motion: after.motion,
        size: before.size,
        color: after.color,
        steps: after.steps,
    };
    assert(policy.may_resize(&asked, heard.delta));
}

/// The pixels of a step that the worm survives are the leaves the policy
/// answered for it, followed by exactly three discs: the body around the
/// worm's cell, the black disc one smaller around the same cell, and the black
/// stroke around the cell the worm came from.
pub proof fn lemma_step_draws_leaves_and_three_discs<M: Motion, T: TreeDraw<M>>(
    policy: &T,
    width: usize,
    height: usize,
    before: Worm<M>,
    after: Worm<M>,
    handed: Yield<M>,
)
    requires
        is_step(policy, width, height, before, after, Some(handed)),
    ensures
        after.size >= MIN_SIZE,
        after.motion.place().on_canvas(width, height),
        policy.may_spawn(&after, handed.brood),
        exists|leaves: Seq<Pixel>| #[trigger]
            policy.may_leaf(&after, leaves) && handed.pixels == leaves + paint(
                disc(after.motion.place().cell(), after.size),
                before.color,
            ) + paint(disc(after.motion.place().cell(), (after.size - 1) as usize), (0, 0, 0))
                + paint(disc(after.motion.origin().cell(), trail_radius(before.size)), (0, 0, 0))
                && handed.pixels.len() >= leaves.len() + 3,
{
    let heard = choose|heard: Heard|
        step_explained(policy, width, height, before, after, Some(handed), heard);
    let at = after.motion.place().cell();
    let was = after.motion.origin().cell();
    lemma_disc_lies_around_its_center(at, after.size);
    lemma_disc_lies_around_its_center(at, (after.size - 1) as usize);
    lemma_disc_lies_around_its_center(was, trail_radius(before.size));
    let body = paint(disc(at, after.size), before.color);
    let ring = paint(disc(at, (after.size - 1) as usize), (0, 0, 0));
    let stroke = paint(disc(was, trail_radius(before.size)), (0, 0, 0));
    assert(heard.leaves + (body + ring + stroke) =~= heard.leaves + body + ring + stroke);
    assert(policy.may_leaf(&after, heard.leaves));
}

/// Under the symmetric policy a worm never turns.
pub proof fn lemma_symmetric_worms_run_straight<M: Motion>(worm: Worm<M>, turn: Turn)
    requires
        SymmetricTreeDraw.may_turn(&worm, turn),
    ensures
        turn == Turn::By(0),
{
}

/// Under the symmetric policy nothing is left to chance but the leaves. A
/// step advances the worm once and turns it by nothing, thins it on every
/// tenth step, and forks it on every thirtieth: what the worm is afterwards,
/// whether it lives and which offshoots it has is settled by what it was.
pub proof fn lemma_symmetric_step_is_settled<M: Motion>(
    width: usize,
    height: usize,
    before: Worm<M>,
    after: Worm<M>,
    result: Option<Yield<M>>,
)
    requires
        is_step(&SymmetricTreeDraw, width, height, before, after, result),
    ensures
        after.motion == before.motion.advanced().turned(0),
        after.color == before.color,
        after.steps == ticked(before.steps),
        after.size == if !after.motion.place().on_canvas(width, height) {
            before.size
        } else if after.steps % THINNING_PERIOD == 0 {
            shifted(before.size, -1isize)
        } else {
            before.size
        },
        result is Some <==> after.motion.place().on_canvas(width, height) && after.size >= MIN_SIZE,
        result is Some ==> result->0.brood == if after.steps % FORK_PERIOD == 0 {
            seq![sprout(&after, FORK), sprout(&after, (-FORK) as i32)]
        } else {
            Seq::empty()
        },
        result is Some && after.size >= BLOOM_SIZE ==> result->0.pixels == drawn(
            after.motion.place().cell(),
            after.motion.origin().cell(),
            after.size,
            before.size,
            before.color,
        ),
{
    let heard = choose|heard: Heard|
        step_explained(&SymmetricTreeDraw, width, height, before, after, result, heard);
    let asked = Worm {
        motion: after.motion,
        size: before.size,
        color: after.color,
        steps: after.steps,
    };
    assert(SymmetricTreeDraw.may_turn(&moved(before), heard.turn));
    if heard.spot.on_canvas(width, height) {
        assert(SymmetricTreeDraw.may_resize(&asked, heard.delta));
        assert(SymmetricTreeDraw.may_leaf(&after, heard.leaves));
    }
    if result is Some {
        assert(SymmetricTreeDraw.may_spawn(&after, result->0.brood));
        if after.size >= BLOOM_SIZE {
            assert(heard.leaves =~= Seq::empty());
            assert(result->0.pixels =~= drawn(
                after.motion.place().cell(),
                after.motion.origin().cell(),
                after.size,
                before.size,
                before.color,
            ));
        }
    }
}

/// Two symmetric worms that are alike stay alike: after a step each they are
/// in the same place with the same heading, size and step count, both live or
/// both are dead, and they have the same offshoots.
pub proof fn lemma_symmetric_worms_step_alike<M: Motion>(
    width: usize,
    height: usize,
    before: Worm<M>,
    after: Worm<M>,
    result: Option<Yield<M>>,
    twin_after: Worm<M>,
    twin_result: Option<Yield<M>>,
)
    requires
        is_step(&SymmetricTreeDraw, width, height, before, after, result),
        is_step(&SymmetricTreeDraw, width, height, before, twin_after, twin_result),
    ensures
        after == twin_after,
        result is Some <==> twin_result is Some,
        result is Some ==> result->0.brood == twin_result->0.brood,
        result is Some && after.size >= BLOOM_SIZE ==> result->0.pixels == twin_result->0.pixels,
{
    lemma_symmetric_step_is_settled(width, height, before, after, result);
    lemma_symmetric_step_is_settled(width, height, before, twin_after, twin_result);
}

/// A worm of the next population is an heir of one of the fates.
pub proof fn lemma_successor_is_heir<M>(fates: Seq<Fate<M>>, n: int)
    requires
        0 <= n < successors(fates).len(),
    ensures
        exists|i: int, j: int|
            0 <= i < fates.len() && 0 <= j < heirs(fates[i]).len() && successors(fates)[n]
                == #[trigger] heirs(fates[i])[j],
    decreases fates.len(),
{
    let front = fates.drop_last();
    if n < successors(front).len() {
        lemma_successor_is_heir(front, n);
        let (i, j) = choose|i: int, j: int|
            0 <= i < front.len() && 0 <= j < heirs(front[i]).len() && successors(front)[n]
                == #[trigger] heirs(front[i])[j];
        assert(fates[i] == front[i]);
        assert(successors(fates)[n] == heirs(fates[i])[j]);
    } else {
        let i = fates.len() - 1;
        let j = n - successors(front).len();
        assert(successors(fates)[n] == heirs(fates[i])[j]);
    }
}

/// In a growing tree the worms stepped in a tick are the worms that were
/// alive when it began, one fate each, and the tick's batch is made of their
/// pixels. The survivors and the newborn of tick `k` make up the population of
/// tick `k + 1`; the newborn are neither stepped nor drawn before.
pub proof fn lemma_generation_order<M: Motion, T: TreeDraw<M>>(
    policy: &T,
    width: usize,
    height: usize,
    seed: Worm<M>,
    ticks: Seq<Seq<Fate<M>>>,
    batches: Seq<Vec<Pixel>>,
    k: int,
)
    requires
        is_growth(policy, width, height, seed, ticks, batches),
        0 <= k < ticks.len(),
    ensures
        ticks[k].len() == population(seed, ticks, k).len(),
        batches[k]@ == batch_of(ticks[k]),
        k == 0 ==> population(seed, ticks, k) == seq![seed],
        k + 1 < ticks.len() ==> population(seed, ticks, k + 1) == successors(ticks[k]) && ticks[k
            + 1].len() == successors(ticks[k]).len(),
        k + 1 == ticks.len() && ticks.len() < usize::MAX ==> successors(ticks[k]).len() == 0,
{
    assert(is_tick(policy, width, height, population(seed, ticks, k), ticks[k]));
    if k + 1 < ticks.len() {
        assert(is_tick(policy, width, height, population(seed, ticks, k + 1), ticks[k + 1]));
    }
}

/// The ticks a worm of the symmetric policy has left, the one it dies in
/// counted: ten for each size above 3, less the steps since it last thinned.
pub open spec fn symmetric_span(size: usize, steps: usize) -> int {
    if size >= MIN_SIZE {
        THINNING_PERIOD * (size - (MIN_SIZE - 1)) - (steps % THINNING_PERIOD)
    } else {
        1
    }
}

/// One step under the symmetric policy takes one tick off the span of a worm
/// that survives it, and an offshoot starts with the span its parent has left.
pub proof fn lemma_symmetric_step<M: Motion>(
    width: usize,
    height: usize,
    before: Worm<M>,
    after: Worm<M>,
    handed: Yield<M>,
)
    requires
        is_step(&SymmetricTreeDraw, width, height, before, after, Some(handed)),
        before.steps < usize::MAX,
    ensures
        after.steps == before.steps + 1,
        symmetric_span(after.size, after.steps) == symmetric_span(before.size, before.steps) - 1,
        symmetric_span(after.size, after.steps) >= 1,
        forall|j: int|
            0 <= j < handed.brood.len() ==> (#[trigger] handed.brood[j]).steps == 0
                && symmetric_span(handed.brood[j].size, 0) == symmetric_span(
                after.size,
                after.steps,
            ),
{
    let heard = choose|heard: Heard|
        step_explained(&SymmetricTreeDraw, width, height, before, after, Some(handed), heard);
    let asked = Worm {
        motion: after.motion,
        size: before.size,
        color: after.color,
        steps: after.steps,
    };
    assert(outcome_of(before.size, before.color, width, height, heard) is Some);
    assert(SymmetricTreeDraw.may_resize(&asked, heard.delta));
    assert(SymmetricTreeDraw.may_spawn(&after, handed.brood));
}

/// In a tree of the symmetric policy, every worm alive when tick `k` begins
/// has a span of at most the seed's less `k`, and has been stepped at most `k`
/// times more than the seed.
pub proof fn lemma_symmetric_population<M: Motion>(
    width: usize,
    height: usize,
    seed: Worm<M>,
    ticks: Seq<Seq<Fate<M>>>,
    batches: Seq<Vec<Pixel>>,
    k: int,
)
    requires
        is_growth(&SymmetricTreeDraw, width, height, seed, ticks, batches),
        seed.steps + symmetric_span(seed.size, seed.steps) < usize::MAX,
        0 <= k <= ticks.len(),
    ensures
        forall|n: int|
            0 <= n < population(seed, ticks, k).len() ==> {
                let worm = #[trigger] population(seed, ticks, k)[n];
                &&& worm.steps <= seed.steps + k
                &&& 1 <= symmetric_span(worm.size, worm.steps) <= symmetric_span(
                    seed.size,
                    seed.steps,
                ) - k
            },
    decreases k,
{
    if k > 0 {
        lemma_symmetric_population(width, height, seed, ticks, batches, k - 1);
        let live = population(seed, ticks, k - 1);
        let fates = ticks[k - 1];
        assert(is_tick(&SymmetricTreeDraw, width, height, live, fates));
        assert forall|n: int| 0 <= n < population(seed, ticks, k).len() implies {
            let worm = #[trigger] population(seed, ticks, k)[n];
            &&& worm.steps <= seed.steps + k
            &&& 1 <= symmetric_span(worm.size, worm.steps) <= symmetric_span(
                seed.size,
                seed.steps,
            ) - k
        } by {
            lemma_successor_is_heir(fates, n);
            let (i, j) = choose|i: int, j: int|
                0 <= i < fates.len() && 0 <= j < heirs(fates[i]).len() && successors(fates)[n]
                    == #[trigger] heirs(fates[i])[j];
            let parent = live[i];
            assert(is_step(
                &SymmetricTreeDraw,
                width,
                height,
                parent,
                fates[i].after,
                fates[i].handed,
            ));
            let handed = fates[i].handed->0;
            lemma_symmetric_step(width, height, parent, fates[i].after, handed);
            if j > 0 {
                assert(heirs(fates[i])[j] == handed.brood[j - 1]);
            }
        }
    }
}

/// A tree of the symmetric policy dies out, after no more ticks than the
/// seed's span, whatever the canvas and however the worms move. From a seed of
/// size 30 or less that is at most 270 ticks.
pub proof fn lemma_symmetric_tree_dies_out<M: Motion>(
    width: usize,
    height: usize,
    seed: Worm<M>,
    ticks: Seq<Seq<Fate<M>>>,
    batches: Seq<Vec<Pixel>>,
)
    requires
        is_growth(&SymmetricTreeDraw, width, height, seed, ticks, batches),
        seed.steps + symmetric_span(seed.size, seed.steps) < usize::MAX,
    ensures
        batches.len() <= symmetric_span(seed.size, seed.steps),
        successors(ticks.last()).len() == 0,
        seed.size <= 30 ==> batches.len() <= 270,
{
    let k = ticks.len() - 1;
    lemma_symmetric_population(width, height, seed, ticks, batches, k);
    assert(ticks[k].len() > 0);
    assert(is_tick(&SymmetricTreeDraw, width, height, population(seed, ticks, k), ticks[k]));
    let worm = population(seed, ticks, k)[0];
    assert(1 <= symmetric_span(worm.size, worm.steps) <= symmetric_span(seed.size, seed.steps) - k);
}

/// The population after a tick begins with the heirs of the first worm.
pub proof fn lemma_first_heirs_lead<M>(fates: Seq<Fate<M>>, j: int)
    requires
        fates.len() >= 1,
        0 <= j < heirs(fates[0]).len(),
    ensures
        j < successors(fates).len(),
        successors(fates)[j] == heirs(fates[0])[j],
    decreases fates.len(),
{
    let front = fates.drop_last();
    if fates.len() == 1 {
        assert(successors(front).len() == 0);
        assert(fates.last() == fates[0]);
    } else {
        assert(front[0] == fates[0]);
        lemma_first_heirs_lead(front, j);
    }
}

/// The seed of a symmetric tree after `k` steps on the canvas: it has
/// advanced `k` times without a turn and has thinned on every tenth step.
pub open spec fn symmetric_elder<M: Motion>(seed: Worm<M>, k: nat) -> Worm<M>
    decreases k,
{
    if k == 0 {
        seed
    } else {
        let before = symmetric_elder(seed, (k - 1) as nat);
        Worm {
            motion: before.motion.advanced().turned(0),
            size: if ticked(before.steps) % THINNING_PERIOD == 0 {
                shifted(before.size, -1isize)
            } else {
                before.size
            },
            color: before.color,
            steps: ticked(before.steps),
        }
    }
}

/// While its span lasts a symmetric seed keeps a size to live with: after `k`
/// steps, fewer than its span, it has `k` ticks less to live and is no
/// smaller than [`MIN_SIZE`].
pub proof fn lemma_symmetric_elder_thins_slowly<M: Motion>(seed: Worm<M>, k: nat)
    requires
        seed.size >= MIN_SIZE,
        seed.steps + symmetric_span(seed.size, seed.steps) < usize::MAX,
        k < symmetric_span(seed.size, seed.steps),
    ensures
        symmetric_elder(seed, k).size >= MIN_SIZE,
        symmetric_elder(seed, k).steps == seed.steps + k,
        symmetric_span(symmetric_elder(seed, k).size, symmetric_elder(seed, k).steps)
            == symmetric_span(seed.size, seed.steps) - k,
    decreases k,
{
    if k > 0 {
        lemma_symmetric_elder_thins_slowly(seed, (k - 1) as nat);
    }
}

/// As long as the seed of a symmetric tree stays on the canvas and is thick
/// enough, it is the first worm of every population, moved on and thinned as
/// [`symmetric_elder`] says.
pub proof fn lemma_symmetric_elder_leads<M: Motion>(
    width: usize,
    height: usize,
    seed: Worm<M>,
    ticks: Seq<Seq<Fate<M>>>,
    batches: Seq<Vec<Pixel>>,
    k: nat,
)
    requires
        is_growth(&SymmetricTreeDraw, width, height, seed, ticks, batches),
        k <= ticks.len(),
        forall|j: nat|
            1 <= j <= k ==> (#[trigger] symmetric_elder(seed, j)).motion.place().on_canvas(
                width,
                height,
            ) && symmetric_elder(seed, j).size >= MIN_SIZE,
    ensures
        population(seed, ticks, k as int).len() >= 1,
        population(seed, ticks, k as int)[0] == symmetric_elder(seed, k),
    decreases k,
{
    if k > 0 {
        lemma_symmetric_elder_leads(width, height, seed, ticks, batches, (k - 1) as nat);
        let live = population(seed, ticks, k - 1);
        let fates = ticks[k - 1];
        let before = symmetric_elder(seed, (k - 1) as nat);
        let elder = symmetric_elder(seed, k);
        assert(is_tick(&SymmetricTreeDraw, width, height, live, fates));
        assert(is_step(&SymmetricTreeDraw, width, height, live[0], fates[0].after, fates[0].handed));
        lemma_symmetric_step_is_settled(width, height, before, fates[0].after, fates[0].handed);
        assert(elder.motion.place().on_canvas(width, height) && elder.size >= MIN_SIZE);
        assert(fates[0].after == elder);
        assert(fates[0].handed is Some);
        assert(heirs(fates[0])[0] == elder);
        lemma_first_heirs_lead(fates, 0);
    }
}

/// A symmetric tree whose seed stays on the canvas for all of its span lives
/// exactly that span: from the stock seed that is 170 ticks.
pub proof fn lemma_symmetric_tree_lives_its_span<M: Motion>(
    width: usize,
    height: usize,
    seed: Worm<M>,
    ticks: Seq<Seq<Fate<M>>>,
    batches: Seq<Vec<Pixel>>,
)
    requires
        is_growth(&SymmetricTreeDraw, width, height, seed, ticks, batches),
        seed.size >= MIN_SIZE,
        seed.steps + symmetric_span(seed.size, seed.steps) < usize::MAX,
        forall|j: nat|
            1 <= j < symmetric_span(seed.size, seed.steps) ==> (#[trigger] symmetric_elder(
                seed,
                j,
            )).motion.place().on_canvas(width, height),
    ensures
        batches.len() == symmetric_span(seed.size, seed.steps),
{
    let span = symmetric_span(seed.size, seed.steps);
    lemma_symmetric_tree_dies_out(width, height, seed, ticks, batches);
    if ticks.len() < span {
        let k = ticks.len();
        assert forall|j: nat| 1 <= j <= k implies (#[trigger] symmetric_elder(
            seed,
            j,
        )).motion.place().on_canvas(width, height) && symmetric_elder(seed, j).size
            >= MIN_SIZE by {
            lemma_symmetric_elder_thins_slowly(seed, j);
        }
        lemma_symmetric_elder_leads(width, height, seed, ticks, batches, k);
        assert(population(seed, ticks, k as int) == successors(ticks.last()));
    }
}

/// The tree that [`crate::tree::steps`] grows under the symmetric policy dies
/// out after 170 ticks at the latest, on any canvas.
pub proof fn lemma_symmetric_steps_end<M: Motion>(
    width: usize,
    height: usize,
    seed: Worm<M>,
    ticks: Seq<Seq<Fate<M>>>,
    batches: Seq<Vec<Pixel>>,
)
    requires
        SymmetricTreeDraw.may_start(width, height, &seed),
        is_growth(&SymmetricTreeDraw, width, height, seed, ticks, batches),
    ensures
        1 <= batches.len() <= 170,
        successors(ticks.last()).len() == 0,
{
    lemma_symmetric_tree_dies_out(width, height, seed, ticks, batches);
}

/// A policy that never lets a worm grow and whose offshoots are no larger
/// than their parents.
pub open spec fn never_grows<M: Motion, T: TreeDraw<M>>(policy: &T) -> bool {
    &&& forall|worm: Worm<M>, delta: isize| #[trigger] policy.may_resize(&worm, delta) ==> delta <= 0
    &&& forall|worm: Worm<M>, brood: Seq<Worm<M>>, j: int|
        #![trigger policy.may_spawn(&worm, brood), brood[j]]
        policy.may_spawn(&worm, brood) && 0 <= j < brood.len() ==> brood[j].size <= worm.size
}

/// Sizes only fall: under a policy that never lets a worm grow, no worm that
/// is ever alive in a tree is larger than the seed.
pub proof fn lemma_no_worm_outgrows_the_seed<M: Motion, T: TreeDraw<M>>(
    policy: &T,
    width: usize,
    height: usize,
    seed: Worm<M>,
    ticks: Seq<Seq<Fate<M>>>,
    batches: Seq<Vec<Pixel>>,
    k: int,
)
    requires
        is_growth(policy, width, height, seed, ticks, batches),
        never_grows(policy),
        0 <= k <= ticks.len(),
    ensures
        forall|n: int|
            0 <= n < population(seed, ticks, k).len() ==> (#[trigger] population(
                seed,
                ticks,
                k,
            )[n]).size <= seed.size,
    decreases k,
{
    if k > 0 {
        lemma_no_worm_outgrows_the_seed(policy, width, height, seed, ticks, batches, k - 1);
        let live = population(seed, ticks, k - 1);
        let fates = ticks[k - 1];
        assert(is_tick(policy, width, height, live, fates));
        assert forall|n: int| 0 <= n < population(seed, ticks, k).len() implies (#[trigger] population(
            seed,
            ticks,
            k,
        )[n]).size <= seed.size by {
            lemma_successor_is_heir(fates, n);
            let (i, j) = choose|i: int, j: int|
                0 <= i < fates.len() && 0 <= j < heirs(fates[i]).len() && successors(fates)[n]
                    == #[trigger] heirs(fates[i])[j];
            let before = live[i];
            let after = fates[i].after;
            let handed = fates[i].handed->0;
            assert(is_step(policy, width, height, before, after, fates[i].handed));
            let heard = choose|heard: Heard|
                step_explained(policy, width, height, before, after, fates[i].handed, heard);
            let asked = Worm {
                motion: after.motion,
                size: before.size,
                color: after.color,
                steps: after.steps,
            };
            assert(policy.may_resize(&asked, heard.delta));
            assert(after.size <= before.size);
            if j > 0 {
                assert(policy.may_spawn(&after, handed.brood));
                assert(heirs(fates[i])[j] == handed.brood[j - 1]);
            }
        }
    }
}

/// Neither stock policy ever lets a worm grow.
pub proof fn lemma_stock_policies_never_grow<M: Motion>()
    ensures
        never_grows::<M, DefaultTreeDraw>(&DefaultTreeDraw),
        never_grows::<M, SymmetricTreeDraw>(&SymmetricTreeDraw),
{
    assert forall|worm: Worm<M>, delta: isize| #[trigger]
        DefaultTreeDraw.may_resize(&worm, delta) implies delta <= 0 by {}
    assert forall|worm: Worm<M>, delta: isize| #[trigger]
        SymmetricTreeDraw.may_resize(&worm, delta) implies delta <= 0 by {}
    assert forall|worm: Worm<M>, brood: Seq<Worm<M>>, j: int|
        #![trigger DefaultTreeDraw.may_spawn(&worm, brood), brood[j]]
        DefaultTreeDraw.may_spawn(&worm, brood) && 0 <= j < brood.len() implies brood[j].size
            <= worm.size by {}
    assert forall|worm: Worm<M>, brood: Seq<Worm<M>>, j: int|
        #![trigger SymmetricTreeDraw.may_spawn(&worm, brood), brood[j]]
        SymmetricTreeDraw.may_spawn(&worm, brood) && 0 <= j < brood.len() implies brood[j].size
            <= worm.size by {}
}

} // verus!
