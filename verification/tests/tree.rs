use pixeltree::dice::Chance;
use pixeltree::disc::{dc, dc_pixels};
use pixeltree::primitive::Pixel;
use pixeltree::stock::{branching_chance, seed_cell, side_of, stock_leaves, stock_seed, thinned_by};
use pixeltree::tree::{
    draw, grow, shift, steps, worm_step, DefaultTreeDraw, Motion, Spot, SymmetricTreeDraw, TreeDraw,
    Turn, Worm,
};

/// Motion in the real plane, as a drawing program would supply it.
#[derive(Debug, Clone, PartialEq)]
struct Plane {
    x: f64,
    y: f64,
    old_x: f64,
    old_y: f64,
    angle: f64,
    velo: f64,
}

impl Plane {
    fn at(x: f64, y: f64, angle: f64, velo: f64) -> Plane {
        Plane { x, y, old_x: x, old_y: y, angle, velo }
    }
}

fn rounded(x: f64, y: f64) -> Spot {
    Spot { low: (x.floor() as i128, y.floor() as i128), high: (x.ceil() as i128, y.ceil() as i128) }
}

fn radians(by: Turn) -> f64 {
    match by {
        Turn::By(thousandths) => f64::from(thousandths) / 1000.0,
        Turn::Jitter(width) => {
            let width = f64::from(width) / 1000.0;
            fastrand::f64() * width - width / 2.0
        }
    }
}

impl Motion for Plane {
    // the answers of the methods below, as values
    fn risen(col: usize, row: usize, speed: usize) -> Plane {
        Plane::upward(col, row, speed)
    }

    fn place(&self) -> Spot {
        self.spot()
    }

    fn origin(&self) -> Spot {
        self.previous_spot()
    }

    fn advanced(&self) -> Plane {
        let mut next = self.clone();
        next.advance();
        next
    }

    fn turned(&self, thousandths: i32) -> Plane {
        let mut next = self.clone();
        next.turn(Turn::By(thousandths));
        next
    }

    fn branched(&self, thousandths: i32) -> Plane {
        self.branch(Turn::By(thousandths))
    }

    fn upward(col: usize, row: usize, speed: usize) -> Plane {
        Plane::at(col as f64, row as f64, std::f64::consts::PI / 2.0, speed as f64)
    }

    fn advance(&mut self) {
        self.old_x = self.x;
        self.old_y = self.y;
        self.x += self.angle.cos() * self.velo;
        self.y -= self.angle.sin() * self.velo;
    }

    fn turn(&mut self, by: Turn) {
        self.angle += radians(by);
    }

    fn spot(&self) -> Spot {
        rounded(self.x, self.y)
    }

    fn previous_spot(&self) -> Spot {
        rounded(self.old_x, self.old_y)
    }

    fn branch(&self, by: Turn) -> Plane {
        Plane::at(self.old_x, self.old_y, self.angle + radians(by), self.velo)
    }

    fn scatter(&self, reach: usize) -> (isize, isize) {
        let dist = fastrand::f64() * reach as f64;
        let angle = fastrand::f64() * 2.0 * std::f64::consts::PI;
        ((angle.cos() * dist) as isize, -((angle.sin() * dist) as isize))
    }

}

impl Chance for Plane {
    fn chance(&self, percent: u8) -> bool {
        fastrand::f64() < f64::from(percent) / 100.0
    }
}

const BLACK: (u8, u8, u8) = (0, 0, 0);
const RED: (u8, u8, u8) = (250, 0, 0);
const BLUE: (u8, u8, u8) = (0, 0, 250);

/// A policy for experiments: a fixed size change, no leaves, and one blue
/// child in each of the first `births` steps of the seed.
struct Plain {
    size: usize,
    delta: isize,
    births: usize,
}

impl TreeDraw<Plane> for Plain {
    fn starting_worm(&self, screen_width: usize, screen_height: usize) -> Worm<Plane> {
        Worm::from(Plane::upward(screen_width / 2, screen_height - 1, 3), self.size, RED)
    }

    fn delta_angle(&self, _worm: &Worm<Plane>) -> Turn {
        Turn::By(0)
    }

    fn delta_size(&self, _worm: &Worm<Plane>) -> isize {
        self.delta
    }

    fn leaves(&self, _worm: &Worm<Plane>) -> Vec<Pixel> {
        Vec::new()
    }

    fn children(&self, worm: &Worm<Plane>) -> Vec<Worm<Plane>> {
        if worm.color == RED && worm.steps <= self.births {
            vec![Worm::from(worm.motion.branch(Turn::By(0)), worm.size, BLUE)]
        } else {
            Vec::new()
        }
    }
}

fn three_discs(at: (usize, usize), was: (usize, usize), size: usize, old_size: usize, color: (u8, u8, u8)) -> Vec<Pixel> {
    let mut pixels = dc_pixels(at, size, color);
    pixels.extend(dc_pixels(at, size - 1, BLACK));
    pixels.extend(dc_pixels(was, old_size - 1, BLACK));
    pixels
}

#[test]
fn shift_adds_and_stays_inside() {
    assert_eq!(shift(5, -1), 4);
    assert_eq!(shift(5, 3), 8);
    assert_eq!(shift(5, 0), 5);
    assert_eq!(shift(2, -3), 0);
    assert_eq!(shift(0, isize::MIN), 0);
    assert_eq!(shift(usize::MAX, isize::MIN), usize::MAX - (isize::MAX as usize) - 1);
    assert_eq!(shift(usize::MAX - 1, 5), usize::MAX);
    assert_eq!(shift(10, isize::MAX), 10 + isize::MAX as usize);
}

#[test]
fn draw_is_body_ring_and_stroke() {
    assert_eq!(draw((30, 30), (30, 33), 7, 8, RED), three_discs((30, 30), (30, 33), 7, 8, RED));
    let pixels = draw((30, 30), (30, 33), 4, 4, RED);
    assert_eq!(pixels.len(), 45 + 21 + 21);
    assert!(pixels[..45].iter().all(|p| p.color == RED));
    assert!(pixels[45..].iter().all(|p| p.color == BLACK));
}

#[test]
fn stroke_of_a_worm_that_was_tiny_has_radius_one() {
    // a worm that grew from 1 or 0 has no smaller disc to leave behind
    let grown_from_one = draw((9, 9), (5, 5), 4, 1, RED);
    assert_eq!(grown_from_one.len(), 45 + 21 + 1);
    assert_eq!(grown_from_one[66], Pixel { x: 5, y: 5, color: BLACK });
    assert_eq!(draw((9, 9), (5, 5), 4, 0, RED), grown_from_one);
    assert_eq!(draw((9, 9), (5, 5), 4, 2, RED), grown_from_one);
}

#[test]
fn step_moves_counts_and_draws() {
    let policy = Plain { size: 8, delta: 0, births: 0 };
    let mut worm = policy.starting_worm(100, 100);
    assert_eq!(worm.steps, 0);
    assert_eq!(worm.motion.spot().to_cell(), (50, 99));
    let result = worm_step(&policy, &mut worm, 100, 100).unwrap();
    assert_eq!(worm.steps, 1);
    assert_eq!(worm.size, 8);
    assert_eq!(worm.color, RED);
    assert_eq!(worm.motion.spot().to_cell(), (50, 96));
    assert_eq!(worm.motion.previous_spot().to_cell(), (50, 99));
    assert!(result.new_worms.is_empty());
    assert_eq!(result.pixels, three_discs((50, 96), (50, 99), 8, 8, RED));
}

#[test]
fn step_pixels_are_leaves_then_three_discs() {
    // a worm of size 9 does not bloom under the stock policies
    let mut worm = Worm::from(Plane::upward(60, 80, 3), 9, RED);
    worm.steps = 3;
    let result = worm_step(&SymmetricTreeDraw, &mut worm, 200, 200).unwrap();
    let body = dc((60, 77), 9).len();
    let ring = dc((60, 77), 8).len();
    let stroke = dc((60, 80), 8).len();
    assert_eq!(result.pixels.len(), body + ring + stroke);
    assert_eq!(result.pixels, three_discs((60, 77), (60, 80), 9, 9, RED));
    assert!(result.new_worms.is_empty());

    // the step in which it thins draws the new size, and the stroke in the old
    let mut worm = Worm::from(Plane::upward(60, 80, 3), 9, RED);
    worm.steps = 9;
    let result = worm_step(&SymmetricTreeDraw, &mut worm, 200, 200).unwrap();
    assert_eq!(worm.size, 8);
    assert_eq!(result.pixels, three_discs((60, 77), (60, 80), 8, 9, RED));
}

#[test]
fn blooming_worm_draws_leaves_first() {
    fastrand::seed(11);
    let mut worm = Worm::from(Plane::upward(60, 80, 3), 5, RED);
    let result = worm_step(&SymmetricTreeDraw, &mut worm, 200, 200).unwrap();
    let discs = three_discs((60, 77), (60, 80), 5, 5, RED);
    assert!(result.pixels.len() >= discs.len() + 8);
    let leaves = result.pixels.len() - discs.len();
    assert_eq!(result.pixels[leaves..], discs[..]);
    for leaf in &result.pixels[..leaves] {
        assert!(leaf.color.0 >= 50);
        assert!((10..20).contains(&leaf.color.1));
        assert!(leaf.color.2 < 10);
    }
}

#[test]
fn worm_that_leaves_the_canvas_dies() {
    // heading up from row 9 at three rows a step: 6, 3, 0, then off the top
    let policy = Plain { size: 20, delta: 0, births: 0 };
    let mut worm = policy.starting_worm(40, 10);
    for row in [6, 3, 0] {
        assert!(worm_step(&policy, &mut worm, 40, 10).is_some());
        assert_eq!(worm.motion.spot().to_cell().1, row);
    }
    assert!(worm_step(&policy, &mut worm, 40, 10).is_none());
    assert_eq!(worm.size, 20);
    assert_eq!(worm.steps, 4);

    let batches = steps(&policy, 40, 10);
    assert_eq!(batches.len(), 4);
    assert!(batches[..3].iter().all(|batch| !batch.is_empty()));
    assert!(batches[3].is_empty());
}

#[test]
fn worm_on_the_far_edge_is_still_inside() {
    let policy = Plain { size: 6, delta: 0, births: 0 };
    let mut worm = Worm::from(Plane::at(40.0, 13.0, std::f64::consts::PI / 2.0, 3.0), 6, RED);
    assert!(worm_step(&policy, &mut worm, 40, 10).is_some());
    let mut worm = Worm::from(Plane::at(40.5, 13.0, std::f64::consts::PI / 2.0, 3.0), 6, RED);
    assert!(worm_step(&policy, &mut worm, 40, 10).is_none());
    let mut worm = Worm::from(Plane::at(20.0, 13.5, std::f64::consts::PI / 2.0, 3.0), 6, RED);
    assert!(worm_step(&policy, &mut worm, 40, 10).is_none());
}

#[test]
fn worm_of_size_five_that_thins_each_step_dies_in_the_second() {
    let policy = Plain { size: 5, delta: -1, births: 0 };
    let mut worm = policy.starting_worm(100, 100);
    let first = worm_step(&policy, &mut worm, 100, 100);
    assert!(first.is_some());
    assert_eq!(worm.size, 4);
    assert_eq!(first.unwrap().pixels, three_discs((50, 96), (50, 99), 4, 5, RED));
    let second = worm_step(&policy, &mut worm, 100, 100);
    assert!(second.is_none());
    assert_eq!(worm.size, 3);

    let batches = steps(&policy, 100, 100);
    assert_eq!(batches.len(), 2);
    assert!(!batches[0].is_empty());
    assert!(batches[1].is_empty());
}

#[test]
fn size_cannot_fall_below_zero() {
    let policy = Plain { size: 2, delta: -5, births: 0 };
    let mut worm = policy.starting_worm(100, 100);
    assert!(worm_step(&policy, &mut worm, 100, 100).is_none());
    assert_eq!(worm.size, 0);
    assert_eq!(steps(&policy, 100, 100), vec![Vec::<Pixel>::new()]);
}

#[test]
fn worm_may_grow() {
    let policy = Plain { size: 1, delta: 4, births: 0 };
    let mut worm = policy.starting_worm(100, 100);
    let result = worm_step(&policy, &mut worm, 100, 100).unwrap();
    assert_eq!(worm.size, 5);
    assert_eq!(result.pixels.len(), 69 + 45 + 1);
}

#[test]
fn children_are_stepped_from_the_next_tick_on() {
    let policy = Plain { size: 6, delta: 0, births: 1 };
    let batches = steps(&policy, 100, 13);
    // rows 12 -> 9 -> 6 -> 3 -> 0 -> off; the child starts one step behind
    assert_eq!(batches.len(), 6);
    let blue = |batch: &Vec<Pixel>| batch.iter().filter(|p| p.color == BLUE).count();
    let red = |batch: &Vec<Pixel>| batch.iter().filter(|p| p.color == RED).count();
    let body = dc((50, 50), 6).len();
    // tick 0: the seed alone draws, although its child is born in it
    assert_eq!(red(&batches[0]), body);
    assert_eq!(blue(&batches[0]), 0);
    assert_eq!(batches[0], three_discs((50, 9), (50, 12), 6, 6, RED));
    // tick 1: seed, then child, each once
    assert_eq!(red(&batches[1]), body);
    assert_eq!(blue(&batches[1]), body);
    let mut expected = three_discs((50, 6), (50, 9), 6, 6, RED);
    expected.extend(three_discs((50, 9), (50, 12), 6, 6, BLUE));
    assert_eq!(batches[1], expected);
    // tick 4: the seed is off the canvas, the child draws alone
    assert_eq!(red(&batches[4]), 0);
    assert!(blue(&batches[4]) > 0);
    // tick 5: the child leaves too
    assert!(batches[5].is_empty());
}

#[test]
fn survivor_comes_before_its_children_and_before_the_next_worm() {
    let policy = Plain { size: 6, delta: 0, births: 2 };
    let seed = Worm::from(Plane::upward(50, 99, 3), 6, RED);
    let batches = grow(&policy, seed, 100, 100);
    let order: Vec<(u8, u8, u8)> = batches[2]
        .iter()
        .filter(|p| p.color != BLACK)
        .map(|p| p.color)
        .collect::<Vec<_>>()
        .chunks(dc((50, 50), 6).len())
        .map(|chunk| chunk[0])
        .collect();
    // population at tick 2: seed, its second child, its first child
    assert_eq!(order, vec![RED, BLUE, BLUE]);
    let first_rows: Vec<usize> = batches[2]
        .chunks(batches[2].len() / 3)
        .map(|chunk| chunk.iter().map(|p| p.y).min().unwrap())
        .collect();
    assert_eq!(first_rows, vec![90 - 5, 93 - 5, 93 - 5]);
}

#[test]
fn symmetric_worms_run_straight_and_alike() {
    let mut one = Worm::from(Plane::at(150.25, 290.5, 1.0, 2.5), 20, RED);
    let mut two = Worm::from(Plane::at(150.25, 290.5, 1.0, 2.5), 20, RED);
    let mut path = Vec::new();
    for step in 1..=25 {
        let a = worm_step(&SymmetricTreeDraw, &mut one, 300, 300);
        let b = worm_step(&SymmetricTreeDraw, &mut two, 300, 300);
        assert!(a.is_some() && b.is_some());
        assert_eq!(one.motion, two.motion);
        assert_eq!(one.motion.angle, 1.0);
        assert_eq!(one.steps, step);
        assert_eq!(a.unwrap().pixels, b.unwrap().pixels);
        path.push((one.motion.x, one.motion.y));
    }
    assert_eq!(one.size, 18);
    let (dx, dy) = (1.0f64.cos() * 2.5, 1.0f64.sin() * 2.5);
    assert!((path[24].0 - (150.25 + 25.0 * dx)).abs() < 1e-9);
    assert!((path[24].1 - (290.5 - 25.0 * dy)).abs() < 1e-9);
}

#[test]
fn symmetric_policy_thins_every_tenth_and_forks_every_thirtieth_step() {
    let mut worm: Worm<Plane> = Worm::from(Plane::upward(500, 900, 3), 20, RED);
    for step in 1..=60usize {
        worm.steps = step;
        assert_eq!(SymmetricTreeDraw.delta_size(&worm), if step % 10 == 0 { -1 } else { 0 });
        let brood = SymmetricTreeDraw.children(&worm);
        assert_eq!(brood.len(), if step % 30 == 0 { 2 } else { 0 });
        assert_eq!(<SymmetricTreeDraw as TreeDraw<Plane>>::delta_angle(&SymmetricTreeDraw, &worm), Turn::By(0));
    }
    worm.steps = 30;
    worm.motion.advance();
    let brood = SymmetricTreeDraw.children(&worm);
    assert_eq!(brood[0].motion, Plane::at(500.0, 900.0, std::f64::consts::PI / 2.0 + 0.4, 3.0));
    assert_eq!(brood[1].motion, Plane::at(500.0, 900.0, std::f64::consts::PI / 2.0 - 0.4, 3.0));
    for child in &brood {
        assert_eq!((child.size, child.color, child.steps), (20, RED, 0));
    }
    worm.size = 3;
    assert!(SymmetricTreeDraw.children(&worm).is_empty());
}

#[test]
fn stock_seed_stands_in_the_middle_of_the_bottom_row() {
    let worm: Worm<Plane> = stock_seed(1024, 768);
    assert_eq!(worm.motion, Plane::at(512.0, 767.0, std::f64::consts::PI / 2.0, 3.0));
    assert_eq!((worm.size, worm.color, worm.steps), (20, (200, 200, 200), 0));
    let worm: Worm<Plane> = <DefaultTreeDraw as TreeDraw<Plane>>::starting_worm(&DefaultTreeDraw, 7, 1);
    assert_eq!(worm.motion.spot().to_cell(), (3, 0));
    assert_eq!(worm.size, 20);
    let worm: Worm<Plane> = stock_seed(0, 0);
    assert_eq!(worm.motion.spot().to_cell(), (0, 0));
}

#[test]
fn symmetric_tree_dies_out() {
    fastrand::seed(5);
    let batches = steps::<Plane, _>(&SymmetricTreeDraw, 160, 160);
    assert!(!batches.is_empty());
    assert!(batches.len() <= 170);
    assert!(batches.last().unwrap().is_empty());
    // the seed runs up the middle: 159 -> 0 takes 53 steps, the next is off
    assert!(batches.len() >= 54);
}

#[test]
fn symmetric_tree_from_any_size_up_to_thirty_dies_out_in_time() {
    fastrand::seed(6);
    for size in [0usize, 3, 4, 5, 11, 30] {
        let seed = Worm::from(Plane::upward(40, 2000, 3), size, RED);
        let batches = grow(&SymmetricTreeDraw, seed, 80, 2000);
        let span = if size >= 4 { 10 * (size - 3) } else { 1 };
        // nothing leaves this canvas at the top before it has thinned away
        if size <= 11 {
            assert_eq!(batches.len(), span, "size {size}");
        } else {
            assert!(batches.len() <= span);
        }
        assert!(batches.last().unwrap().is_empty());
    }
}

#[test]
fn organic_tree_dies_out() {
    for seed in [1u64, 2, 3] {
        fastrand::seed(seed);
        let batches = steps::<Plane, _>(&DefaultTreeDraw, 120, 120);
        assert!(!batches.is_empty());
        assert!(batches.len() < 10_000);
        assert!(batches.last().unwrap().is_empty());
    }
}

#[test]
fn organic_policy_thins_by_one_or_not_at_all() {
    fastrand::seed(3);
    let worm: Worm<Plane> = stock_seed(100, 100);
    let mut thinned = 0;
    for _ in 0..2000 {
        let delta = DefaultTreeDraw.delta_size(&worm);
        assert!(delta == -1 || delta == 0);
        if delta == -1 {
            thinned += 1;
        }
    }
    // 18 in a hundred
    assert!((260..460).contains(&thinned));
    assert_eq!(<DefaultTreeDraw as TreeDraw<Plane>>::delta_angle(&DefaultTreeDraw, &worm), Turn::Jitter(500));
}

#[test]
fn organic_policy_branches_once_left_or_right() {
    fastrand::seed(4);
    let mut worm: Worm<Plane> = stock_seed(100, 100);
    worm.motion.advance();
    let (mut left, mut right, mut none) = (0, 0, 0);
    for _ in 0..4000 {
        let brood = DefaultTreeDraw.children(&worm);
        assert!(brood.len() <= 1);
        match brood.first() {
            None => none += 1,
            Some(child) => {
                assert_eq!((child.size, child.color, child.steps), (20, (200, 200, 200), 0));
                assert_eq!(child.motion.spot().to_cell(), (50, 99));
                let off = child.motion.angle - worm.motion.angle;
                if (off - 0.3).abs() < 1e-12 {
                    left += 1;
                } else {
                    assert!((off + 0.3).abs() < 1e-12);
                    right += 1;
                }
            }
        }
    }
    // 3 in a hundred, either side alike
    assert!((60..200).contains(&(left + right)));
    assert!(left > 10 && right > 10);
    assert!(none > 3000);

    // 13 in a hundred once it blooms, none below the smallest size
    worm.size = 5;
    let born = (0..4000).filter(|_| !DefaultTreeDraw.children(&worm).is_empty()).count();
    assert!((400..650).contains(&born));
    worm.size = 3;
    assert!((0..200).all(|_| DefaultTreeDraw.children(&worm).is_empty()));
}

#[test]
fn stock_leaves_are_eight_small_discs_near_the_worm() {
    fastrand::seed(9);
    let big: Worm<Plane> = Worm::from(Plane::upward(100, 100, 3), 6, RED);
    assert!(stock_leaves(&big).is_empty());
    let mut colors = std::collections::BTreeSet::new();
    let mut most = 0;
    let mut least = usize::MAX;
    for _ in 0..50 {
        let worm: Worm<Plane> = Worm::from(Plane::upward(100, 100, 3), 5, RED);
        let leaves = stock_leaves(&worm);
        // eight discs of 1, 5, 21 or 45 cells
        assert!(leaves.len() >= 8 && leaves.len() <= 8 * 45);
        most = most.max(leaves.len());
        least = least.min(leaves.len());
        for leaf in &leaves {
            assert!(leaf.color.0 >= 50);
            assert!((10..20).contains(&leaf.color.1));
            assert!(leaf.color.2 < 10);
            assert!((100 - 43..=100 + 43).contains(&leaf.x));
            assert!((100 - 43..=100 + 43).contains(&leaf.y));
            colors.insert(leaf.color);
        }
    }
    // the draws vary: no radius and no channel sticks to an end of its range
    assert!(most > 8);
    assert!(least < 8 * 45);
    assert!(colors.len() > 8);
    assert!(colors.iter().any(|c| c.0 != 50) && colors.iter().any(|c| c.0 != 255));
    assert!(colors.iter().any(|c| c.1 != 10) && colors.iter().any(|c| c.1 != 19));
    assert!(colors.iter().any(|c| c.2 != 0) && colors.iter().any(|c| c.2 != 9));
}

#[test]
fn leaves_near_the_corner_stay_on_the_canvas() {
    fastrand::seed(10);
    for _ in 0..50 {
        let worm: Worm<Plane> = Worm::from(Plane::upward(2, 1, 3), 4, RED);
        let leaves = stock_leaves(&worm);
        assert!(leaves.iter().all(|leaf| leaf.x <= 2 + 43 && leaf.y <= 1 + 43));
        assert!(leaves.iter().any(|leaf| leaf.x == 0 || leaf.y == 0));
    }
}

#[test]
fn canvas_reaches_from_zero_to_width_and_height_edges_included() {
    let spot = |x: f64, y: f64| Plane::at(x, y, 0.0, 0.0).spot();
    assert!(spot(0.0, 0.0).is_on_canvas(40, 10));
    assert!(spot(40.0, 10.0).is_on_canvas(40, 10));
    assert!(spot(39.9, 9.9).is_on_canvas(40, 10));
    assert!(!spot(40.1, 5.0).is_on_canvas(40, 10));
    assert!(!spot(5.0, 10.1).is_on_canvas(40, 10));
    assert!(!spot(-0.1, 5.0).is_on_canvas(40, 10));
    assert!(!spot(5.0, -0.1).is_on_canvas(40, 10));
    assert!(spot(0.0, 0.0).is_on_canvas(0, 0));
    assert!(!spot(0.5, 0.0).is_on_canvas(0, 0));
    assert!(Spot { low: (0, 0), high: (0, 0) }.is_on_canvas(0, 0));
    assert!(Spot { low: (7, 3), high: (8, 4) }.is_on_canvas(8, 4));
    assert!(!Spot { low: (7, 3), high: (8, 4) }.is_on_canvas(7, 4));
    assert!(!Spot { low: (7, 3), high: (8, 4) }.is_on_canvas(8, 3));
    assert!(!Spot { low: (-1, 3), high: (0, 4) }.is_on_canvas(8, 8));
    assert!(!Spot { low: (3, -1), high: (4, 0) }.is_on_canvas(8, 8));
}

#[test]
fn rows_are_held_against_the_height_not_the_width() {
    // a wide, low canvas: row 57 is below it although 57 is less than the width
    let policy = Plain { size: 8, delta: 0, births: 0 };
    let mut worm = Worm::from(Plane::upward(50, 60, 3), 8, RED);
    assert!(worm_step(&policy, &mut worm, 100, 10).is_none());
    // a narrow, high canvas: column 50 is right of it although 50 is less than the height
    let mut worm = Worm::from(Plane::upward(50, 60, 3), 8, RED);
    assert!(worm_step(&policy, &mut worm, 10, 100).is_none());
    let mut worm = Worm::from(Plane::upward(50, 60, 3), 8, RED);
    assert!(worm_step(&policy, &mut worm, 100, 100).is_some());
}

#[test]
fn cell_of_a_spot_drops_the_fraction() {
    assert_eq!(Spot { low: (3, 4), high: (4, 5) }.to_cell(), (3, 4));
    assert_eq!(Spot { low: (3, 4), high: (3, 4) }.to_cell(), (3, 4));
    assert_eq!(Spot { low: (-1, 4), high: (0, 5) }.to_cell(), (0, 4));
    assert_eq!(Spot { low: (-3, -8), high: (-2, -7) }.to_cell(), (0, 0));
    assert_eq!(Spot { low: (i128::MAX, 0), high: (i128::MAX, 0) }.to_cell(), (usize::MAX, 0));
    assert_eq!(Spot { low: (i128::MIN, 0), high: (i128::MIN, 0) }.to_cell(), (0, 0));
    assert_eq!(Plane::at(17.9, 0.2, 0.0, 0.0).spot().to_cell(), (17, 0));
}

#[test]
fn cell_at_an_offset_stays_on_the_grid() {
    let spot = Spot { low: (5, 5), high: (6, 6) };
    assert_eq!(spot.to_cell_at((0, 0)), (5, 5));
    assert_eq!(spot.to_cell_at((-5, 2)), (0, 7));
    assert_eq!(spot.to_cell_at((-7, -6)), (0, 0));
    assert_eq!(spot.to_cell_at((isize::MIN, isize::MAX)), (0, 5 + isize::MAX as usize));
    // left of zero the fraction is dropped toward zero before the offset is added
    let left = Spot { low: (-3, -3), high: (-2, -2) };
    assert_eq!(left.to_cell_at((5, 1)), (3, 0));
    let far = Spot { low: (i128::MAX, i128::MIN), high: (i128::MAX, i128::MIN) };
    assert_eq!(far.to_cell_at((isize::MIN, isize::MAX)), (usize::MAX, 0));
    let edge = Spot { low: (usize::MAX as i128, 0), high: (usize::MAX as i128, 0) };
    assert_eq!(edge.to_cell_at((1, -1)), (usize::MAX, 0));
    assert_eq!(edge.to_cell_at((-1, 1)), (usize::MAX - 1, 1));
}

#[test]
fn seed_stands_on_the_middle_of_the_bottom_row() {
    assert_eq!(seed_cell(1024, 768), (512, 767));
    assert_eq!(seed_cell(7, 1), (3, 0));
    assert_eq!(seed_cell(1, 2), (0, 1));
    assert_eq!(seed_cell(0, 0), (0, 0));
    assert_eq!(seed_cell(usize::MAX, usize::MAX), (usize::MAX / 2, usize::MAX - 1));
}

#[test]
fn organic_worm_thins_by_one_on_a_yes() {
    assert_eq!(thinned_by(true), -1);
    assert_eq!(thinned_by(false), 0);
}

#[test]
fn organic_worm_branches_more_often_in_bloom_and_not_at_all_when_small() {
    assert_eq!(branching_chance(0), None);
    assert_eq!(branching_chance(3), None);
    assert_eq!(branching_chance(4), Some(13));
    assert_eq!(branching_chance(5), Some(13));
    assert_eq!(branching_chance(6), Some(3));
    assert_eq!(branching_chance(20), Some(3));
    assert_eq!(branching_chance(usize::MAX), Some(3));
}

#[test]
fn organic_offshoot_heads_off_to_the_side_the_coin_picked() {
    assert_eq!(side_of(true), Turn::By(300));
    assert_eq!(side_of(false), Turn::By(-300));
}

/// A motion whose luck always says the same, and that records what it was
/// asked.
struct Fixed {
    luck: bool,
    asked: std::cell::RefCell<Vec<u8>>,
    turned: Option<Turn>,
}

impl Fixed {
    fn with(luck: bool) -> Fixed {
        Fixed { luck, asked: std::cell::RefCell::new(Vec::new()), turned: None }
    }
}

impl Chance for Fixed {
    fn chance(&self, percent: u8) -> bool {
        self.asked.borrow_mut().push(percent);
        self.luck
    }
}

impl Motion for Fixed {
    fn risen(col: usize, row: usize, speed: usize) -> Fixed {
        Fixed::upward(col, row, speed)
    }

    fn place(&self) -> Spot {
        self.spot()
    }

    fn origin(&self) -> Spot {
        self.previous_spot()
    }

    fn advanced(&self) -> Fixed {
        Fixed { luck: self.luck, asked: self.asked.clone(), turned: self.turned }
    }

    fn turned(&self, thousandths: i32) -> Fixed {
        Fixed { luck: self.luck, asked: self.asked.clone(), turned: Some(Turn::By(thousandths)) }
    }

    fn branched(&self, thousandths: i32) -> Fixed {
        self.branch(Turn::By(thousandths))
    }

    fn upward(_col: usize, _row: usize, _speed: usize) -> Fixed {
        Fixed::with(false)
    }

    fn advance(&mut self) {}

    fn turn(&mut self, by: Turn) {
        self.turned = Some(by);
    }

    fn spot(&self) -> Spot {
        Spot { low: (50, 50), high: (50, 50) }
    }

    fn previous_spot(&self) -> Spot {
        Spot { low: (50, 53), high: (50, 53) }
    }

    fn branch(&self, by: Turn) -> Fixed {
        Fixed { luck: self.luck, asked: std::cell::RefCell::new(Vec::new()), turned: Some(by) }
    }

    fn scatter(&self, _reach: usize) -> (isize, isize) {
        (0, 0)
    }
}

#[test]
fn organic_worm_does_as_its_luck_says() {
    let lucky = Worm::from(Fixed::with(true), 20, RED);
    assert_eq!(DefaultTreeDraw.delta_size(&lucky), -1);
    assert_eq!(*lucky.motion.asked.borrow(), vec![18]);
    let brood = DefaultTreeDraw.children(&lucky);
    assert_eq!(brood.len(), 1);
    assert_eq!((brood[0].size, brood[0].color, brood[0].steps), (20, RED, 0));
    assert!(brood[0].motion.turned == Some(Turn::By(300)) || brood[0].motion.turned == Some(Turn::By(-300)));
    assert_eq!(*lucky.motion.asked.borrow(), vec![18, 3]);

    let unlucky = Worm::from(Fixed::with(false), 20, RED);
    assert_eq!(DefaultTreeDraw.delta_size(&unlucky), 0);
    assert!(DefaultTreeDraw.children(&unlucky).is_empty());
    assert_eq!(*unlucky.motion.asked.borrow(), vec![18, 3]);

    let blooming = Worm::from(Fixed::with(true), 5, RED);
    assert_eq!(DefaultTreeDraw.children(&blooming).len(), 1);
    assert_eq!(*blooming.motion.asked.borrow(), vec![13]);

    // a worm too small to branch does not even ask
    let small = Worm::from(Fixed::with(true), 3, RED);
    assert!(DefaultTreeDraw.children(&small).is_empty());
    assert!(small.motion.asked.borrow().is_empty());
}

#[test]
fn organic_offshoots_go_to_either_side() {
    fastrand::seed(21);
    let worm = Worm::from(Fixed::with(true), 20, RED);
    let mut sides = std::collections::BTreeSet::new();
    for _ in 0..100 {
        match DefaultTreeDraw.children(&worm)[0].motion.turned {
            Some(Turn::By(by)) => sides.insert(by),
            _ => panic!("an offshoot turns by a fixed amount"),
        };
    }
    assert_eq!(sides.into_iter().collect::<Vec<i32>>(), vec![-300, 300]);
}

#[test]
fn symmetric_worm_turns_by_nothing_whatever_its_state() {
    for (size, steps, luck) in [(20, 0, true), (3, 7, false), (5, 30, true), (usize::MAX, usize::MAX, false)] {
        let mut worm = Worm::from(Fixed::with(luck), size, BLUE);
        worm.steps = steps;
        assert_eq!(SymmetricTreeDraw.delta_angle(&worm), Turn::By(0));
        assert!(worm.motion.asked.borrow().is_empty());
    }
}
