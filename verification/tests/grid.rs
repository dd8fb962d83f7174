use pixeltree::dice::Chance;
use pixeltree::disc::dc_pixels;
use pixeltree::grid::Stride;
use pixeltree::primitive::Pixel;
use pixeltree::stock::{offshoots, stock_seed};
use pixeltree::tree::{grow, settle, steps, worm_step, Motion, Spot, SymmetricTreeDraw, TreeDraw, Turn, Worm};

const GREY: (u8, u8, u8) = (200, 200, 200);
const BLACK: (u8, u8, u8) = (0, 0, 0);

fn stride(at: (i128, i128), heading: u8, speed: usize) -> Stride {
    Stride { at, was: at, heading, speed }
}

fn whole(at: (i128, i128)) -> Spot {
    Spot { low: at, high: at }
}

fn three_discs(at: (usize, usize), was: (usize, usize), size: usize, old_size: usize, color: (u8, u8, u8)) -> Vec<Pixel> {
    let mut pixels = dc_pixels(at, size, color);
    pixels.extend(dc_pixels(at, size - 1, BLACK));
    pixels.extend(dc_pixels(was, (old_size - 1).max(1), BLACK));
    pixels
}

/// A policy that leaves everything to the numbers it is made of.
struct Steady {
    delta: isize,
}

impl TreeDraw<Stride> for Steady {
    fn starting_worm(&self, screen_width: usize, screen_height: usize) -> Worm<Stride> {
        Worm::from(Stride::upward(screen_width / 2, screen_height - 1, 3), 20, GREY)
    }

    fn delta_angle(&self, _worm: &Worm<Stride>) -> Turn {
        Turn::By(0)
    }

    fn delta_size(&self, _worm: &Worm<Stride>) -> isize {
        self.delta
    }

    fn leaves(&self, _worm: &Worm<Stride>) -> Vec<Pixel> {
        Vec::new()
    }

    fn children(&self, _worm: &Worm<Stride>) -> Vec<Worm<Stride>> {
        Vec::new()
    }
}

#[test]
fn stride_rises_from_its_cell() {
    let motion = Stride::upward(5, 9, 3);
    assert_eq!((motion.at, motion.was, motion.heading, motion.speed), ((5, 9), (5, 9), 2, 3));
    assert_eq!(motion.spot().to_cell(), (5, 9));
    assert_eq!(motion.previous_spot().to_cell(), (5, 9));
}

#[test]
fn stride_moves_whole_cells_along_the_compass() {
    let steps = [(3, 0), (3, -3), (0, -3), (-3, -3), (-3, 0), (-3, 3), (0, 3), (3, 3)];
    for (heading, (dx, dy)) in steps.iter().enumerate() {
        for turns in [0u8, 8, 248] {
            let mut motion = stride((100, 100), heading as u8 + turns, 3);
            motion.advance();
            assert_eq!(motion.at, (100 + dx, 100 + dy), "heading {heading}");
            assert_eq!(motion.was, (100, 100));
            motion.advance();
            assert_eq!(motion.at, (100 + 2 * dx, 100 + 2 * dy));
            assert_eq!(motion.was, (100 + dx, 100 + dy));
        }
    }
    let mut still = stride((7, 7), 1, 0);
    still.advance();
    assert_eq!(still.at, (7, 7));
}

#[test]
fn stride_may_leave_the_grid_but_not_the_numbers() {
    let mut motion = stride((1, 1), 3, 3);
    motion.advance();
    assert_eq!(motion.at, (-2, -2));
    assert_eq!(motion.spot().to_cell(), (0, 0));
    assert!(!motion.spot().is_on_canvas(100, 100));
    let limit = 1i128 << 100;
    let mut far = stride((limit - 1, i128::MIN), 7, usize::MAX);
    far.advance();
    assert_eq!(far.at, (limit, -limit + usize::MAX as i128));
    let mut beyond = stride((i128::MAX, -limit), 3, 5);
    beyond.advance();
    assert_eq!(beyond.at, (limit - 5, -limit));
}

#[test]
fn stride_turns_by_the_nearest_eighth() {
    let turned = |heading: u8, by: i32| {
        let mut motion = stride((0, 0), heading, 1);
        motion.turn(Turn::By(by));
        assert_eq!((motion.at, motion.was, motion.speed), ((0, 0), (0, 0), 1));
        motion.heading
    };
    assert_eq!(turned(2, 0), 2);
    assert_eq!(turned(2, 300), 2);
    assert_eq!(turned(2, -300), 2);
    assert_eq!(turned(2, 392), 2);
    assert_eq!(turned(2, 393), 3);
    assert_eq!(turned(2, 400), 3);
    assert_eq!(turned(2, -392), 2);
    assert_eq!(turned(2, -393), 1);
    assert_eq!(turned(2, -400), 1);
    assert_eq!(turned(2, 785), 3);
    assert_eq!(turned(2, 1571), 4);
    assert_eq!(turned(7, 785), 0);
    assert_eq!(turned(0, -785), 7);
    assert_eq!(turned(5, 6283), 5);
    assert_eq!(turned(5, -6283), 5);
    assert_eq!(turned(13, 0), 5);
    assert_eq!(turned(250, 785), 3);
    assert!(turned(1, i32::MAX) < 8);
    assert!(turned(1, i32::MIN) < 8);
}

#[test]
fn stride_jitters_within_its_width() {
    fastrand::seed(31);
    let mut seen = std::collections::BTreeSet::new();
    for _ in 0..200 {
        let mut motion = stride((0, 0), 4, 1);
        motion.turn(Turn::Jitter(1600));
        seen.insert(motion.heading);
    }
    // at most 800 thousandths to either side: one eighth, or none
    assert_eq!(seen.into_iter().collect::<Vec<u8>>(), vec![3, 4, 5]);
    let mut motion = stride((0, 0), 4, 1);
    motion.turn(Turn::Jitter(500));
    assert_eq!(motion.heading, 4);
    motion.turn(Turn::Jitter(0));
    motion.turn(Turn::Jitter(u32::MAX));
    assert!(motion.heading < 8);
}

#[test]
fn stride_branches_from_where_it_was() {
    let mut motion = stride((50, 50), 2, 3);
    motion.advance();
    let left = motion.branch(Turn::By(400));
    assert_eq!((left.at, left.was, left.heading, left.speed), ((50, 50), (50, 50), 3, 3));
    let right = motion.branch(Turn::By(-400));
    assert_eq!((right.at, right.was, right.heading, right.speed), ((50, 50), (50, 50), 1, 3));
    assert_eq!(motion.at, (50, 47));
}

#[test]
fn stride_names_what_its_methods_answer() {
    let motion = stride((50, 50), 6, 4);
    let mut moved = motion;
    moved.advance();
    assert_eq!((moved.at, moved.was), ((50, 54), (50, 50)));
    assert_eq!(moved.spot().low, (50, 54));
    assert_eq!(moved.spot().high, (50, 54));
    assert_eq!(moved.previous_spot().low, (50, 50));
}

#[test]
fn stride_scatters_within_reach() {
    fastrand::seed(32);
    let motion = stride((0, 0), 0, 1);
    let mut seen = std::collections::BTreeSet::new();
    for _ in 0..500 {
        let (dx, dy) = motion.scatter(40);
        assert!((-40..=40).contains(&dx) && (-40..=40).contains(&dy));
        seen.insert(dx);
        seen.insert(dy);
    }
    assert!(seen.len() > 60);
    assert_eq!(motion.scatter(0), (0, 0));
    let (dx, dy) = motion.scatter(usize::MAX);
    assert!(dx.unsigned_abs() <= 0x3fff_ffff && dy.unsigned_abs() <= 0x3fff_ffff);
}

#[test]
fn stride_has_its_luck_by_the_hundred() {
    fastrand::seed(33);
    let motion = stride((0, 0), 0, 1);
    assert!((0..200).all(|_| !motion.chance(0)));
    assert!((0..200).all(|_| motion.chance(100)));
    assert!((0..200).all(|_| motion.chance(255)));
    let hits = (0..4000).filter(|_| motion.chance(18)).count();
    assert!((600..850).contains(&hits));
}

#[test]
fn settle_is_none_off_the_canvas_or_below_the_smallest_size() {
    let on = whole((12, 5));
    assert_eq!(settle(20, GREY, 10, 10, on, on, 0, Vec::new()), None);
    assert_eq!(settle(20, GREY, 12, 4, on, on, 0, Vec::new()), None);
    assert_eq!(settle(20, GREY, 12, 5, whole((-1, 5)), on, 0, Vec::new()), None);
    assert_eq!(settle(4, GREY, 100, 100, on, on, -1, Vec::new()), None);
    assert_eq!(settle(2, GREY, 100, 100, on, on, 1, vec![Pixel { x: 1, y: 1, color: GREY }]), None);
}

#[test]
fn settle_draws_leaves_then_three_discs() {
    let leaf = Pixel { x: 1, y: 2, color: (60, 12, 3) };
    let pixels = settle(5, GREY, 12, 5, whole((12, 5)), whole((12, 8)), -1, vec![leaf]).unwrap();
    let mut expected = vec![leaf];
    expected.extend(three_discs((12, 5), (12, 8), 4, 5, GREY));
    assert_eq!(pixels, expected);
    assert_eq!(pixels.len(), 1 + 45 + 21 + 45);
    let grown = settle(1, GREY, 100, 100, whole((50, 50)), whole((50, 53)), 4, Vec::new()).unwrap();
    assert_eq!(grown, three_discs((50, 50), (50, 53), 5, 1, GREY));
}

#[test]
fn offshoots_are_one_to_the_side_or_none() {
    let mut parent = Worm::from(stride((50, 50), 2, 3), 9, GREY);
    parent.motion.advance();
    parent.steps = 12;
    assert!(offshoots(&parent, None).is_empty());
    for left in [true, false] {
        let brood = offshoots(&parent, Some(left));
        assert_eq!(brood.len(), 1);
        assert_eq!((brood[0].size, brood[0].color, brood[0].steps), (9, GREY, 0));
        // three tenths of a radian are less than half an eighth of a turn
        assert_eq!((brood[0].motion.at, brood[0].motion.heading, brood[0].motion.speed), ((50, 50), 2, 3));
    }
}

#[test]
fn stock_seed_on_the_grid() {
    let worm: Worm<Stride> = stock_seed(1024, 768);
    assert_eq!((worm.motion.at, worm.motion.was, worm.motion.heading, worm.motion.speed), ((512, 767), (512, 767), 2, 3));
    assert_eq!((worm.size, worm.color, worm.steps), (20, GREY, 0));
}

#[test]
fn worm_that_walks_off_a_low_canvas_dies_and_keeps_its_size() {
    let policy = Steady { delta: 0 };
    let mut worm = Worm::from(stride((5, 9), 6, 3), 20, GREY);
    assert!(worm_step(&policy, &mut worm, 100, 10).is_none());
    assert_eq!((worm.motion.at, worm.motion.was), ((5, 12), (5, 9)));
    assert_eq!((worm.size, worm.steps), (20, 1));
    let mut worm = Worm::from(stride((5, 9), 6, 3), 20, GREY);
    assert!(worm_step(&policy, &mut worm, 100, 12).is_some());
}

#[test]
fn worm_of_size_five_on_the_grid_dies_in_its_second_step() {
    let policy = Steady { delta: -1 };
    let mut worm = Worm::from(stride((100, 100), 0, 3), 5, GREY);
    let first = worm_step(&policy, &mut worm, 1000, 1000).unwrap();
    assert_eq!((worm.size, worm.motion.at), (4, (103, 100)));
    assert_eq!(first.pixels.len(), 45 + 21 + 45);
    assert_eq!(first.pixels, three_discs((103, 100), (100, 100), 4, 5, GREY));
    assert!(first.new_worms.is_empty());
    assert!(worm_step(&policy, &mut worm, 1000, 1000).is_none());
    assert_eq!((worm.size, worm.motion.at, worm.steps), (3, (106, 100), 2));
}

#[test]
fn symmetric_worm_of_size_six_draws_247_pixels() {
    let mut worm = Worm::from(stride((100, 100), 0, 3), 6, GREY);
    let result = worm_step(&SymmetricTreeDraw, &mut worm, 1000, 1000).unwrap();
    assert_eq!(result.pixels.len(), 109 + 69 + 69);
    assert!(result.pixels[..109].iter().all(|p| p.color == GREY));
    assert!(result.pixels[109..].iter().all(|p| p.color == BLACK));
    assert!(result.new_worms.is_empty());
    assert_eq!((worm.motion.at, worm.size), ((103, 100), 6));
}

#[test]
fn symmetric_tree_on_a_wide_grid_lives_its_whole_span() {
    let batches = steps::<Stride, _>(&SymmetricTreeDraw, 1000, 1000);
    assert_eq!(batches.len(), 170);
    assert_eq!(batches[0], three_discs((500, 996), (500, 999), 20, 20, GREY));
    assert!(batches[..169].iter().all(|batch| !batch.is_empty()));
    assert!(batches[169].is_empty());
}

#[test]
fn symmetric_tree_on_a_narrow_grid_ends_when_the_seed_walks_off() {
    // the seed climbs from row 99 to row 0 in 33 steps and leaves in the next;
    // its two offshoots of step 30 walk off the sides two steps later
    let batches = steps::<Stride, _>(&SymmetricTreeDraw, 10, 100);
    assert_eq!(batches.len(), 34);
    assert!(batches[..33].iter().all(|batch| !batch.is_empty()));
    assert!(batches[33].is_empty());
    let at_birth = batches[29].len();
    let with_offshoots = batches[30].len();
    assert!(with_offshoots > 2 * at_birth);
    assert!(batches[32].len() < with_offshoots);
}

#[test]
fn symmetric_forks_head_an_eighth_to_either_side() {
    let mut worm = Worm::from(stride((50, 50), 2, 3), 20, GREY);
    worm.motion.advance();
    worm.steps = 30;
    let brood = SymmetricTreeDraw.children(&worm);
    assert_eq!(brood.len(), 2);
    assert_eq!((brood[0].motion.at, brood[0].motion.heading), ((50, 50), 3));
    assert_eq!((brood[1].motion.at, brood[1].motion.heading), ((50, 50), 1));
    let batches = grow(&SymmetricTreeDraw, Worm::from(stride((50, 50), 2, 3), 3, GREY), 100, 100);
    assert_eq!(batches, vec![Vec::<Pixel>::new()]);
}
