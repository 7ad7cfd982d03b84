use rand::distributions::{Distribution, WeightedIndex};
use rand::Rng;
use randomwalks_lib::arithmetic::Arithmetic;
use randomwalks_lib::dataset::point::XYPoint;
use randomwalks_lib::dp::builder::DynamicProgramBuilder;
use randomwalks_lib::dp::{DynamicProgramPool, DynamicPrograms};
use randomwalks_lib::kernel::correlated_rw::CorrelatedRwGenerator;
use randomwalks_lib::kernel::levy_walk::LevyWalkGenerator;
use randomwalks_lib::kernel::simple_rw::SimpleRwGenerator;
use randomwalks_lib::kernel::Kernel;
use randomwalks_lib::walk::Walk;
use randomwalks_lib::walker::correlated::{stencil_moves, variant_after, CorrelatedWalker};
use randomwalks_lib::walker::land_cover::LandCoverWalker;
use randomwalks_lib::walker::levy::{cross_moves, LevyWalker};
use randomwalks_lib::walker::multi_step::{square_moves, MultiStepWalker};
use randomwalks_lib::walker::standard::{neighbour, StandardWalker};
use randomwalks_lib::walker::{
    assemble, conclude, draw, is_all_null, is_reached, layer_at_or, picked, reweigh, step_back,
    weigh, Sampler, Walker, WalkerError, WalkerType,
};
use std::collections::HashMap;

/// IEEE-754 doubles, carried as their bit patterns.
struct Ieee;

impl Arithmetic for Ieee {
    fn fraction(n: u32, d: u32) -> u64 {
        (n as f64 / d as f64).to_bits()
    }

    fn vanishes(w: u64) -> bool {
        f64::from_bits(w) == 0.0
    }

    fn sum(a: u64, b: u64) -> u64 {
        (f64::from_bits(a) + f64::from_bits(b)).to_bits()
    }

    fn difference(a: u64, b: u64) -> u64 {
        (f64::from_bits(a) - f64::from_bits(b)).to_bits()
    }

    fn product(a: u64, b: u64) -> u64 {
        (f64::from_bits(a) * f64::from_bits(b)).to_bits()
    }

    fn quotient(a: u64, b: u64) -> u64 {
        (f64::from_bits(a) / f64::from_bits(b)).to_bits()
    }

    fn ratio(n: u32, d: u32) -> u64 {
        Self::fraction(n, d)
    }

    fn is_zero(w: u64) -> bool {
        Self::vanishes(w)
    }

    fn plus(a: u64, b: u64) -> u64 {
        Self::sum(a, b)
    }

    fn minus(a: u64, b: u64) -> u64 {
        Self::difference(a, b)
    }

    fn times(a: u64, b: u64) -> u64 {
        Self::product(a, b)
    }

    fn over(a: u64, b: u64) -> u64 {
        Self::quotient(a, b)
    }
}

fn bits(v: f64) -> u64 {
    v.to_bits()
}

fn val(w: u64) -> f64 {
    f64::from_bits(w)
}

/// Draws with the thread's random number generator.
struct ThreadSampler;

impl Sampler for ThreadSampler {
    fn pick(&mut self, weights: &Vec<u64>) -> Option<usize> {
        let weights: Vec<f64> = weights.iter().map(|w| f64::from_bits(*w)).collect();
        match WeightedIndex::new(weights) {
            Ok(distribution) => Some(distribution.sample(&mut rand::thread_rng())),
            Err(_) => None,
        }
    }

    fn chance(&mut self, probability: u64) -> bool {
        rand::thread_rng().gen_range(0f64..1f64) <= f64::from_bits(probability)
    }
}

/// Always draws the first candidate whose weight is greater than zero, and
/// jumps if `jumps`.
struct FirstSampler {
    jumps: bool,
}

impl Sampler for FirstSampler {
    fn pick(&mut self, weights: &Vec<u64>) -> Option<usize> {
        weights.iter().position(|w| f64::from_bits(*w) > 0.0)
    }

    fn chance(&mut self, _probability: u64) -> bool {
        self.jumps
    }
}

/// Answers every draw with the same index.
struct StubbornSampler {
    answer: Option<usize>,
}

impl Sampler for StubbornSampler {
    fn pick(&mut self, _weights: &Vec<u64>) -> Option<usize> {
        self.answer
    }

    fn chance(&mut self, _probability: u64) -> bool {
        false
    }
}

fn xy(x: i64, y: i64) -> XYPoint {
    XYPoint { x, y }
}

fn simple_rw() -> Kernel {
    Kernel::from_generator::<Ieee, _>(SimpleRwGenerator).unwrap()
}

fn simple_pool(time_limit: usize, barriers: &[(i64, i64)]) -> DynamicProgramPool {
    let mut builder = DynamicProgramBuilder::new().simple().time_limit(time_limit).kernel(simple_rw());
    for (x, y) in barriers {
        builder = builder.add_single_barrier(xy(*x, *y));
    }
    let mut pool = builder.build::<Ieee>().unwrap();
    pool.compute::<Ieee>();
    pool
}

fn correlated_kernels() -> Vec<Kernel> {
    Kernel::multiple_from_generator::<Ieee, _>(CorrelatedRwGenerator { persistence: bits(0.5) })
        .unwrap()
}

fn correlated_pool(time_limit: usize) -> DynamicProgramPool {
    let mut pool = DynamicProgramBuilder::new()
        .multi()
        .time_limit(time_limit)
        .kernels(correlated_kernels())
        .build::<Ieee>()
        .unwrap();
    pool.compute::<Ieee>();
    pool
}

fn levy_pool(time_limit: usize) -> DynamicProgramPool {
    let mut pool = DynamicProgramBuilder::new()
        .simple()
        .time_limit(time_limit)
        .kernel(Kernel::from_generator::<Ieee, _>(LevyWalkGenerator {}).unwrap())
        .build::<Ieee>()
        .unwrap();
    pool.compute::<Ieee>();
    pool
}

/// Checks that `walk` leads from the origin to `(to_x, to_y)` in `time_steps`
/// steps of at most `reach` cells along either axis.
fn check_walk(walk: &Walk, to_x: i64, to_y: i64, time_steps: usize, reach: i64) {
    assert_eq!(walk.len(), time_steps + 1);
    assert_eq!(walk.0[0], xy(0, 0));
    assert_eq!(walk.0[time_steps], xy(to_x, to_y));
    for pair in walk.0.windows(2) {
        assert!((pair[1].x - pair[0].x).abs() <= reach);
        assert!((pair[1].y - pair[0].y).abs() <= reach);
    }
}

/// Checks that every point of `walk` held mass at its time in `pool`.
fn check_support(walk: &Walk, pool: &DynamicProgramPool) {
    let dp = pool.try_unwrap().unwrap();
    for (t, point) in walk.iter().enumerate() {
        assert!(val(dp.at(point.x as isize, point.y as isize, t)) > 0.0);
    }
}

#[test]
fn standard_walks_lead_from_the_origin_to_the_target() {
    let pool = simple_pool(12, &[]);
    let walker = StandardWalker::new();

    for (to_x, to_y, time_steps) in [(3, -2, 12), (0, 0, 12), (5, 5, 10), (0, 0, 0), (1, 0, 1), (-4, 0, 4)] {
        for _ in 0..20 {
            let walk = walker
                .generate_path::<Ieee, _>(&pool, to_x, to_y, time_steps, &mut ThreadSampler)
                .unwrap();
            check_walk(&walk, to_x as i64, to_y as i64, time_steps, 1);
            check_support(&walk, &pool);
            for pair in walk.0.windows(2) {
                assert!((pair[1].x - pair[0].x).abs() + (pair[1].y - pair[0].y).abs() <= 1);
            }
        }
    }
}

#[test]
fn there_is_one_way_straight_out() {
    let pool = simple_pool(4, &[]);

    let walk = StandardWalker
        .generate_path::<Ieee, _>(&pool, 0, -4, 4, &mut ThreadSampler)
        .unwrap();

    assert_eq!(walk, Walk(vec![xy(0, 0), xy(0, -1), xy(0, -2), xy(0, -3), xy(0, -4)]));
}

#[test]
fn targets_without_mass_have_no_path() {
    let pool = simple_pool(6, &[(2, 0), (0, 3)]);
    let multi = correlated_pool(6);
    let far = simple_rw();

    for _ in 0..10 {
        for (to_x, to_y, time_steps) in [(3, 3, 5), (2, 0, 4), (0, 3, 6), (1, 0, 0), (6, 6, 6)] {
            assert_eq!(
                StandardWalker.generate_path::<Ieee, _>(&pool, to_x, to_y, time_steps, &mut ThreadSampler),
                Err(WalkerError::NoPathExists)
            );
            assert_eq!(
                MultiStepWalker::new(1, far.clone())
                    .generate_path::<Ieee, _>(&pool, to_x, to_y, time_steps, &mut ThreadSampler),
                Err(WalkerError::NoPathExists)
            );
            assert_eq!(
                LevyWalker::new(bits(0.5), 1, far.clone())
                    .generate_path::<Ieee, _>(&pool, to_x, to_y, time_steps, &mut ThreadSampler),
                Err(WalkerError::NoPathExists)
            );
        }
        assert_eq!(
            CorrelatedWalker::new(correlated_kernels())
                .generate_path::<Ieee, _>(&multi, 4, 3, 6, &mut ThreadSampler),
            Err(WalkerError::NoPathExists)
        );
    }
}

#[test]
fn walkers_refuse_the_wrong_kind_of_program() {
    let single = simple_pool(3, &[]);
    let multi = correlated_pool(3);

    assert_eq!(
        StandardWalker.generate_path::<Ieee, _>(&multi, 0, 0, 3, &mut ThreadSampler),
        Err(WalkerError::RequiresSingleDynamicProgram)
    );
    assert_eq!(
        MultiStepWalker::new(1, simple_rw())
            .generate_path::<Ieee, _>(&multi, 0, 0, 3, &mut ThreadSampler),
        Err(WalkerError::RequiresSingleDynamicProgram)
    );
    assert_eq!(
        LevyWalker::new(bits(0.1), 1, simple_rw())
            .generate_path::<Ieee, _>(&multi, 0, 0, 3, &mut ThreadSampler),
        Err(WalkerError::RequiresSingleDynamicProgram)
    );
    assert_eq!(
        LandCoverWalker::new(HashMap::from([(0, 1)]), vec![vec![0; 7]; 7], simple_rw())
            .generate_path::<Ieee, _>(&multi, 0, 0, 3, &mut ThreadSampler),
        Err(WalkerError::RequiresSingleDynamicProgram)
    );
    assert_eq!(
        CorrelatedWalker::new(correlated_kernels())
            .generate_path::<Ieee, _>(&single, 0, 0, 3, &mut ThreadSampler),
        Err(WalkerError::RequiresMultipleDynamicPrograms)
    );
}

#[test]
fn a_walker_for_another_table_finds_no_consistent_path() {
    let mut pool = simple_pool(3, &[]);
    if let DynamicProgramPool::Single(dp) = &mut pool {
        for x in -3..=3 {
            for y in -3..=3 {
                dp.set(x, y, 1, 0);
            }
        }
    }

    for _ in 0..10 {
        assert_eq!(
            StandardWalker.generate_path::<Ieee, _>(&pool, 1, 1, 3, &mut ThreadSampler),
            Err(WalkerError::InconsistentPath)
        );
    }
}

#[test]
fn a_way_that_misses_the_origin_is_inconsistent() {
    let mut pool = simple_pool(2, &[]);
    if let DynamicProgramPool::Single(dp) = &mut pool {
        dp.set(0, 0, 0, 0);
        dp.set(1, 0, 0, bits(1.0));
    }

    assert_eq!(
        StandardWalker.generate_path::<Ieee, _>(&pool, 1, 0, 1, &mut ThreadSampler),
        Err(WalkerError::InconsistentPath)
    );
    assert_eq!(
        StandardWalker.generate_path::<Ieee, _>(&pool, 1, 0, 0, &mut ThreadSampler),
        Err(WalkerError::InconsistentPath)
    );
}

#[test]
fn a_failing_draw_is_an_error_of_the_distribution() {
    let pool = simple_pool(3, &[]);

    assert_eq!(
        StandardWalker
            .generate_path::<Ieee, _>(&pool, 1, 1, 3, &mut StubbornSampler { answer: None }),
        Err(WalkerError::RandomDistributionError)
    );
    assert_eq!(
        StandardWalker
            .generate_path::<Ieee, _>(&pool, 1, 1, 3, &mut StubbornSampler { answer: Some(5) }),
        Err(WalkerError::RandomDistributionError)
    );
    assert_eq!(
        StandardWalker
            .generate_path::<Ieee, _>(&pool, 3, 0, 3, &mut StubbornSampler { answer: Some(0) }),
        Err(WalkerError::RandomDistributionError)
    );
    assert_eq!(
        StandardWalker
            .generate_path::<Ieee, _>(&pool, 3, 0, 3, &mut StubbornSampler { answer: Some(1) }),
        Ok(Walk(vec![xy(0, 0), xy(1, 0), xy(2, 0), xy(3, 0)]))
    );
    assert_eq!(
        StandardWalker
            .generate_path::<Ieee, _>(&pool, 0, 0, 3, &mut StubbornSampler { answer: Some(0) }),
        Ok(Walk(vec![xy(0, 0); 4]))
    );
}

#[test]
fn draws_are_checked() {
    let weights = vec![bits(0.0), bits(0.25), bits(0.0), bits(0.75)];
    let nothing = vec![bits(0.0), 0, bits(-0.0)];

    assert!(!is_all_null::<Ieee>(&weights));
    assert!(is_all_null::<Ieee>(&nothing));
    assert!(is_all_null::<Ieee>(&Vec::new()));
    assert_eq!(
        draw::<Ieee, _>(&nothing, &nothing, &nothing, &mut StubbornSampler { answer: Some(1) }),
        Err(WalkerError::InconsistentPath)
    );
    assert_eq!(
        draw::<Ieee, _>(&weights, &weights, &weights, &mut StubbornSampler { answer: Some(3) }),
        Ok(3)
    );
    assert_eq!(
        draw::<Ieee, _>(&weights, &weights, &weights, &mut StubbornSampler { answer: Some(2) }),
        Err(WalkerError::RandomDistributionError)
    );
    assert_eq!(
        draw::<Ieee, _>(&weights, &weights, &weights, &mut StubbornSampler { answer: Some(4) }),
        Err(WalkerError::RandomDistributionError)
    );
    assert_eq!(
        draw::<Ieee, _>(&weights, &weights, &weights, &mut StubbornSampler { answer: None }),
        Err(WalkerError::RandomDistributionError)
    );
    assert_eq!(draw::<Ieee, _>(&weights, &weights, &weights, &mut FirstSampler { jumps: false }), Ok(1));
    for _ in 0..50 {
        let drawn = draw::<Ieee, _>(&weights, &weights, &weights, &mut ThreadSampler).unwrap();
        assert!(drawn == 1 || drawn == 3);
    }
}

#[test]
fn weights_are_reweighed_forward_mass() {
    assert_eq!(val(reweigh::<Ieee>(bits(0.2), bits(0.5), bits(0.25))), 0.2 * 0.5 / 0.25);
    assert_eq!(val(reweigh::<Ieee>(bits(0.2), bits(0.0), bits(0.25))), 0.0);
    assert!(val(reweigh::<Ieee>(bits(0.2), bits(0.0), bits(0.0))).is_nan());

    let layer = vec![vec![1, 2, 3], vec![4, 5, 6], vec![7, 8, 9]];
    assert_eq!(layer_at_or(&layer, 1, 0, 0), 5);
    assert_eq!(layer_at_or(&layer, 1, -1, 1), 3);
    assert_eq!(layer_at_or(&layer, 1, 1, -1), 7);
    assert_eq!(layer_at_or(&layer, 1, 2, 0), 0);
    assert_eq!(layer_at_or(&layer, 1, 0, -2), 0);
}

#[test]
fn one_step_back_weighs_every_candidate() {
    let pool = simple_pool(2, &[]);
    let dp = pool.try_unwrap().unwrap();
    let kernel = simple_rw();
    let moves = stencil_moves();

    assert_eq!(moves, vec![(0, 0), (-1, 0), (0, -1), (1, 0), (0, 1)]);
    // From (2, 0) at time 2 only the step back to the west finds mass.
    assert_eq!(
        step_back::<Ieee, _>(&dp.table[1], &dp.table[2], 2, &kernel, &moves, false, 2, 0, &mut ThreadSampler),
        Ok(1)
    );
    // The cell (2, 2) holds nothing at time 2, so its weights are no numbers.
    assert_eq!(
        step_back::<Ieee, _>(&dp.table[1], &dp.table[2], 2, &kernel, &moves, false, 2, 2, &mut ThreadSampler),
        Err(WalkerError::RandomDistributionError)
    );
    // Before an empty layer every weight is zero.
    let empty = vec![vec![0u64; 5]; 5];
    assert_eq!(
        step_back::<Ieee, _>(&empty, &dp.table[2], 2, &kernel, &moves, false, 0, 0, &mut ThreadSampler),
        Err(WalkerError::InconsistentPath)
    );
    // (1, 1) at time 2 can be left to the west and to the north.
    for _ in 0..20 {
        let chosen = step_back::<Ieee, _>(
            &dp.table[1], &dp.table[2], 2, &kernel, &moves, true, 1, 1, &mut ThreadSampler,
        )
        .unwrap();
        assert!(chosen == 1 || chosen == 2);
    }
}

#[test]
fn walks_are_assembled_from_the_way_back() {
    assert_eq!(assemble(&Vec::new()), Walk(vec![xy(0, 0)]));
    assert_eq!(
        assemble(&vec![xy(2, 1), xy(1, 1), xy(1, 0)]),
        Walk(vec![xy(0, 0), xy(1, 0), xy(1, 1), xy(2, 1)])
    );
}

#[test]
fn multi_step_walks_may_jump() {
    let pool = levy_pool(12);
    let kernel = Kernel::from_generator::<Ieee, _>(LevyWalkGenerator {}).unwrap();
    let walker = MultiStepWalker::new(10, kernel);
    let mut jumped = false;

    for _ in 0..30 {
        let walk = walker.generate_path::<Ieee, _>(&pool, 11, 1, 3, &mut ThreadSampler).unwrap();
        check_walk(&walk, 11, 1, 3, 10);
        check_support(&walk, &pool);
        jumped |= walk.0.windows(2).any(|p| (p[1].x - p[0].x).abs() == 10);
    }
    assert!(jumped);
    assert_eq!(square_moves(0), vec![(0, 0)]);
    assert_eq!(
        square_moves(1),
        vec![(-1, -1), (-1, 0), (-1, 1), (0, -1), (0, 0), (0, 1), (1, -1), (1, 0), (1, 1)]
    );
    assert_eq!(square_moves(10).len(), 441);
    assert_eq!(square_moves(10)[0], (-10, -10));
    assert_eq!(square_moves(10)[20], (-10, 10));
    assert_eq!(square_moves(10)[21], (-9, -10));
    assert_eq!(square_moves(10)[440], (10, 10));
    assert_eq!(
        square_moves(2),
        (-2..=2).flat_map(|dx| (-2..=2).map(move |dy| (dx, dy))).collect::<Vec<(isize, isize)>>()
    );
}

#[test]
fn multi_step_walks_of_one_cell_are_standard_walks() {
    let pool = simple_pool(8, &[(1, 0), (1, 1)]);
    let walker = MultiStepWalker::new(1, simple_rw());

    for _ in 0..20 {
        let walk = walker.generate_path::<Ieee, _>(&pool, 3, 2, 8, &mut ThreadSampler).unwrap();
        check_walk(&walk, 3, 2, 8, 1);
        check_support(&walk, &pool);
        assert!(!walk.0.contains(&xy(1, 0)));
        assert!(!walk.0.contains(&xy(1, 1)));
    }
}

#[test]
fn levy_walks_jump_when_the_sampler_says_so() {
    let pool = levy_pool(12);
    let kernel = Kernel::from_generator::<Ieee, _>(LevyWalkGenerator {}).unwrap();
    let walker = LevyWalker::new(bits(0.5), 10, kernel);

    assert_eq!(
        walker.generate_path::<Ieee, _>(&pool, 10, 0, 1, &mut FirstSampler { jumps: true }),
        Ok(Walk(vec![xy(0, 0), xy(10, 0)]))
    );
    assert_eq!(
        walker.generate_path::<Ieee, _>(&pool, 10, 0, 1, &mut FirstSampler { jumps: false }),
        Err(WalkerError::InconsistentPath)
    );
    assert_eq!(
        walker.generate_path::<Ieee, _>(&pool, 0, 0, 2, &mut FirstSampler { jumps: false }),
        Ok(Walk(vec![xy(0, 0), xy(-1, 0), xy(0, 0)]))
    );
    for _ in 0..30 {
        match walker.generate_path::<Ieee, _>(&pool, 10, 1, 4, &mut ThreadSampler) {
            Ok(walk) => {
                check_walk(&walk, 10, 1, 4, 10);
                check_support(&walk, &pool);
            }
            Err(e) => assert_eq!(e, WalkerError::InconsistentPath),
        }
    }
    assert_eq!(cross_moves(1), vec![(-1, 0), (0, -1), (1, 0), (0, 1), (0, 0)]);
    assert_eq!(cross_moves(10), vec![(-10, 0), (0, -10), (10, 0), (0, 10)]);
}

#[test]
fn land_cover_sets_the_longest_step() {
    let pool = simple_pool(6, &[]);
    let mut land_cover = vec![vec![1usize; 13]; 13];
    let walker = LandCoverWalker::new(
        HashMap::from([(0, 0), (1, 1)]),
        land_cover.clone(),
        simple_rw(),
    );
    for _ in 0..20 {
        let walk = walker.generate_path::<Ieee, _>(&pool, 2, -1, 6, &mut ThreadSampler).unwrap();
        check_walk(&walk, 2, -1, 6, 1);
        check_support(&walk, &pool);
    }

    // Water allows no step, and the column of the target is all water.
    land_cover[6 + 2] = vec![0; 13];
    let stuck = LandCoverWalker::new(HashMap::from([(0, 0), (1, 1)]), land_cover, simple_rw());
    assert_eq!(
        stuck.generate_path::<Ieee, _>(&pool, 2, -1, 6, &mut ThreadSampler),
        Err(WalkerError::InconsistentPath)
    );
    let walk = stuck.generate_path::<Ieee, _>(&pool, 0, 0, 0, &mut ThreadSampler).unwrap();
    assert_eq!(walk, Walk(vec![xy(0, 0)]));
}

#[test]
fn correlated_walks_lead_from_the_origin_to_the_target() {
    let pool = correlated_pool(10);
    let walker = CorrelatedWalker::new(correlated_kernels());
    let mut found = 0;

    for _ in 0..2000 {
        match walker.generate_path::<Ieee, _>(&pool, 2, 1, 10, &mut ThreadSampler) {
            Ok(walk) => {
                check_walk(&walk, 2, 1, 10, 1);
                for pair in walk.0.windows(2) {
                    assert!((pair[1].x - pair[0].x).abs() + (pair[1].y - pair[0].y).abs() <= 1);
                }
                found += 1;
            }
            Err(e) => assert!(
                e == WalkerError::InconsistentPath || e == WalkerError::RandomDistributionError
            ),
        }
    }
    assert!(found > 0);
    assert_eq!(
        walker.generate_path::<Ieee, _>(&pool, 0, 0, 0, &mut ThreadSampler),
        Ok(Walk(vec![xy(0, 0)]))
    );
}

#[test]
fn the_last_step_of_a_correlated_walk_never_goes_north() {
    // The step that leads to the target is drawn among staying and the steps
    // back to the west, the north and the east.  A walk of one step to the
    // cell north of the origin would need the step back to the south.
    let pool = correlated_pool(2);
    let walker = CorrelatedWalker::new(correlated_kernels());
    let mut east = 0;

    for _ in 0..100 {
        assert_eq!(
            walker.generate_path::<Ieee, _>(&pool, 0, -1, 1, &mut ThreadSampler),
            Err(WalkerError::InconsistentPath)
        );
        match walker.generate_path::<Ieee, _>(&pool, 1, 0, 1, &mut ThreadSampler) {
            Ok(walk) => {
                assert_eq!(walk, Walk(vec![xy(0, 0), xy(1, 0)]));
                east += 1;
            }
            Err(e) => assert_eq!(e, WalkerError::InconsistentPath),
        }
    }
    assert!(east > 0);
    assert!(east < 100);
}

#[test]
fn the_table_after_a_step_is_that_of_its_direction() {
    assert_eq!(variant_after(0), 4);
    assert_eq!(variant_after(1), 1);
    assert_eq!(variant_after(2), 0);
    assert_eq!(variant_after(3), 3);
    assert_eq!(variant_after(4), 2);
}

#[test]
fn several_walks_are_sampled_one_by_one() {
    let pool = simple_pool(6, &[]);

    let walks = Walker::<Ieee>::generate_paths(&StandardWalker, &pool, 7, 2, 2, 6, &mut ThreadSampler)
        .unwrap();
    assert_eq!(walks.len(), 7);
    for walk in walks.iter() {
        check_walk(walk, 2, 2, 6, 1);
    }
    assert_eq!(
        Walker::<Ieee>::generate_paths(&StandardWalker, &pool, 0, 6, 6, 6, &mut ThreadSampler),
        Ok(Vec::new())
    );
    assert_eq!(
        Walker::<Ieee>::generate_paths(&StandardWalker, &pool, 3, 6, 6, 6, &mut ThreadSampler),
        Err(WalkerError::NoPathExists)
    );

    let any = WalkerType::MultiStep(MultiStepWalker::new(1, simple_rw()));
    let walks = any.generate_paths::<Ieee, _>(&pool, 3, -1, 0, 5, &mut ThreadSampler).unwrap();
    assert_eq!(walks.len(), 3);
    for walk in walks.iter() {
        check_walk(walk, -1, 0, 5, 1);
    }
    let walk = Walker::<Ieee>::generate_path(
        &WalkerType::Standard(StandardWalker),
        &pool,
        0,
        1,
        1,
        &mut ThreadSampler,
    );
    assert_eq!(walk, Ok(Walk(vec![xy(0, 0), xy(0, 1)])));
}

#[test]
fn walkers_have_names() {
    assert_eq!(Walker::<Ieee>::name(&StandardWalker, true), "swg");
    assert_eq!(Walker::<Ieee>::name(&StandardWalker, false), "Standard Walker");
    assert_eq!(CorrelatedWalker::new(Vec::new()).name(true), "cwg");
    assert_eq!(CorrelatedWalker::new(Vec::new()).name(false), "Correlated Walker");
    assert_eq!(MultiStepWalker::new(1, simple_rw()).name(true), "msw");
    assert_eq!(MultiStepWalker::new(1, simple_rw()).name(false), "Multi Step Walker");
    assert_eq!(LevyWalker::new(0, 1, simple_rw()).name(true), "lw");
    assert_eq!(LevyWalker::new(0, 1, simple_rw()).name(false), "Lévy Walker");
    let land = LandCoverWalker::new(HashMap::new(), Vec::new(), simple_rw());
    assert_eq!(land.name(true), "lcw");
    assert_eq!(land.name(false), "Land Cover Walker");
    assert_eq!(WalkerType::Levy(LevyWalker::new(0, 1, simple_rw())).name(true), "lw");
}

#[test]
fn walkers_say_whether_they_suit_a_program() {
    let pool = simple_pool(3, &[]);
    let multi = correlated_pool(3);
    let levy = Kernel::from_generator::<Ieee, _>(LevyWalkGenerator {}).unwrap();
    let even = Kernel { probabilities: vec![vec![0; 2]; 2], name: ("".into(), "".into()) };

    assert!(is_reached(&pool, 3, -3, 3));
    assert!(is_reached(&multi, 0, 0, 0));
    assert!(!is_reached(&pool, 4, 0, 3));
    assert!(!is_reached(&pool, 0, -4, 3));
    assert!(!is_reached(&pool, 0, 0, 4));

    assert!(MultiStepWalker::new(1, simple_rw()).is_suited(3));
    assert!(MultiStepWalker::new(0, simple_rw()).is_suited(3));
    assert!(!MultiStepWalker::new(2, simple_rw()).is_suited(3));
    assert!(MultiStepWalker::new(10, levy.clone()).is_suited(3));
    assert!(!MultiStepWalker::new(1, even.clone()).is_suited(3));

    assert!(LevyWalker::new(bits(0.5), 10, levy.clone()).is_suited(3));
    assert!(LevyWalker::new(bits(0.5), 0, simple_rw()).is_suited(3));
    assert!(!LevyWalker::new(bits(0.5), 11, levy.clone()).is_suited(3));
    assert!(!LevyWalker::new(bits(0.5), 2, simple_rw()).is_suited(3));

    assert!(CorrelatedWalker::new(correlated_kernels()).is_suited(&multi));
    assert!(CorrelatedWalker::new(Vec::new()).is_suited(&pool));
    assert!(!CorrelatedWalker::new(Vec::new()).is_suited(&multi));
    assert!(!CorrelatedWalker::new(vec![even.clone(); 5]).is_suited(&multi));
    let mut four = correlated_kernels();
    four.pop();
    assert!(!CorrelatedWalker::new(four).is_suited(&multi));

    let sizes = HashMap::from([(0, 0), (1, 1)]);
    let raster = vec![vec![1usize; 7]; 7];
    assert!(LandCoverWalker::new(sizes.clone(), raster.clone(), simple_rw()).is_suited(3));
    assert!(!LandCoverWalker::new(sizes.clone(), raster.clone(), simple_rw()).is_suited(4));
    assert!(LandCoverWalker::new(sizes.clone(), vec![vec![0usize; 9]; 9], simple_rw()).is_suited(3));
    assert!(!LandCoverWalker::new(sizes.clone(), vec![vec![2usize; 7]; 7], simple_rw()).is_suited(3));
    assert!(!LandCoverWalker::new(HashMap::from([(1, 2)]), raster.clone(), simple_rw()).is_suited(3));
    assert!(LandCoverWalker::new(HashMap::from([(1, 2)]), raster.clone(), levy).is_suited(3));
    assert!(!LandCoverWalker::new(sizes.clone(), raster.clone(), even).is_suited(3));
    let mut ragged = raster;
    ragged[6].pop();
    assert!(!LandCoverWalker::new(sizes, ragged, simple_rw()).is_suited(3));
}

#[test]
fn every_walker_samples_several_walks() {
    let pool = simple_pool(6, &[]);
    let multi = correlated_pool(6);
    let levy = Kernel::from_generator::<Ieee, _>(LevyWalkGenerator {}).unwrap();

    assert_eq!(
        StandardWalker.generate_paths::<Ieee, _>(&pool, 0, 6, 6, 6, &mut ThreadSampler),
        Ok(Vec::new())
    );
    assert_eq!(
        StandardWalker.generate_paths::<Ieee, _>(&pool, 2, 6, 6, 6, &mut ThreadSampler),
        Err(WalkerError::NoPathExists)
    );
    assert_eq!(
        StandardWalker.generate_paths::<Ieee, _>(&multi, 2, 0, 0, 6, &mut ThreadSampler),
        Err(WalkerError::RequiresSingleDynamicProgram)
    );
    assert_eq!(
        StandardWalker.generate_paths::<Ieee, _>(&multi, 0, 0, 0, 6, &mut ThreadSampler),
        Ok(Vec::new())
    );
    for walk in StandardWalker
        .generate_paths::<Ieee, _>(&pool, 4, 1, -2, 6, &mut ThreadSampler)
        .unwrap()
    {
        check_walk(&walk, 1, -2, 6, 1);
        check_support(&walk, &pool);
    }

    let multi_step = MultiStepWalker::new(1, simple_rw());
    let walks = multi_step.generate_paths::<Ieee, _>(&pool, 3, 2, 0, 4, &mut ThreadSampler).unwrap();
    assert_eq!(walks.len(), 3);
    for walk in walks.iter() {
        check_walk(walk, 2, 0, 4, 1);
    }
    assert_eq!(
        multi_step.generate_paths::<Ieee, _>(&multi, 1, 2, 0, 4, &mut ThreadSampler),
        Err(WalkerError::RequiresSingleDynamicProgram)
    );

    let jumper = LevyWalker::new(bits(0.0), 10, levy);
    assert_eq!(
        jumper.generate_paths::<Ieee, _>(&levy_pool(12), 2, 0, 0, 2, &mut FirstSampler { jumps: false }),
        Ok(vec![Walk(vec![xy(0, 0), xy(-1, 0), xy(0, 0)]); 2])
    );
    assert_eq!(
        jumper.generate_paths::<Ieee, _>(&pool, 1, 6, 6, 6, &mut ThreadSampler),
        Err(WalkerError::NoPathExists)
    );

    let land = LandCoverWalker::new(HashMap::from([(0, 1)]), vec![vec![0; 13]; 13], simple_rw());
    let walks = land.generate_paths::<Ieee, _>(&pool, 2, 0, 3, 5, &mut ThreadSampler).unwrap();
    assert_eq!(walks.len(), 2);
    for walk in walks.iter() {
        check_walk(walk, 0, 3, 5, 1);
    }
    assert_eq!(
        land.generate_paths::<Ieee, _>(&pool, 0, 0, 3, 5, &mut ThreadSampler),
        Ok(Vec::new())
    );

    let correlated = CorrelatedWalker::new(correlated_kernels());
    assert_eq!(
        correlated.generate_paths::<Ieee, _>(&pool, 1, 0, 0, 2, &mut ThreadSampler),
        Err(WalkerError::RequiresMultipleDynamicPrograms)
    );
    assert_eq!(
        correlated.generate_paths::<Ieee, _>(&multi, 0, 0, 0, 2, &mut ThreadSampler),
        Ok(Vec::new())
    );
    assert_eq!(
        correlated.generate_paths::<Ieee, _>(&multi, 3, 0, 0, 0, &mut ThreadSampler),
        Ok(vec![Walk(vec![xy(0, 0)]); 3])
    );

    let any = WalkerType::Correlated(correlated);
    assert_eq!(
        any.generate_path::<Ieee, _>(&pool, 0, 0, 2, &mut ThreadSampler),
        Err(WalkerError::RequiresMultipleDynamicPrograms)
    );
    assert_eq!(
        WalkerType::Standard(StandardWalker).generate_path::<Ieee, _>(&pool, 6, 6, 6, &mut ThreadSampler),
        Err(WalkerError::NoPathExists)
    );
    assert_eq!(any.name(true), "cwg");
    assert_eq!(any.name(false), "Correlated Walker");
    assert_eq!(WalkerType::Standard(StandardWalker).name(false), "Standard Walker");
    assert_eq!(WalkerType::MultiStep(multi_step).name(false), "Multi Step Walker");
    assert_eq!(WalkerType::Levy(jumper).name(false), "Lévy Walker");
    assert_eq!(WalkerType::LandCover(land).name(true), "lcw");
}

#[test]
fn the_answer_of_the_sampler_is_judged() {
    let weights = vec![bits(0.0), bits(0.25), bits(0.5), bits(0.25)];
    let masses = vec![bits(0.0), bits(0.5), bits(0.0), bits(1.0)];
    let factors = vec![bits(0.2), bits(0.2), bits(0.2), bits(0.0)];
    let nothing = vec![bits(0.0); 4];

    assert_eq!(picked::<Ieee>(&weights, &masses, &factors, Some(1)), Ok(1));
    assert_eq!(
        picked::<Ieee>(&weights, &masses, &factors, Some(0)),
        Err(WalkerError::RandomDistributionError)
    );
    assert_eq!(
        picked::<Ieee>(&weights, &masses, &factors, Some(2)),
        Err(WalkerError::RandomDistributionError)
    );
    assert_eq!(
        picked::<Ieee>(&weights, &masses, &factors, Some(3)),
        Err(WalkerError::RandomDistributionError)
    );
    assert_eq!(
        picked::<Ieee>(&weights, &masses, &factors, Some(4)),
        Err(WalkerError::RandomDistributionError)
    );
    assert_eq!(
        picked::<Ieee>(&weights, &masses, &factors, None),
        Err(WalkerError::RandomDistributionError)
    );
    assert_eq!(picked::<Ieee>(&weights, &weights, &weights, Some(3)), Ok(3));
    assert_eq!(
        picked::<Ieee>(&weights, &masses[..2].to_vec(), &factors, Some(2)),
        Err(WalkerError::RandomDistributionError)
    );
    for drawn in [None, Some(0), Some(1), Some(9)] {
        assert_eq!(
            picked::<Ieee>(&nothing, &masses, &factors, drawn),
            Err(WalkerError::InconsistentPath)
        );
    }
    assert_eq!(
        picked::<Ieee>(&Vec::new(), &Vec::new(), &Vec::new(), Some(0)),
        Err(WalkerError::InconsistentPath)
    );
    assert_eq!(
        draw::<Ieee, _>(&weights, &masses, &factors, &mut StubbornSampler { answer: Some(1) }),
        Ok(1)
    );
    assert_eq!(
        draw::<Ieee, _>(&weights, &masses, &factors, &mut StubbornSampler { answer: Some(3) }),
        Err(WalkerError::RandomDistributionError)
    );
}

#[test]
fn candidates_are_weighed_by_kernel_and_mass() {
    let pool = simple_pool(2, &[]);
    let dp = pool.try_unwrap().unwrap();
    let kernel = simple_rw();
    let moves = square_moves(1);

    let (weights, masses, factors) =
        weigh::<Ieee>(&dp.table[1], &dp.table[2], 2, &kernel, &moves, false, 1, 0);

    assert_eq!(weights.len(), 9);
    for (i, (dx, dy)) in moves.iter().enumerate() {
        let mass = dp.at_or(1 + dx, dy + 0, 1, 0);
        let factor = kernel.at(*dx, *dy);
        assert_eq!(masses[i], mass);
        assert_eq!(factors[i], factor);
        assert_eq!(val(weights[i]), val(factor) * val(mass) / val(dp.at(1, 0, 2)));
    }
    // The cell above the target held mass, but the kernel knows no step
    // along the diagonal.
    assert_eq!(moves[0], (-1, -1));
    assert_eq!(val(masses[0]), 0.2);
    assert_eq!(val(factors[0]), 0.0);
    assert_eq!(
        step_back::<Ieee, _>(
            &dp.table[1], &dp.table[2], 2, &kernel, &moves, false, 1, 0,
            &mut StubbornSampler { answer: Some(0) },
        ),
        Err(WalkerError::RandomDistributionError)
    );
    assert_eq!(
        step_back::<Ieee, _>(
            &dp.table[1], &dp.table[2], 2, &kernel, &moves, false, 1, 0,
            &mut StubbornSampler { answer: Some(1) },
        ),
        Ok(1)
    );
    assert_eq!(
        MultiStepWalker::new(1, simple_rw())
            .generate_path::<Ieee, _>(&pool, 1, 0, 2, &mut StubbornSampler { answer: Some(0) }),
        Err(WalkerError::RandomDistributionError)
    );
}

#[test]
fn walks_of_no_step_end_where_they_start() {
    let pool = simple_pool(3, &[]);
    let levy = Kernel::from_generator::<Ieee, _>(LevyWalkGenerator {}).unwrap();
    let mut elsewhere = simple_pool(3, &[]);
    if let DynamicProgramPool::Single(dp) = &mut elsewhere {
        dp.set(2, 1, 0, bits(0.5));
    }
    let walkers = [
        WalkerType::Standard(StandardWalker),
        WalkerType::MultiStep(MultiStepWalker::new(1, simple_rw())),
        WalkerType::Levy(LevyWalker::new(bits(0.5), 10, levy)),
        WalkerType::LandCover(LandCoverWalker::new(
            HashMap::from([(0, 1)]),
            vec![vec![0; 7]; 7],
            simple_rw(),
        )),
    ];

    for walker in walkers.iter() {
        assert_eq!(
            walker.generate_path::<Ieee, _>(&pool, 0, 0, 0, &mut StubbornSampler { answer: None }),
            Ok(Walk(vec![xy(0, 0)]))
        );
        assert_eq!(
            walker.generate_path::<Ieee, _>(&pool, 2, 1, 0, &mut ThreadSampler),
            Err(WalkerError::NoPathExists)
        );
        assert_eq!(
            walker.generate_path::<Ieee, _>(&elsewhere, 2, 1, 0, &mut ThreadSampler),
            Err(WalkerError::InconsistentPath)
        );
    }
    let mut multi = correlated_pool(3);
    if let DynamicProgramPool::Multiple(dp) = &mut multi {
        for variant in 0..5 {
            dp.set(2, 1, 0, variant, bits(0.5));
        }
    }
    let correlated = CorrelatedWalker::new(correlated_kernels());
    assert_eq!(
        correlated.generate_path::<Ieee, _>(&multi, 0, 0, 0, &mut StubbornSampler { answer: None }),
        Ok(Walk(vec![xy(0, 0)]))
    );
    assert_eq!(
        correlated.generate_path::<Ieee, _>(&multi, 2, 1, 0, &mut ThreadSampler),
        Err(WalkerError::InconsistentPath)
    );
    assert_eq!(conclude(&Vec::new(), 0, 0), Ok(Walk(vec![xy(0, 0)])));
    assert_eq!(conclude(&vec![xy(1, 0)], 0, 0), Ok(Walk(vec![xy(0, 0), xy(1, 0)])));
    assert_eq!(conclude(&vec![xy(1, 0)], 0, 1), Err(WalkerError::InconsistentPath));
    assert_eq!(conclude(&Vec::new(), -1, 0), Err(WalkerError::InconsistentPath));
}

#[test]
fn a_target_without_a_way_back_is_inconsistent() {
    // The target holds mass, but neither it nor a neighbour held any a step
    // earlier, so nothing is drawn.
    let mut pool = simple_pool(3, &[]);
    if let DynamicProgramPool::Single(dp) = &mut pool {
        for (x, y) in [(1, 1), (0, 1), (1, 0), (2, 1), (1, 2)] {
            dp.set(x, y, 2, 0);
        }
    }
    let levy = Kernel::from_generator::<Ieee, _>(LevyWalkGenerator {}).unwrap();
    let walkers = [
        WalkerType::Standard(StandardWalker),
        WalkerType::MultiStep(MultiStepWalker::new(1, simple_rw())),
        WalkerType::Levy(LevyWalker::new(bits(0.5), 1, levy)),
        WalkerType::LandCover(LandCoverWalker::new(
            HashMap::from([(0, 1)]),
            vec![vec![0; 7]; 7],
            simple_rw(),
        )),
    ];

    for walker in walkers.iter() {
        for answer in [None, Some(0), Some(1), Some(7)] {
            assert_eq!(
                walker.generate_path::<Ieee, _>(&pool, 1, 1, 3, &mut StubbornSampler { answer }),
                Err(WalkerError::InconsistentPath)
            );
        }
    }
}

#[test]
fn a_program_of_the_wrong_kind_is_refused_for_any_target() {
    let single = simple_pool(3, &[]);
    let multi = correlated_pool(3);
    let off_grid = WalkerType::MultiStep(MultiStepWalker::new(
        7,
        Kernel { probabilities: vec![vec![0; 2]; 2], name: ("".into(), "".into()) },
    ));

    for (to_x, to_y, time_steps) in [(0, 0, 0), (100, -100, 3), (0, 0, 50), (isize::MAX, isize::MIN, usize::MAX)] {
        assert_eq!(
            StandardWalker.generate_path::<Ieee, _>(&multi, to_x, to_y, time_steps, &mut ThreadSampler),
            Err(WalkerError::RequiresSingleDynamicProgram)
        );
        assert_eq!(
            off_grid.generate_path::<Ieee, _>(&multi, to_x, to_y, time_steps, &mut ThreadSampler),
            Err(WalkerError::RequiresSingleDynamicProgram)
        );
        assert_eq!(
            CorrelatedWalker::new(Vec::new())
                .generate_path::<Ieee, _>(&single, to_x, to_y, time_steps, &mut ThreadSampler),
            Err(WalkerError::RequiresMultipleDynamicPrograms)
        );
        assert_eq!(
            StandardWalker.generate_paths::<Ieee, _>(&multi, 2, to_x, to_y, time_steps, &mut ThreadSampler),
            Err(WalkerError::RequiresSingleDynamicProgram)
        );
        assert!(off_grid.is_admitted(&multi, to_x, to_y, time_steps));
        assert!(!off_grid.is_admitted(&single, to_x, to_y, time_steps));
        assert!(WalkerType::Correlated(CorrelatedWalker::new(Vec::new()))
            .is_admitted(&single, to_x, to_y, time_steps));
    }
    assert_eq!(off_grid.refusal(&multi), Some(WalkerError::RequiresSingleDynamicProgram));
    assert_eq!(off_grid.refusal(&single), None);
    assert_eq!(
        WalkerType::Correlated(CorrelatedWalker::new(Vec::new())).refusal(&single),
        Some(WalkerError::RequiresMultipleDynamicPrograms)
    );
    assert_eq!(WalkerType::Correlated(CorrelatedWalker::new(Vec::new())).refusal(&multi), None);
    assert!(WalkerType::Standard(StandardWalker).is_admitted(&single, 3, -3, 3));
    assert!(!WalkerType::Standard(StandardWalker).is_admitted(&single, 4, 0, 3));
    assert!(!WalkerType::Standard(StandardWalker).is_admitted(&single, 0, 0, 4));
}

#[test]
fn the_standard_walker_moves_to_the_drawn_neighbour() {
    assert_eq!(neighbour(3, -2, 0), (3, -2));
    assert_eq!(neighbour(3, -2, 1), (2, -2));
    assert_eq!(neighbour(3, -2, 2), (3, -3));
    assert_eq!(neighbour(3, -2, 3), (4, -2));
    assert_eq!(neighbour(3, -2, 4), (3, -1));

    let pool = simple_pool(2, &[]);
    let dp = pool.try_unwrap().unwrap();
    assert_eq!(
        StandardWalker::masses(dp, 2, 0, 1),
        vec![bits(0.0), bits(0.2), bits(0.0), bits(0.0), bits(0.0)]
    );
    assert_eq!(
        StandardWalker::masses(dp, 0, -1, 1),
        vec![bits(0.2), bits(0.0), bits(0.0), bits(0.0), bits(0.2)]
    );
    // Only the neighbour to the west of (2, 0) held mass after one step, and
    // only the origin held mass before the first.
    for _ in 0..20 {
        assert_eq!(
            StandardWalker.generate_path::<Ieee, _>(&pool, 2, 0, 2, &mut ThreadSampler),
            Ok(Walk(vec![xy(0, 0), xy(1, 0), xy(2, 0)]))
        );
    }
}

#[test]
fn levy_walks_step_along_one_axis() {
    let pool = levy_pool(12);
    let kernel = Kernel::from_generator::<Ieee, _>(LevyWalkGenerator {}).unwrap();
    let walker = LevyWalker::new(bits(0.3), 10, kernel);
    let mut found = 0;

    for _ in 0..200 {
        if let Ok(walk) = walker.generate_path::<Ieee, _>(&pool, 9, 2, 6, &mut ThreadSampler) {
            check_walk(&walk, 9, 2, 6, 10);
            for pair in walk.0.windows(2) {
                let (dx, dy) = ((pair[1].x - pair[0].x).abs(), (pair[1].y - pair[0].y).abs());
                assert!(dx == 0 || dy == 0);
                assert!(dx + dy == 0 || dx + dy == 1 || dx + dy == 10);
            }
            found += 1;
        }
    }
    assert!(found > 0);
}

#[test]
fn on_a_computed_table_only_the_sampler_fails() {
    let pool = simple_pool(5, &[(1, 1), (0, 2)]);

    for answer in [None, Some(0), Some(1), Some(2), Some(3), Some(4), Some(5)] {
        for (to_x, to_y, time_steps) in [(0, 0, 5), (2, 1, 4), (-3, 0, 3), (0, -5, 5), (1, 0, 1)] {
            match StandardWalker.generate_path::<Ieee, _>(
                &pool,
                to_x,
                to_y,
                time_steps,
                &mut StubbornSampler { answer },
            ) {
                Ok(walk) => {
                    check_walk(&walk, to_x as i64, to_y as i64, time_steps, 1);
                    check_support(&walk, &pool);
                }
                Err(e) => assert_eq!(e, WalkerError::RandomDistributionError),
            }
        }
    }
    for _ in 0..50 {
        let walk = StandardWalker
            .generate_path::<Ieee, _>(&pool, 2, 1, 5, &mut ThreadSampler)
            .unwrap();
        assert!(!walk.0.contains(&xy(1, 1)));
    }
}
