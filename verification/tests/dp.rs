use randomwalks_lib::arithmetic::{Arithmetic, FixedPoint};
use randomwalks_lib::dataset::point::XYPoint;
use randomwalks_lib::dp::builder::DynamicProgramBuilder;
use randomwalks_lib::dp::multi::MultiDynamicProgram;
use randomwalks_lib::dp::recurrence::{apply_kernel, next_layer};
use randomwalks_lib::dp::simple::DynamicProgram;
use randomwalks_lib::dp::tiles::{compute_tile, merge_tile, tiles, Tile};
use randomwalks_lib::dp::{DynamicProgramError, DynamicProgramPool, DynamicProgramType, DynamicPrograms};
use randomwalks_lib::kernel::biased_rw::BiasedRwGenerator;
use randomwalks_lib::kernel::correlated_rw::CorrelatedRwGenerator;
use randomwalks_lib::kernel::levy_walk::LevyWalkGenerator;
use randomwalks_lib::kernel::simple_rw::SimpleRwGenerator;
use randomwalks_lib::kernel::{Direction, Kernel};

/// IEEE-754 doubles, carried as their bit patterns.
struct Ieee;

impl Arithmetic for Ieee {
    fn fraction(n: u32, d: u32) -> u64 {
        (n as f64 / d as f64).to_bits()
    }

    fn vanishes(w: u64) -> bool {
        f64::from_bits(w) == 0.0
    }

    fn sum(a: u64, b: u64) -> u64 {
        (f64::from_bits(a) + f64::from_bits(b)).to_bits()
    }

    fn difference(a: u64, b: u64) -> u64 {
        (f64::from_bits(a) - f64::from_bits(b)).to_bits()
    }

    fn product(a: u64, b: u64) -> u64 {
        (f64::from_bits(a) * f64::from_bits(b)).to_bits()
    }

    fn quotient(a: u64, b: u64) -> u64 {
        (f64::from_bits(a) / f64::from_bits(b)).to_bits()
    }

    fn ratio(n: u32, d: u32) -> u64 {
        Self::fraction(n, d)
    }

    fn is_zero(w: u64) -> bool {
        Self::vanishes(w)
    }

    fn plus(a: u64, b: u64) -> u64 {
        Self::sum(a, b)
    }

    fn minus(a: u64, b: u64) -> u64 {
        Self::difference(a, b)
    }

    fn times(a: u64, b: u64) -> u64 {
        Self::product(a, b)
    }

    fn over(a: u64, b: u64) -> u64 {
        Self::quotient(a, b)
    }
}

fn bits(v: f64) -> u64 {
    v.to_bits()
}

fn val(w: u64) -> f64 {
    f64::from_bits(w)
}

fn xy(x: i64, y: i64) -> XYPoint {
    XYPoint { x, y }
}

fn simple_rw() -> Kernel {
    Kernel::from_generator::<Ieee, _>(SimpleRwGenerator).unwrap()
}

fn single(pool: DynamicProgramPool) -> DynamicProgram {
    match pool {
        DynamicProgramPool::Single(dp) => dp,
        DynamicProgramPool::Multiple(_) => unreachable!(),
    }
}

fn multiple(pool: DynamicProgramPool) -> MultiDynamicProgram {
    match pool {
        DynamicProgramPool::Multiple(dp) => dp,
        DynamicProgramPool::Single(_) => unreachable!(),
    }
}

#[test]
fn test_simple_dp_at() {
    let mut dp = DynamicProgramBuilder::new()
        .simple()
        .time_limit(10)
        .kernel(Kernel::from_generator::<Ieee, _>(SimpleRwGenerator).unwrap())
        .build::<Ieee>()
        .unwrap();

    dp.compute::<Ieee>();

    let DynamicProgramPool::Single(dp) = dp else {
        unreachable!();
    };

    assert_eq!(val(dp.at(0, 0, 0)), 1.0);
}

#[test]
fn test_simple_dp_set() {
    let dp = DynamicProgramBuilder::new()
        .simple()
        .time_limit(10)
        .kernel(Kernel::from_generator::<Ieee, _>(SimpleRwGenerator).unwrap())
        .build::<Ieee>()
        .unwrap();

    let DynamicProgramPool::Single(mut dp) = dp else {
        unreachable!();
    };

    dp.set(0, 0, 0, bits(10.0));

    assert_eq!(val(dp.at(0, 0, 0)), 10.0);
}

#[test]
fn test_compute() {
    let mut dp = DynamicProgramBuilder::new()
        .simple()
        .time_limit(1)
        .kernel(Kernel::from_generator::<Ieee, _>(SimpleRwGenerator).unwrap())
        .build::<Ieee>()
        .unwrap();

    dp.compute::<Ieee>();

    let DynamicProgramPool::Single(dp) = dp else {
        unreachable!();
    };

    assert_eq!(val(dp.at(0, 0, 1)), 0.2);
    assert_eq!(val(dp.at(-1, 0, 1)), 0.2);
    assert_eq!(val(dp.at(1, 0, 1)), 0.2);
    assert_eq!(val(dp.at(0, -1, 1)), 0.2);
    assert_eq!(val(dp.at(0, 1, 1)), 0.2);
}

#[test]
fn test_dp_eq() {
    let mut dp1 = DynamicProgramBuilder::new()
        .simple()
        .time_limit(10)
        .kernel(Kernel::from_generator::<Ieee, _>(SimpleRwGenerator).unwrap())
        .build::<Ieee>()
        .unwrap();

    dp1.compute::<Ieee>();

    let mut dp2 = DynamicProgramBuilder::new()
        .simple()
        .time_limit(10)
        .kernel(Kernel::from_generator::<Ieee, _>(SimpleRwGenerator).unwrap())
        .build::<Ieee>()
        .unwrap();

    dp2.compute::<Ieee>();

    let DynamicProgramPool::Single(dp1) = dp1 else {
        unreachable!();
    };
    let DynamicProgramPool::Single(dp2) = dp2 else {
        unreachable!();
    };

    assert_eq!(dp1, dp2);
}

#[test]
fn test_dp_not_eq() {
    let mut dp1 = DynamicProgramBuilder::new()
        .simple()
        .time_limit(10)
        .kernel(Kernel::from_generator::<Ieee, _>(SimpleRwGenerator).unwrap())
        .build::<Ieee>()
        .unwrap();

    dp1.compute::<Ieee>();

    let mut dp2 = DynamicProgramBuilder::new()
        .simple()
        .time_limit(10)
        .kernel(
            Kernel::from_generator::<Ieee, _>(BiasedRwGenerator {
                probability: bits(0.5),
                direction: Direction::North,
            })
            .unwrap(),
        )
        .build::<Ieee>()
        .unwrap();

    dp2.compute::<Ieee>();

    let DynamicProgramPool::Single(dp1) = dp1 else {
        unreachable!();
    };
    let DynamicProgramPool::Single(dp2) = dp2 else {
        unreachable!();
    };

    assert_ne!(dp1, dp2);
}

#[test]
fn one_step_of_the_simple_walk() {
    let mut dp = single(
        DynamicProgramBuilder::new()
            .simple()
            .time_limit(1)
            .kernel(simple_rw())
            .build::<Ieee>()
            .unwrap(),
    );

    dp.compute::<Ieee>();

    assert_eq!(val(dp.at(0, 0, 0)), 1.0);
    for x in -1..=1isize {
        for y in -1..=1isize {
            if (x, y) != (0, 0) {
                assert_eq!(val(dp.at(x, y, 0)), 0.0);
            }
            let expected = if x == 0 || y == 0 { 0.2 } else { 0.0 };
            assert_eq!(val(dp.at(x, y, 1)), expected);
        }
    }
}

#[test]
fn two_steps_of_the_simple_walk() {
    let mut dp = single(
        DynamicProgramBuilder::new()
            .simple()
            .time_limit(2)
            .kernel(simple_rw())
            .build::<Ieee>()
            .unwrap(),
    );

    dp.compute::<Ieee>();

    let fifth = 0.2f64;
    let square = fifth * fifth;
    assert_eq!(val(dp.at(0, 0, 2)), 0.0 + square + square + square + square + square);
    assert_eq!(val(dp.at(1, 0, 2)), 0.0 + square + square);
    assert_eq!(val(dp.at(1, 1, 2)), 0.0 + square + square);
    assert_eq!(val(dp.at(2, 0, 2)), 0.0 + square);
    assert_eq!(val(dp.at(2, 1, 2)), 0.0);
    assert_eq!(val(dp.at(0, -2, 2)), 0.0 + square);
}

#[test]
fn mass_beyond_the_edge_is_lost() {
    let mut dp = single(
        DynamicProgramBuilder::new()
            .simple()
            .time_limit(1)
            .kernel(Kernel::from_generator::<Ieee, _>(LevyWalkGenerator {}).unwrap())
            .build::<Ieee>()
            .unwrap(),
    );

    dp.compute::<Ieee>();

    let mut total = 0.0;
    for x in -1..=1 {
        for y in -1..=1 {
            total += val(dp.at(x, y, 1));
        }
    }
    assert_eq!(total, 1.0);
    assert_eq!(val(dp.at(0, 1, 1)), 0.2);
    assert_eq!(val(dp.at(1, 1, 1)), 0.0);
}

#[test]
fn a_biased_walk_drifts_north() {
    let mut dp = single(
        DynamicProgramBuilder::new()
            .simple()
            .time_limit(2)
            .kernel(
                Kernel::from_generator::<Ieee, _>(BiasedRwGenerator {
                    probability: bits(0.5),
                    direction: Direction::North,
                })
                .unwrap(),
            )
            .build::<Ieee>()
            .unwrap(),
    );

    dp.compute::<Ieee>();

    assert_eq!(val(dp.at(0, -1, 1)), 0.5);
    assert_eq!(val(dp.at(0, 1, 1)), 0.125);
    assert_eq!(val(dp.at(1, 0, 1)), 0.125);
    assert_eq!(val(dp.at(0, -2, 2)), 0.25);
    assert_eq!(val(dp.at(0, 2, 2)), 0.015625);
    assert_eq!(val(dp.at(1, -1, 2)), 0.0 + 0.5 * 0.125 + 0.125 * 0.5);
}

#[test]
fn a_barrier_stays_empty() {
    let mut dp = single(
        DynamicProgramBuilder::new()
            .simple()
            .time_limit(4)
            .kernel(simple_rw())
            .add_single_barrier(xy(1, 0))
            .add_rect_barrier(xy(-1, -1), xy(-1, 1))
            .build::<Ieee>()
            .unwrap(),
    );

    dp.compute::<Ieee>();

    for t in 1..=4 {
        assert_eq!(dp.at(1, 0, t), 0);
        assert_eq!(dp.at(-1, -1, t), 0);
        assert_eq!(dp.at(-1, 0, t), 0);
        assert_eq!(dp.at(-1, 1, t), 0);
        assert!(val(dp.at(0, 0, t)) > 0.0);
    }
    assert_eq!(val(dp.at(0, 1, 1)), 0.2);
    assert_eq!(val(dp.at(2, 0, 2)), 0.0);
    assert!(val(dp.at(2, 0, 4)) > 0.0);
    assert_eq!(val(dp.at(-2, 0, 4)), 0.0);
}

#[test]
fn a_barrier_on_the_origin_ends_every_walk() {
    let mut dp = single(
        DynamicProgramBuilder::new()
            .simple()
            .time_limit(2)
            .kernel(simple_rw())
            .add_single_barrier(xy(0, 0))
            .build::<Ieee>()
            .unwrap(),
    );

    dp.compute::<Ieee>();

    assert_eq!(val(dp.at(0, 0, 0)), 1.0);
    assert_eq!(val(dp.at(0, 0, 1)), 0.0);
    assert_eq!(val(dp.at(1, 0, 1)), 0.2);
    assert_eq!(val(dp.at(0, 0, 2)), 0.0);
}

#[test]
fn field_probabilities_scale_what_arrives() {
    let mut fps = vec![vec![bits(1.0); 3]; 3];
    fps[1][1] = bits(0.75);
    fps[2][1] = bits(0.5);

    let mut dp = single(
        DynamicProgramBuilder::new()
            .simple()
            .time_limit(1)
            .kernel(simple_rw())
            .field_probabilities(fps)
            .build::<Ieee>()
            .unwrap(),
    );

    dp.compute::<Ieee>();

    assert_eq!(val(dp.at(0, 0, 1)), 0.2 * 0.75);
    assert_eq!(val(dp.at(1, 0, 1)), 0.2 * 0.5);
    assert_eq!(val(dp.at(-1, 0, 1)), 0.2);
}

#[test]
fn compute_starts_from_scratch() {
    let mut dp = single(
        DynamicProgramBuilder::new()
            .simple()
            .time_limit(3)
            .kernel(simple_rw())
            .build::<Ieee>()
            .unwrap(),
    );

    dp.compute::<Ieee>();
    let first = dp.table.clone();

    dp.set(2, 2, 0, bits(0.5));
    dp.set(0, 0, 0, bits(0.0));
    dp.set(1, 1, 3, bits(7.0));
    dp.compute::<Ieee>();

    assert_eq!(dp.table, first);
}

#[test]
fn tiles_give_the_same_table() {
    for time_limit in 0..=7 {
        let build = || {
            single(
                DynamicProgramBuilder::new()
                    .simple()
                    .time_limit(time_limit)
                    .kernel(
                        Kernel::from_generator::<Ieee, _>(BiasedRwGenerator {
                            probability: bits(0.3),
                            direction: Direction::West,
                        })
                        .unwrap(),
                    )
                    .add_single_barrier(xy(0, time_limit as i64))
                    .build::<Ieee>()
                    .unwrap(),
            )
        };
        let mut whole = build();
        let mut tiled = build();

        whole.compute::<Ieee>();
        tiled.compute_tiled::<Ieee>();

        assert_eq!(whole, tiled);
    }
}

#[test]
fn nine_tiles_cover_the_grid_once() {
    assert_eq!(tiles(10).len(), 9);
    assert_eq!(
        tiles(10)[0],
        Tile { first_column: 0, end_column: 3, first_row: 0, end_row: 3 }
    );
    assert_eq!(
        tiles(10)[5],
        Tile { first_column: 3, end_column: 6, first_row: 6, end_row: 21 }
    );
    assert_eq!(
        tiles(10)[8],
        Tile { first_column: 6, end_column: 21, first_row: 6, end_row: 21 }
    );
    assert_eq!(
        tiles(0),
        vec![
            Tile { first_column: 0, end_column: 0, first_row: 0, end_row: 0 },
            Tile { first_column: 0, end_column: 0, first_row: 0, end_row: 0 },
            Tile { first_column: 0, end_column: 0, first_row: 0, end_row: 1 },
            Tile { first_column: 0, end_column: 0, first_row: 0, end_row: 0 },
            Tile { first_column: 0, end_column: 0, first_row: 0, end_row: 0 },
            Tile { first_column: 0, end_column: 0, first_row: 0, end_row: 1 },
            Tile { first_column: 0, end_column: 1, first_row: 0, end_row: 0 },
            Tile { first_column: 0, end_column: 1, first_row: 0, end_row: 0 },
            Tile { first_column: 0, end_column: 1, first_row: 0, end_row: 1 },
        ]
    );
    for time_limit in 0..=12usize {
        let width = 2 * time_limit + 1;
        let mut hits = vec![vec![0; width]; width];
        for tile in tiles(time_limit) {
            for column in tile.first_column..tile.end_column {
                for row in tile.first_row..tile.end_row {
                    hits[column][row] += 1;
                }
            }
        }
        assert_eq!(hits, vec![vec![1; width]; width]);
    }
}

#[test]
fn a_tile_is_a_part_of_the_next_layer() {
    let kernel = simple_rw();
    let field = vec![vec![bits(1.0); 5]; 5];
    let mut seed = vec![vec![0u64; 5]; 5];
    seed[2][2] = bits(1.0);
    let first = next_layer::<Ieee>(&seed, &kernel, &field, 2);
    let second = next_layer::<Ieee>(&first, &kernel, &field, 2);
    let tile = Tile { first_column: 1, end_column: 4, first_row: 2, end_row: 5 };

    let cells = compute_tile::<Ieee>(&first, &kernel, &field, 2, tile);

    assert_eq!(cells.len(), 3);
    for a in 0..3 {
        assert_eq!(cells[a], second[1 + a][2..5]);
        for b in 0..3 {
            assert_eq!(cells[a][b], apply_kernel::<Ieee>(&first, &kernel, &field, 2, 1 + a, 2 + b));
        }
    }

    let mut layer = vec![vec![9u64; 5]; 5];
    merge_tile(&mut layer, tile, &cells);
    for column in 0..5 {
        for row in 0..5 {
            let inside = (1..4).contains(&column) && (2..5).contains(&row);
            let expected = if inside { second[column][row] } else { 9 };
            assert_eq!(layer[column][row], expected);
        }
    }
}

#[test]
fn cells_outside_the_grid_read_as_the_default() {
    let mut dp = single(
        DynamicProgramBuilder::new()
            .simple()
            .time_limit(2)
            .kernel(simple_rw())
            .build::<Ieee>()
            .unwrap(),
    );
    dp.compute::<Ieee>();

    assert_eq!(dp.limits(), (-2, 2));
    assert_eq!(dp.at_or(0, 0, 1, 77), bits(0.2));
    assert_eq!(dp.at_or(2, -2, 2, 77), dp.at(2, -2, 2));
    assert_eq!(dp.at_or(3, 0, 1, 77), 77);
    assert_eq!(dp.at_or(0, -3, 1, 77), 77);
    assert_eq!(dp.at_or(isize::MAX, isize::MIN, 0, 5), 5);
}

#[test]
fn every_variant_is_computed_with_its_kernel() {
    let kernels = Kernel::multiple_from_generator::<Ieee, _>(CorrelatedRwGenerator {
        persistence: bits(0.5),
    })
    .unwrap();
    let mut pool = DynamicProgramBuilder::new()
        .multi()
        .time_limit(3)
        .kernels(kernels.clone())
        .add_single_barrier(xy(1, 1))
        .build::<Ieee>()
        .unwrap();
    assert_eq!(pool.kind(), DynamicProgramType::Multi);
    assert!(matches!(pool.try_unwrap(), Err(DynamicProgramError::UnwrapOnMultiple)));
    assert_eq!(pool.limits(), (-3, 3));

    pool.compute::<Ieee>();
    let multi = multiple(pool);

    assert_eq!(multi.variants(), 5);
    for (variant, kernel) in kernels.iter().enumerate() {
        let mut alone = single(
            DynamicProgramBuilder::new()
                .simple()
                .time_limit(3)
                .kernel(kernel.clone())
                .add_single_barrier(xy(1, 1))
                .build::<Ieee>()
                .unwrap(),
        );
        alone.compute::<Ieee>();
        for t in 0..=3 {
            assert_eq!(multi.table[t][variant], alone.table[t]);
            assert_eq!(multi.at(1, 1, t, variant), 0);
            assert_eq!(multi.at_or(-2, 1, t, variant, 3), alone.at(-2, 1, t));
            assert_eq!(multi.at_or(-4, 1, t, variant, 3), 3);
        }
    }
    assert_eq!(val(multi.at(0, -1, 1, 0)), 0.5);
    assert_eq!(val(multi.at(1, 0, 1, 1)), 0.5);
    assert_eq!(val(multi.at(0, 1, 1, 2)), 0.5);
    assert_eq!(val(multi.at(-1, 0, 1, 3)), 0.5);
    assert_eq!(val(multi.at(0, 0, 1, 4)), 0.5);
    assert_eq!(multi.field_probabilities(), multi.field_probabilities);
}

#[test]
fn kernels_are_applied_cell_by_cell() {
    let kernels = Kernel::multiple_from_generator::<Ieee, _>(CorrelatedRwGenerator {
        persistence: bits(0.5),
    })
    .unwrap();
    let mut multi = multiple(
        DynamicProgramBuilder::new()
            .multi()
            .time_limit(2)
            .kernels(kernels)
            .build::<Ieee>()
            .unwrap(),
    );
    let mut computed = MultiDynamicProgram {
        table: multi.table.clone(),
        time_limit: multi.time_limit,
        kernels: multi.kernels.clone(),
        field_probabilities: multi.field_probabilities.clone(),
    };
    computed.compute::<Ieee>();

    for variant in 0..5 {
        multi.set(0, 0, 0, variant, bits(1.0));
    }
    for t in 1..=2 {
        for x in -2..=2 {
            for y in -2..=2 {
                multi.apply_kernels_at::<Ieee>(x, y, t);
            }
        }
    }

    assert_eq!(multi, computed);
}

#[test]
fn pools_offer_what_their_program_offers() {
    let mut pool = DynamicProgramBuilder::new()
        .simple()
        .time_limit(2)
        .kernel(simple_rw())
        .build::<Ieee>()
        .unwrap();

    assert_eq!(pool.kind(), DynamicProgramType::Simple);
    assert_eq!(pool.limits(), (-2, 2));
    assert_eq!(pool.field_probabilities(), vec![vec![bits(1.0); 5]; 5]);
    pool.compute::<Ieee>();
    let inner = pool.try_unwrap().unwrap();
    assert_eq!(val(inner.at(0, 1, 1)), 0.2);
}

#[test]
fn fixed_point_tables_are_exact() {
    let mut dp = single(
        DynamicProgramBuilder::new()
            .simple()
            .time_limit(2)
            .kernel(Kernel::simple_rw::<FixedPoint>())
            .build::<FixedPoint>()
            .unwrap(),
    );

    dp.compute::<FixedPoint>();

    let fifth: u64 = 858_993_459;
    let square = (fifth * fifth) >> 32;
    assert_eq!(square, 171_798_691);
    assert_eq!(dp.at(0, 0, 0), 1 << 32);
    assert_eq!(dp.at(0, 1, 1), fifth);
    assert_eq!(dp.at(1, 1, 1), 0);
    assert_eq!(dp.at(0, 0, 2), 5 * square);
    assert_eq!(dp.at(1, 1, 2), 2 * square);
    assert_eq!(dp.at(0, 2, 2), square);
}

#[test]
fn shapes_can_be_checked() {
    let mut dp = single(
        DynamicProgramBuilder::new()
            .simple()
            .time_limit(2)
            .kernel(simple_rw())
            .build::<Ieee>()
            .unwrap(),
    );
    assert!(dp.is_wf());
    assert!(dp.kernel_is_fit());
    assert_eq!(dp.clone(), dp);
    assert_eq!(dp.clone().kernel, dp.kernel);

    dp.kernel = Kernel { probabilities: vec![vec![0; 2]; 2], name: ("".into(), "".into()) };
    assert!(!dp.kernel_is_fit());
    dp.kernel = Kernel { probabilities: vec![vec![0; 3], vec![0; 2], vec![0; 3]], name: ("".into(), "".into()) };
    assert!(!dp.kernel_is_fit());
    dp.kernel = Kernel::unprepared(("".into(), "".into()));
    assert!(!dp.kernel_is_fit());

    dp.table[1][4].push(0);
    assert!(!dp.is_wf());
    dp.table[1][4].pop();
    assert!(dp.is_wf());
    dp.field_probabilities.pop();
    assert!(!dp.is_wf());
    dp.field_probabilities.push(vec![0; 5]);
    assert!(dp.is_wf());
    dp.table.push(vec![vec![0; 5]; 5]);
    assert!(!dp.is_wf());
    dp.time_limit = 3;
    assert!(!dp.is_wf());

    let pool = DynamicProgramPool::Single(dp);
    assert!(!pool.is_wf());
    assert!(!pool.is_applicable());
    assert_eq!(pool.time_limit(), 3);
}

#[test]
fn shapes_of_variants_can_be_checked() {
    let mut multi = multiple(
        DynamicProgramBuilder::new()
            .multi()
            .time_limit(1)
            .kernels(vec![simple_rw(); 3])
            .build::<Ieee>()
            .unwrap(),
    );
    assert!(multi.is_wf());
    assert!(multi.kernels_are_fit());
    assert_eq!(multi.clone(), multi);
    assert_eq!(multi.clone().kernels, multi.kernels);

    multi.table[1].pop();
    assert!(!multi.is_wf());
    multi.table[1].push(vec![vec![0; 3]; 2]);
    assert!(!multi.is_wf());
    multi.table[1][2].push(vec![0; 3]);
    assert!(multi.is_wf());
    multi.kernels.push(Kernel::unprepared(("".into(), "".into())));
    assert!(!multi.is_wf());
    assert!(!multi.kernels_are_fit());

    let pool = DynamicProgramPool::Multiple(multi);
    assert!(!pool.is_wf());
    assert!(!pool.is_applicable());
    assert_eq!(pool.time_limit(), 1);
    assert_eq!(pool.clone(), pool);
}

#[test]
fn mass_moves_one_cell_in_a_step() {
    let mut exact = single(
        DynamicProgramBuilder::new()
            .simple()
            .time_limit(6)
            .kernel(Kernel::simple_rw::<FixedPoint>())
            .add_single_barrier(xy(1, 0))
            .build::<FixedPoint>()
            .unwrap(),
    );
    exact.compute::<FixedPoint>();
    let mut doubles = single(
        DynamicProgramBuilder::new()
            .simple()
            .time_limit(6)
            .kernel(simple_rw())
            .add_single_barrier(xy(1, 0))
            .build::<Ieee>()
            .unwrap(),
    );
    doubles.compute::<Ieee>();

    for t in 0..=6usize {
        for x in -6..=6isize {
            for y in -6..=6isize {
                if x.unsigned_abs() + y.unsigned_abs() > t {
                    assert_eq!(exact.at(x, y, t), 0);
                    assert_eq!(val(doubles.at(x, y, t)), 0.0);
                }
            }
        }
        assert!(exact.at(0, -(t as isize), t) > 0);
    }
}

#[test]
fn mass_spreads_no_faster_than_the_kernel_reaches() {
    let kernel = Kernel::from_values((1..=25).map(|v| v << 24).collect()).unwrap();
    let mut dp = single(
        DynamicProgramBuilder::new()
            .simple()
            .time_limit(7)
            .kernel(kernel)
            .build::<FixedPoint>()
            .unwrap(),
    );
    dp.compute::<FixedPoint>();

    for t in 0..=7usize {
        for x in -7..=7isize {
            for y in -7..=7isize {
                if x.unsigned_abs() > 2 * t || y.unsigned_abs() > 2 * t {
                    assert_eq!(dp.at(x, y, t), 0);
                }
            }
        }
    }
    assert!(dp.at(2, -2, 1) > 0);
    assert!(dp.at(4, 4, 2) > 0);
}

#[test]
fn fixed_point_tables_hold_at_most_one() {
    let mut fps = vec![vec![1u64 << 32; 11]; 11];
    fps[5][6] = 1 << 31;
    fps[4][4] = 3 << 30;
    let mut dp = single(
        DynamicProgramBuilder::new()
            .simple()
            .time_limit(5)
            .kernel(Kernel::simple_rw::<FixedPoint>())
            .field_probabilities(fps)
            .build::<FixedPoint>()
            .unwrap(),
    );
    dp.compute::<FixedPoint>();

    assert_eq!(dp.kernel.total::<FixedPoint>(), (1 << 32) - 1);
    for t in 0..=5usize {
        let mut total = 0u64;
        for x in -5..=5isize {
            for y in -5..=5isize {
                assert!(dp.at(x, y, t) <= 1 << 32);
                total += dp.at(x, y, t);
            }
        }
        assert!(total <= 1 << 32);
    }
    assert_eq!(dp.at(0, 1, 1), 858_993_459 / 2);
}

fn computed_by_its_kind<D: DynamicPrograms>(mut dp: D) -> D {
    dp.compute::<FixedPoint>();
    dp
}

#[test]
fn every_kind_of_program_computes_the_recurrence() {
    let mut fps = vec![vec![1u64 << 32; 7]; 7];
    fps[2][3] = 0;
    let mut dp = single(
        DynamicProgramBuilder::new()
            .simple()
            .time_limit(3)
            .kernel(Kernel::simple_rw::<FixedPoint>())
            .field_probabilities(fps.clone())
            .build::<FixedPoint>()
            .unwrap(),
    );
    let by_kind = computed_by_its_kind(dp.clone());
    let by_pool = computed_by_its_kind(DynamicProgramPool::Single(dp.clone()));
    dp.compute::<FixedPoint>();

    assert_eq!(by_kind, dp);
    assert_eq!(by_pool, DynamicProgramPool::Single(dp.clone()));
    assert_eq!(by_kind.kernel, Kernel::simple_rw::<FixedPoint>());
    assert_eq!(DynamicPrograms::field_probabilities(&by_kind), fps);
    assert_eq!(dp.at(0, 0, 0), 1 << 32);
    for t in 1..=3usize {
        let earlier = dp.table[t - 1].clone();
        assert_eq!(
            dp.table[t],
            next_layer::<FixedPoint>(&earlier, &dp.kernel, &dp.field_probabilities, 3)
        );
    }
}
