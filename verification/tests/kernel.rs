use randomwalks_lib::arithmetic::{is_null, Arithmetic, FixedPoint};
use randomwalks_lib::kernel::biased_correlated_rw::BiasedCorrelatedRwGenerator;
use randomwalks_lib::kernel::biased_rw::BiasedRwGenerator;
use randomwalks_lib::kernel::correlated_rw::CorrelatedRwGenerator;
use randomwalks_lib::kernel::generator::{KernelGenerator, KernelGeneratorError};
use randomwalks_lib::kernel::levy_walk::LevyWalkGenerator;
use randomwalks_lib::kernel::simple_rw::SimpleRwGenerator;
use randomwalks_lib::kernel::{Direction, Directions, Kernel, KernelError};

/// IEEE-754 doubles, carried as their bit patterns.
struct Ieee;

impl Arithmetic for Ieee {
    fn fraction(n: u32, d: u32) -> u64 {
        (n as f64 / d as f64).to_bits()
    }

    fn vanishes(w: u64) -> bool {
        f64::from_bits(w) == 0.0
    }

    fn sum(a: u64, b: u64) -> u64 {
        (f64::from_bits(a) + f64::from_bits(b)).to_bits()
    }

    fn difference(a: u64, b: u64) -> u64 {
        (f64::from_bits(a) - f64::from_bits(b)).to_bits()
    }

    fn product(a: u64, b: u64) -> u64 {
        (f64::from_bits(a) * f64::from_bits(b)).to_bits()
    }

    fn quotient(a: u64, b: u64) -> u64 {
        (f64::from_bits(a) / f64::from_bits(b)).to_bits()
    }

    fn ratio(n: u32, d: u32) -> u64 {
        Self::fraction(n, d)
    }

    fn is_zero(w: u64) -> bool {
        Self::vanishes(w)
    }

    fn plus(a: u64, b: u64) -> u64 {
        Self::sum(a, b)
    }

    fn minus(a: u64, b: u64) -> u64 {
        Self::difference(a, b)
    }

    fn times(a: u64, b: u64) -> u64 {
        Self::product(a, b)
    }

    fn over(a: u64, b: u64) -> u64 {
        Self::quotient(a, b)
    }
}

fn bits(v: f64) -> u64 {
    v.to_bits()
}

fn val(w: u64) -> f64 {
    f64::from_bits(w)
}

/// A kernel from weights listed row after row.
fn kernel(values: &[f64]) -> Kernel {
    Kernel::from_values(values.iter().map(|v| v.to_bits()).collect()).unwrap()
}

#[test]
fn test_rotate_invalid() {
    let mut kernel = kernel(&[
        1.0, 2.0, 3.0,
        4.0, 5.0, 6.0,
        7.0, 8.0, 9.0,
    ]);

    assert!(kernel.rotate(87).is_err());
}

#[test]
fn test_rotate_90() {
    let mut kernel = kernel(&[
        1.0, 2.0, 3.0,
        4.0, 5.0, 6.0,
        7.0, 8.0, 9.0,
    ]);

    let correct_rotation = self::kernel(&[
        7.0, 4.0, 1.0,
        8.0, 5.0, 2.0,
        9.0, 6.0, 3.0,
    ]);

    assert!(kernel.rotate(90).is_ok());
    assert_eq!(kernel, correct_rotation);
}

#[test]
fn test_rotate_180() {
    let mut kernel = kernel(&[
        1.0, 2.0, 3.0,
        4.0, 5.0, 6.0,
        7.0, 8.0, 9.0,
    ]);

    let correct_rotation = self::kernel(&[
        9.0, 8.0, 7.0,
        6.0, 5.0, 4.0,
        3.0, 2.0, 1.0,
    ]);

    assert!(kernel.rotate(180).is_ok());
    assert_eq!(kernel, correct_rotation);
}

#[test]
fn test_rotate_270() {
    let mut kernel = kernel(&[
        1.0, 2.0, 3.0,
        4.0, 5.0, 6.0,
        7.0, 8.0, 9.0,
    ]);

    let correct_rotation = self::kernel(&[
        3.0, 6.0, 9.0,
        2.0, 5.0, 8.0,
        1.0, 4.0, 7.0,
    ]);

    assert!(kernel.rotate(270).is_ok());
    assert_eq!(kernel, correct_rotation);
}

#[test]
fn test_kernel_macro() {
    let kernel = kernel(&[
        1.0, 2.0, 3.0,
        4.0, 5.0, 6.0,
        7.0, 8.0, 9.0,
    ]);

    let kernel_correct = Kernel {
        probabilities: vec![
            vec![bits(1.0), bits(4.0), bits(7.0)],
            vec![bits(2.0), bits(5.0), bits(8.0)],
            vec![bits(3.0), bits(6.0), bits(9.0)],
        ],
        name: ("".into(), "".into()),
    };

    assert_eq!(kernel, kernel_correct);
}

#[test]
fn test_biased_rw() {
    let kernel = Kernel::from_generator::<Ieee, _>(BiasedRwGenerator {
        probability: bits(0.5),
        direction: Direction::North,
    });

    let kernel_correct = self::kernel(&[
        0.0,   0.5,   0.0,
        0.125, 0.125, 0.125,
        0.0,   0.125, 0.0,
    ]);

    assert!(kernel.is_ok());
    assert_eq!(kernel.unwrap(), kernel_correct);
}

#[test]
fn test_correlated_rw() {
    let kernels =
        Kernel::multiple_from_generator::<Ieee, _>(CorrelatedRwGenerator { persistence: bits(0.5) });

    let kernel_correct_0 = kernel(&[
        0.0,   0.5,   0.0,
        0.125, 0.125, 0.125,
        0.0,   0.125, 0.0,
    ]);
    let kernel_correct_1 = kernel(&[
        0.0,   0.125, 0.0,
        0.125, 0.125, 0.5,
        0.0,   0.125, 0.0,
    ]);
    let kernel_correct_2 = kernel(&[
        0.0,   0.125, 0.0,
        0.125, 0.125, 0.125,
        0.0,   0.5,   0.0,
    ]);
    let kernel_correct_3 = kernel(&[
        0.0, 0.125, 0.0,
        0.5, 0.125, 0.125,
        0.0, 0.125, 0.0,
    ]);
    let kernel_correct_4 = kernel(&[
        0.0,   0.125, 0.0,
        0.125, 0.5,   0.125,
        0.0,   0.125, 0.0,
    ]);

    assert!(kernels.is_ok());

    let kernels = kernels.unwrap();

    assert_eq!(kernels.len(), 5);
    assert_eq!(kernels[0], kernel_correct_0);
    assert_eq!(kernels[1], kernel_correct_1);
    assert_eq!(kernels[2], kernel_correct_2);
    assert_eq!(kernels[3], kernel_correct_3);
    assert_eq!(kernels[4], kernel_correct_4);
}

/// The products of the correlated and the biased kernel, before they are
/// scaled, and the kernels that the generator makes of them by scaling.
#[test]
fn test_biased_correlated_rw() {
    let kernels = Kernel::multiple_from_generator::<Ieee, _>(BiasedCorrelatedRwGenerator {
        probability: bits(0.5),
        direction: Direction::North,
        persistence: bits(0.5),
    });

    let kernel_correct_0 = kernel(&[
        0.0,      0.25,     0.0,
        0.015625, 0.015625, 0.015625,
        0.0,      0.015625, 0.0,
    ]);
    let kernel_correct_1 = kernel(&[
        0.0,      0.0625,   0.0,
        0.015625, 0.015625, 0.0625,
        0.0,      0.015625, 0.0,
    ]);
    let kernel_correct_2 = kernel(&[
        0.0,      0.0625,   0.0,
        0.015625, 0.015625, 0.015625,
        0.0,      0.0625,   0.0,
    ]);
    let kernel_correct_3 = kernel(&[
        0.0,    0.0625,   0.0,
        0.0625, 0.015625, 0.015625,
        0.0,    0.015625, 0.0,
    ]);
    let kernel_correct_4 = kernel(&[
        0.0,      0.0625,   0.0,
        0.015625, 0.0625,   0.015625,
        0.0,      0.015625, 0.0,
    ]);
    let correct = [
        kernel_correct_0,
        kernel_correct_1,
        kernel_correct_2,
        kernel_correct_3,
        kernel_correct_4,
    ];

    assert!(kernels.is_ok());

    let kernels = kernels.unwrap();

    let correlated =
        Kernel::multiple_from_generator::<Ieee, _>(CorrelatedRwGenerator { persistence: bits(0.5) })
            .unwrap();
    let biased = Kernel::from_generator::<Ieee, _>(BiasedRwGenerator {
        probability: bits(0.5),
        direction: Direction::North,
    })
    .unwrap();

    assert_eq!(kernels.len(), 5);
    for v in 0..5 {
        let mut product = correlated[v].multiply::<Ieee>(&biased).unwrap();
        assert_eq!(product, correct[v]);
        product.normalize::<Ieee>();
        assert_eq!(kernels[v], product);
    }
    assert_eq!(val(kernels[0].at(0, -1)), 0.8);
    assert_eq!(val(kernels[0].at(0, 0)), 0.05);
    assert_eq!(val(kernels[1].at(0, -1)), 0.0625 / 0.171875);
    assert_eq!(val(kernels[1].at(1, 0)), 0.0625 / 0.171875);
    assert_eq!(val(kernels[1].at(-1, 0)), 0.015625 / 0.171875);
}

#[test]
fn simple_rw_has_five_fifths() {
    let kernel = Kernel::from_generator::<Ieee, _>(SimpleRwGenerator).unwrap();

    assert_eq!(kernel.size(), 3);
    for (x, y) in [(0, 0), (0, -1), (1, 0), (0, 1), (-1, 0)] {
        assert_eq!(val(kernel.at(x, y)), 0.2);
    }
    for (x, y) in [(-1, -1), (1, -1), (-1, 1), (1, 1)] {
        assert_eq!(val(kernel.at(x, y)), 0.0);
    }
    assert_eq!(val(kernel.total::<Ieee>()), 1.0);
    assert_eq!(kernel, Kernel::simple_rw::<Ieee>());
    assert_eq!(kernel.name(true), "srw");
    assert_eq!(kernel.name(false), "Simple RW");
}

#[test]
fn simple_rw_in_fixed_point() {
    let kernel = Kernel::simple_rw::<FixedPoint>();

    assert_eq!(kernel.at(0, 0), 858_993_459);
    assert_eq!(kernel.at(1, 0), 858_993_459);
    assert_eq!(kernel.at(1, 1), 0);
    assert_eq!(kernel.total::<FixedPoint>(), 5 * 858_993_459);
}

#[test]
fn biased_rw_prefers_its_direction() {
    let kernel = Kernel::from_generator::<Ieee, _>(BiasedRwGenerator {
        probability: bits(0.5),
        direction: Direction::North,
    })
    .unwrap();

    assert_eq!(val(kernel.at(0, -1)), 0.5);
    assert_eq!(val(kernel.at(1, 0)), 0.125);
    assert_eq!(val(kernel.at(0, 1)), 0.125);
    assert_eq!(val(kernel.at(-1, 0)), 0.125);
    assert_eq!(val(kernel.at(0, 0)), 0.125);
    assert_eq!(val(kernel.at(1, 1)), 0.0);

    let east = Kernel::from_generator::<Ieee, _>(BiasedRwGenerator {
        probability: bits(0.6),
        direction: Direction::East,
    })
    .unwrap();

    assert_eq!(val(east.at(1, 0)), 0.6);
    assert_eq!(val(east.at(0, 0)), (1.0 - 0.6) / 4.0);
}

#[test]
fn correlated_kernels_are_the_north_kernel_turned() {
    let kernels =
        Kernel::multiple_from_generator::<Ieee, _>(CorrelatedRwGenerator { persistence: bits(0.5) })
            .unwrap();

    for turns in 1..4 {
        let mut turned = kernels[0].clone();
        turned.rotate(90 * turns).unwrap();
        assert_eq!(turned, kernels[turns]);
    }
    assert_eq!(val(kernels[4].at(0, 0)), 0.5);
}

#[test]
fn four_quarter_turns_change_nothing() {
    let three = kernel(&[
        1.0, 2.0, 3.0,
        4.0, 5.0, 6.0,
        7.0, 8.0, 9.0,
    ]);
    let five = Kernel::from_values((0..25).collect()).unwrap();

    for start in [three, five] {
        let mut kernel = start.clone();
        for turn in 1..=4 {
            kernel.rotate(90).unwrap();
            assert_eq!(kernel == start, turn == 4);
        }
        kernel.rotate(360).unwrap();
        assert_eq!(kernel, start);
        kernel.rotate(0).unwrap();
        assert_eq!(kernel, start);
    }
}

#[test]
fn rotate_says_what_is_wrong() {
    let mut kernel = kernel(&[1.0]);

    assert_eq!(kernel.rotate(45), Err("degrees must be a multiple of 90.".to_string()));
    assert_eq!(kernel.at(0, 0), bits(1.0));
}

#[test]
fn values_have_to_form_an_odd_square() {
    assert_eq!(Kernel::from_values(vec![0; 8]), Err(KernelError::NotSquare));
    assert_eq!(Kernel::from_values(vec![0; 2]), Err(KernelError::NotSquare));
    assert_eq!(Kernel::from_values(vec![0; 4]), Err(KernelError::SizeEven));
    assert_eq!(Kernel::from_values(vec![0; 16]), Err(KernelError::SizeEven));
    assert_eq!(Kernel::from_values(vec![]), Err(KernelError::SizeEven));

    let one = Kernel::from_values(vec![7]).unwrap();
    assert_eq!(one.size(), 1);
    assert_eq!(one.at(0, 0), 7);

    let five = Kernel::from_values((0..25).collect()).unwrap();
    assert_eq!(five.size(), 5);
    assert_eq!(five.at(-2, -2), 0);
    assert_eq!(five.at(2, -2), 4);
    assert_eq!(five.at(-2, 2), 20);
    assert_eq!(five.at(1, 0), 13);
    assert_eq!(five.name(true), "ck");
    assert_eq!(five.name(false), "Custom Kernel");
}

#[test]
fn kernels_have_an_odd_size() {
    let name = || ("k".to_string(), "Kernel".to_string());

    assert_eq!(Kernel::try_new(4, name()).err(), Some(KernelGeneratorError::SizeEven));
    assert_eq!(Kernel::try_new(0, name()).err(), Some(KernelGeneratorError::SizeEven));

    let mut kernel = Kernel::try_new(5, name()).unwrap();
    assert_eq!(kernel.size(), 5);
    assert_eq!(kernel.probabilities, vec![vec![0u64; 5]; 5]);

    kernel.set(2, -1, 9);
    assert_eq!(kernel.at(2, -1), 9);
    assert_eq!(kernel.probabilities[4][1], 9);

    assert!(kernel.is_wf());
    kernel.probabilities[3].push(1);
    assert!(!kernel.is_wf());
    kernel.probabilities[3].pop();
    assert!(Kernel::unprepared(name()).is_wf());

    assert_eq!(kernel.initialize(6), Err(KernelGeneratorError::SizeEven));
    assert_eq!(kernel.at(2, -1), 9);
    assert_eq!(kernel.initialize(3), Ok(()));
    assert_eq!(kernel.probabilities, vec![vec![0u64; 3]; 3]);
    assert_eq!(kernel.name(true), "k");
}

#[test]
fn products_need_equal_sizes() {
    let three = kernel(&[
        1.0, 2.0, 3.0,
        4.0, 5.0, 6.0,
        7.0, 8.0, 9.0,
    ]);
    let one = kernel(&[2.0]);

    assert_eq!(three.multiply::<Ieee>(&one), Err(KernelError::SizeMismatch));

    let mut kept = three.clone();
    assert_eq!(kept.multiply_assign::<Ieee>(&one), Err(KernelError::SizeMismatch));
    assert_eq!(kept, three);

    let squares = three.multiply::<Ieee>(&three).unwrap();
    assert_eq!(squares, kernel(&[
        1.0, 4.0, 9.0,
        16.0, 25.0, 36.0,
        49.0, 64.0, 81.0,
    ]));

    let mut again = three.clone();
    assert_eq!(again.multiply_assign::<Ieee>(&three), Ok(()));
    assert_eq!(again, squares);
}

#[test]
fn normalize_divides_by_the_total() {
    let mut kernel = kernel(&[
        1.0, 2.0, 1.0,
        2.0, 4.0, 2.0,
        1.0, 2.0, 1.0,
    ]);

    assert_eq!(val(kernel.total::<Ieee>()), 16.0);
    kernel.normalize::<Ieee>();
    assert_eq!(val(kernel.at(0, 0)), 0.25);
    assert_eq!(val(kernel.at(1, 0)), 0.125);
    assert_eq!(val(kernel.at(1, 1)), 0.0625);
    assert_eq!(val(kernel.total::<Ieee>()), 1.0);
}

#[test]
fn generators_check_the_number_of_kernels() {
    let mut none: Vec<Kernel> = Vec::new();

    assert_eq!(
        KernelGenerator::<Ieee>::prepare(&SimpleRwGenerator, &mut none),
        Err(KernelGeneratorError::OneKernelRequired)
    );
    assert_eq!(
        KernelGenerator::<Ieee>::prepare(
            &BiasedRwGenerator { probability: bits(0.5), direction: Direction::Stay },
            &mut none
        ),
        Err(KernelGeneratorError::OneKernelRequired)
    );
    assert_eq!(
        KernelGenerator::<Ieee>::prepare(&LevyWalkGenerator {}, &mut none),
        Err(KernelGeneratorError::OneKernelRequired)
    );

    let mut four = vec![Kernel::unprepared(("".into(), "".into())); 4];
    assert_eq!(
        KernelGenerator::<Ieee>::prepare(&CorrelatedRwGenerator { persistence: bits(0.5) }, &mut four),
        Err(KernelGeneratorError::NotEnoughKernels)
    );
    assert_eq!(
        KernelGenerator::<Ieee>::prepare(
            &BiasedCorrelatedRwGenerator {
                probability: bits(0.5),
                direction: Direction::West,
                persistence: bits(0.5),
            },
            &mut four
        ),
        Err(KernelGeneratorError::NotEnoughKernels)
    );

    assert_eq!(
        Kernel::from_generator::<Ieee, _>(CorrelatedRwGenerator { persistence: bits(0.5) }).err(),
        Some(KernelGeneratorError::NotEnoughKernels)
    );
    assert_eq!(KernelGenerator::<Ieee>::generates_qty(&SimpleRwGenerator), 1);
    assert_eq!(
        KernelGenerator::<Ieee>::generates_qty(&CorrelatedRwGenerator { persistence: 0 }),
        5
    );
    assert_eq!(
        Kernel::multiple_from_generator::<Ieee, _>(SimpleRwGenerator).unwrap(),
        vec![Kernel::simple_rw::<Ieee>()]
    );
}

#[test]
fn levy_walk_jumps_ten_cells() {
    let kernel = Kernel::from_generator::<Ieee, _>(LevyWalkGenerator {}).unwrap();

    assert_eq!(kernel.size(), 21);
    for (x, y) in [(-10, 0), (10, 0), (0, -10), (0, 10)] {
        assert_eq!(val(kernel.at(x, y)), 0.05);
    }
    for (x, y) in [(0, 0), (-1, 0), (1, 0), (0, -1), (0, 1)] {
        assert_eq!(val(kernel.at(x, y)), 0.2);
    }
    let filled = kernel.probabilities.iter().flatten().filter(|w| **w != 0).count();
    assert_eq!(filled, 9);
}

#[test]
fn directions_and_offsets() {
    assert_eq!(Direction::North.offset(), (0, -1));
    assert_eq!(Direction::East.offset(), (1, 0));
    assert_eq!(Direction::South.offset(), (0, 1));
    assert_eq!(Direction::West.offset(), (-1, 0));
    assert_eq!(Direction::Stay.offset(), (0, 0));
    for direction in Direction::all() {
        let (dx, dy) = direction.offset();
        assert_eq!(Direction::from_offset(dx, dy), Some(direction));
    }
    assert_eq!(Direction::from_offset(1, 1), None);
    assert_eq!(Direction::default(), Direction::Stay);

    let mut values: Directions<u32> = Directions::new();
    for direction in Direction::all() {
        assert_eq!(*values.get(direction), u32::default());
    }
    let texts: Directions<String> = Directions::new();
    assert_eq!(texts.stay, String::default());
    assert_eq!(*values.get(Direction::West), 0);
    values.put(Direction::West, 3);
    assert_eq!(values.west, 3);
    assert_eq!(*values.get(Direction::West), 3);
    assert_eq!(*values.get(Direction::East), 0);
}

#[test]
fn fixed_point_rounds_down_and_saturates() {
    let one = FixedPoint::ratio(1, 1);

    assert_eq!(one, 1 << 32);
    assert_eq!(FixedPoint::ratio(1, 2), 1 << 31);
    assert_eq!(FixedPoint::ratio(1, 3), 1_431_655_765);
    assert_eq!(FixedPoint::ratio(4, 1), 4 << 32);
    assert_eq!(FixedPoint::plus(one, one), 2 << 32);
    assert_eq!(FixedPoint::plus(u64::MAX, 1), u64::MAX);
    assert_eq!(FixedPoint::minus(one, FixedPoint::ratio(1, 4)), 3 << 30);
    assert_eq!(FixedPoint::minus(1, 2), 0);
    assert_eq!(FixedPoint::times(FixedPoint::ratio(1, 2), FixedPoint::ratio(1, 2)), 1 << 30);
    assert_eq!(FixedPoint::times(3, 1 << 31), 1);
    assert_eq!(FixedPoint::times(u64::MAX, u64::MAX), u64::MAX);
    assert_eq!(FixedPoint::over(one, FixedPoint::ratio(4, 1)), 1 << 30);
    assert_eq!(FixedPoint::over(one, 0), u64::MAX);
    assert_eq!(FixedPoint::over(u64::MAX, 1), u64::MAX);
    assert!(FixedPoint::is_zero(0));
    assert!(!FixedPoint::is_zero(1));
    assert!(is_null::<FixedPoint>(0));
    assert!(is_null::<Ieee>(bits(-0.0)));
    assert!(is_null::<Ieee>(0));
    assert!(!is_null::<Ieee>(bits(0.5)));
}

#[test]
fn generators_name_their_kernels() {
    assert_eq!(
        KernelGenerator::<Ieee>::name(&SimpleRwGenerator),
        ("srw".to_string(), "Simple RW".to_string())
    );
    assert_eq!(
        KernelGenerator::<Ieee>::name(&BiasedRwGenerator {
            probability: bits(0.5),
            direction: Direction::East,
        }),
        ("brw".to_string(), "Biased RW".to_string())
    );
    assert_eq!(
        KernelGenerator::<Ieee>::name(&CorrelatedRwGenerator { persistence: bits(0.5) }),
        ("brw".to_string(), "Biased RW".to_string())
    );
    assert_eq!(
        KernelGenerator::<Ieee>::name(&BiasedCorrelatedRwGenerator {
            probability: bits(0.5),
            direction: Direction::East,
            persistence: bits(0.5),
        }),
        ("bcrw".to_string(), "Biased and correlated RW".to_string())
    );
    assert_eq!(
        KernelGenerator::<Ieee>::name(&LevyWalkGenerator {}),
        ("lw".to_string(), "Lévy Walk".to_string())
    );

    let kernels = Kernel::multiple_from_generator::<Ieee, _>(BiasedCorrelatedRwGenerator {
        probability: bits(0.5),
        direction: Direction::East,
        persistence: bits(0.5),
    })
    .unwrap();
    assert_eq!(kernels.len(), 5);
    for kernel in kernels.iter() {
        assert_eq!(kernel.name(true), "bcrw");
        assert_eq!(kernel.name(false), "Biased and correlated RW");
        assert_eq!(kernel.size(), 3);
    }
    let levy = Kernel::from_generator::<Ieee, _>(LevyWalkGenerator {}).unwrap();
    assert_eq!(levy.name(false), "Lévy Walk");
}

#[test]
fn generators_leave_refused_kernels_alone() {
    let given = vec![Kernel::from_values(vec![7]).unwrap(); 4];
    let mut kernels = given.clone();

    assert_eq!(
        KernelGenerator::<Ieee>::prepare(&CorrelatedRwGenerator { persistence: bits(0.5) }, &mut kernels),
        Err(KernelGeneratorError::NotEnoughKernels)
    );
    assert_eq!(kernels, given);

    let mut six = vec![Kernel::try_new(3, ("a".into(), "b".into())).unwrap(); 6];
    let cleared = six.clone();
    assert_eq!(
        KernelGenerator::<Ieee>::generate(&CorrelatedRwGenerator { persistence: bits(0.5) }, &mut six),
        Err(KernelGeneratorError::NotEnoughKernels)
    );
    assert_eq!(six, cleared);

    let mut two = given[..2].to_vec();
    assert_eq!(KernelGenerator::<Ieee>::prepare(&SimpleRwGenerator, &mut two), Ok(()));
    assert_eq!(two[0].probabilities, vec![vec![0u64; 3]; 3]);
    assert_eq!(two[0].name(true), "ck");
    assert_eq!(two[1], given[1]);
    assert_eq!(KernelGenerator::<Ieee>::generate(&SimpleRwGenerator, &mut two), Ok(()));
    assert_eq!(two[0], Kernel::simple_rw::<Ieee>());
    assert_eq!(two[1], given[1]);
}
