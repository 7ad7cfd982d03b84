use randomwalks_lib::arithmetic::Arithmetic;
use randomwalks_lib::dataset::point::XYPoint;
use randomwalks_lib::dp::builder::DynamicProgramBuilder;
use randomwalks_lib::dp::multi::MultiDynamicProgram;
use randomwalks_lib::dp::simple::DynamicProgram;
use randomwalks_lib::dp::store::{StoreError, COMPRESSION_LEVEL};
use randomwalks_lib::dp::{DynamicProgramPool, DynamicPrograms};
use randomwalks_lib::kernel::correlated_rw::CorrelatedRwGenerator;
use randomwalks_lib::kernel::simple_rw::SimpleRwGenerator;
use randomwalks_lib::kernel::Kernel;

/// IEEE-754 doubles, carried as their bit patterns.
struct Ieee;

impl Arithmetic for Ieee {
    fn fraction(n: u32, d: u32) -> u64 {
        (n as f64 / d as f64).to_bits()
    }

    fn vanishes(w: u64) -> bool {
        f64::from_bits(w) == 0.0
    }

    fn sum(a: u64, b: u64) -> u64 {
        (f64::from_bits(a) + f64::from_bits(b)).to_bits()
    }

    fn difference(a: u64, b: u64) -> u64 {
        (f64::from_bits(a) - f64::from_bits(b)).to_bits()
    }

    fn product(a: u64, b: u64) -> u64 {
        (f64::from_bits(a) * f64::from_bits(b)).to_bits()
    }

    fn quotient(a: u64, b: u64) -> u64 {
        (f64::from_bits(a) / f64::from_bits(b)).to_bits()
    }

    fn ratio(n: u32, d: u32) -> u64 {
        Self::fraction(n, d)
    }

    fn is_zero(w: u64) -> bool {
        Self::vanishes(w)
    }

    fn plus(a: u64, b: u64) -> u64 {
        Self::sum(a, b)
    }

    fn minus(a: u64, b: u64) -> u64 {
        Self::difference(a, b)
    }

    fn times(a: u64, b: u64) -> u64 {
        Self::product(a, b)
    }

    fn over(a: u64, b: u64) -> u64 {
        Self::quotient(a, b)
    }
}

fn bits(v: f64) -> u64 {
    v.to_bits()
}

fn val(w: u64) -> f64 {
    f64::from_bits(w)
}

fn computed_simple(time_limit: usize) -> DynamicProgram {
    let mut pool = DynamicProgramBuilder::new()
        .simple()
        .time_limit(time_limit)
        .kernel(Kernel::from_generator::<Ieee, _>(SimpleRwGenerator).unwrap())
        .add_single_barrier(XYPoint { x: 0, y: time_limit as i64 })
        .build::<Ieee>()
        .unwrap();
    pool.compute::<Ieee>();
    match pool {
        DynamicProgramPool::Single(dp) => dp,
        DynamicProgramPool::Multiple(_) => unreachable!(),
    }
}

fn computed_multi(time_limit: usize) -> MultiDynamicProgram {
    let mut pool = DynamicProgramBuilder::new()
        .multi()
        .time_limit(time_limit)
        .kernels(
            Kernel::multiple_from_generator::<Ieee, _>(CorrelatedRwGenerator {
                persistence: bits(0.5),
            })
            .unwrap(),
        )
        .add_single_barrier(XYPoint { x: 0, y: time_limit as i64 })
        .build::<Ieee>()
        .unwrap();
    pool.compute::<Ieee>();
    match pool {
        DynamicProgramPool::Multiple(dp) => dp,
        DynamicProgramPool::Single(_) => unreachable!(),
    }
}

fn words(values: &[u64]) -> Vec<u8> {
    values.iter().flat_map(|w| w.to_le_bytes()).collect()
}

#[test]
fn a_saved_program_comes_back() {
    for time_limit in [0, 1, 4, 10] {
        let dp = computed_simple(time_limit);

        let frame = dp.save().unwrap();
        let restored = DynamicProgram::load(&frame).unwrap();

        let DynamicProgramPool::Single(restored) = restored else {
            unreachable!();
        };
        assert_eq!(restored.time_limit, dp.time_limit);
        assert_eq!(restored.table, dp.table);
        assert_eq!(restored.field_probabilities, dp.field_probabilities);
        assert_eq!(restored, dp);
        assert_eq!(restored.kernel.probabilities, vec![vec![0u64; 3]; 3]);
        assert_eq!(restored.kernel.name(true), "ck");
    }
}

#[test]
fn a_saved_program_with_variants_comes_back() {
    for time_limit in [0, 1, 5] {
        let dp = computed_multi(time_limit);

        let frame = dp.save().unwrap();
        let restored = MultiDynamicProgram::load(&frame).unwrap();

        let DynamicProgramPool::Multiple(restored) = restored else {
            unreachable!();
        };
        assert_eq!(restored.time_limit, dp.time_limit);
        assert_eq!(restored.table, dp.table);
        assert_eq!(restored.field_probabilities, dp.field_probabilities);
        assert_eq!(restored, dp);
        assert_eq!(restored.kernels.len(), 5);
        for kernel in restored.kernels.iter() {
            assert_eq!(kernel.probabilities, vec![vec![0u64; 3]; 3]);
        }
    }
}

#[test]
fn pools_save_their_program() {
    let single = DynamicProgramPool::Single(computed_simple(3));
    let multiple = DynamicProgramPool::Multiple(computed_multi(2));

    assert_eq!(DynamicProgram::load(&single.save().unwrap()).unwrap(), single);
    assert_eq!(MultiDynamicProgram::load(&multiple.save().unwrap()).unwrap(), multiple);
    assert_eq!(
        DynamicProgram::load(&DynamicPrograms::save(&single).unwrap()).unwrap(),
        single
    );
}

#[test]
fn frames_are_compressed_images() {
    let dp = computed_simple(10);

    let image = dp.encode();
    let frame = dp.save().unwrap();

    assert_eq!(image.len(), 8 * (1 + 12 * 21 * 21));
    assert!(frame.len() < image.len());
    assert_eq!(zstd::decode_all(&frame[..]).unwrap(), image);
    assert_eq!(
        DynamicProgram::load(&zstd::encode_all(&image[..], 1).unwrap()).unwrap(),
        DynamicProgramPool::Single(dp)
    );
    assert_eq!(COMPRESSION_LEVEL, 9);
}

#[test]
fn the_image_lists_time_limit_table_and_mask() {
    let mut dp = DynamicProgram::new(
        1,
        Kernel::from_generator::<Ieee, _>(SimpleRwGenerator).unwrap(),
        vec![vec![100, 101, 102], vec![103, 104, 105], vec![106, 107, 108]],
    );
    for t in 0..2usize {
        for x in 0..3usize {
            for y in 0..3usize {
                dp.table[t][x][y] = (10 * t + 3 * x + y) as u64;
            }
        }
    }

    let mut expected = vec![1u64];
    expected.extend(0..9);
    expected.extend(10..19);
    expected.extend(100..109);
    assert_eq!(dp.encode(), words(&expected));
    assert_eq!(dp.encode()[..8], [1, 0, 0, 0, 0, 0, 0, 0]);

    let half = DynamicProgram::new(0, Kernel::simple_rw::<Ieee>(), vec![vec![bits(0.5)]]);
    assert_eq!(
        half.encode(),
        [0u64.to_le_bytes(), 0u64.to_le_bytes(), 0.5f64.to_le_bytes()].concat()
    );
}

#[test]
fn the_image_of_variants_lists_them_within_each_time() {
    let mut dp = MultiDynamicProgram::new(
        1,
        vec![Kernel::simple_rw::<Ieee>(); 2],
        vec![vec![bits(1.0); 3]; 3],
    );
    for t in 0..2usize {
        for v in 0..2usize {
            for x in 0..3usize {
                for y in 0..3usize {
                    dp.table[t][v][x][y] = (100 * t + 10 * v + 3 * x + y) as u64;
                }
            }
        }
    }

    let mut expected = vec![1u64, 2];
    expected.extend(0..9);
    expected.extend(10..19);
    expected.extend(100..109);
    expected.extend(110..119);
    expected.extend([bits(1.0); 9]);
    assert_eq!(dp.encode(), words(&expected));
}

#[test]
fn decode_reads_what_encode_wrote() {
    let dp = computed_simple(2);
    let mut image = dp.encode();

    assert_eq!(DynamicProgram::decode(&image), Ok(computed_simple(2)));

    image.extend([1, 2, 3]);
    assert_eq!(DynamicProgram::decode(&image), Ok(computed_simple(2)));

    let multi = computed_multi(2);
    assert_eq!(MultiDynamicProgram::decode(&multi.encode()), Ok(computed_multi(2)));
}

#[test]
fn short_images_are_refused() {
    assert_eq!(DynamicProgram::decode(&[]), Err(StoreError::MissingTimeLimit));
    assert_eq!(DynamicProgram::decode(&[0; 7]), Err(StoreError::MissingTimeLimit));
    assert_eq!(DynamicProgram::decode(&[0; 8]), Err(StoreError::Truncated));
    assert_eq!(DynamicProgram::decode(&[0; 23]), Err(StoreError::Truncated));
    assert!(DynamicProgram::decode(&[0; 24]).is_ok());

    let image = computed_simple(3).encode();
    assert_eq!(DynamicProgram::decode(&image[..image.len() - 1]), Err(StoreError::Truncated));
    assert_eq!(DynamicProgram::decode(&words(&[u64::MAX, 0, 0])), Err(StoreError::Truncated));
    assert_eq!(DynamicProgram::decode(&words(&[1 << 31, 0, 0])), Err(StoreError::Truncated));
    assert_eq!(DynamicProgram::decode(&words(&[1 << 20, 0, 0])), Err(StoreError::Truncated));

    assert_eq!(MultiDynamicProgram::decode(&[0; 7]), Err(StoreError::MissingTimeLimit));
    assert_eq!(MultiDynamicProgram::decode(&[0; 8]), Err(StoreError::MissingVariants));
    assert_eq!(MultiDynamicProgram::decode(&[0; 15]), Err(StoreError::MissingVariants));
    assert_eq!(MultiDynamicProgram::decode(&[0; 16]), Err(StoreError::Truncated));
    assert!(MultiDynamicProgram::decode(&[0; 24]).is_ok());
    assert_eq!(
        MultiDynamicProgram::decode(&words(&[0, 2, 0, 0])),
        Err(StoreError::Truncated)
    );
    assert!(MultiDynamicProgram::decode(&words(&[0, 2, 0, 0, 0])).is_ok());
    assert_eq!(
        MultiDynamicProgram::decode(&words(&[0, u64::MAX, 0, 0, 0])),
        Err(StoreError::Truncated)
    );
    assert_eq!(
        MultiDynamicProgram::decode(&words(&[u64::MAX, u64::MAX, 0, 0, 0])),
        Err(StoreError::Truncated)
    );

    let image = computed_multi(2).encode();
    assert_eq!(
        MultiDynamicProgram::decode(&image[..image.len() - 8]),
        Err(StoreError::Truncated)
    );
}

#[test]
fn frames_that_are_none_are_refused() {
    let image = computed_simple(2).encode();

    assert_eq!(DynamicProgram::load(&image), Err(StoreError::Decompression));
    assert_eq!(DynamicProgram::load(&[1, 2, 3]), Err(StoreError::Decompression));
    assert_eq!(MultiDynamicProgram::load(&[1, 2, 3]), Err(StoreError::Decompression));

    let frame = computed_simple(2).save().unwrap();
    assert_eq!(
        DynamicProgram::load(&frame[..frame.len() - 1]),
        Err(StoreError::Decompression)
    );

    let short = zstd::encode_all(&[0u8; 5][..], 3).unwrap();
    assert_eq!(DynamicProgram::load(&short), Err(StoreError::MissingTimeLimit));
    let no_variants = zstd::encode_all(&[0u8; 9][..], 3).unwrap();
    assert_eq!(MultiDynamicProgram::load(&no_variants), Err(StoreError::MissingVariants));
    let cut = zstd::encode_all(&image[..image.len() - 8], 3).unwrap();
    assert_eq!(DynamicProgram::load(&cut), Err(StoreError::Truncated));
}

#[test]
fn a_frame_is_what_the_compressor_makes_of_the_image() {
    let single = computed_simple(4);
    let multi = computed_multi(3);

    let frame = single.save().unwrap();
    assert_eq!(COMPRESSION_LEVEL, 9);
    assert_eq!(frame, zstd::encode_all(&single.encode()[..], 9).unwrap());
    assert_eq!(frame, single.save().unwrap());
    assert_eq!(frame, DynamicProgramPool::Single(single.clone()).save().unwrap());
    assert_eq!(frame, DynamicPrograms::save(&single).unwrap());

    let frame = multi.save().unwrap();
    assert_eq!(frame, zstd::encode_all(&multi.encode()[..], 9).unwrap());
    assert_eq!(frame, multi.save().unwrap());
    assert_eq!(frame, DynamicProgramPool::Multiple(multi.clone()).save().unwrap());
    assert_eq!(frame, DynamicPrograms::save(&multi).unwrap());
}
