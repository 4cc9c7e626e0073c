use hercules::initial_points::{
    generate_alpha_starting_point, generate_central_starting_points, generate_random_binary_point,
    generate_random_binary_points, generate_rho_starting_point, FULL_THRESHOLD, HALF_THRESHOLD,
    ONE_HALF_BITS,
};
use hercules::rng::{derive_node_seed, JsfRng};
use smolprng::{JsfLarge, PRNG};

#[test]
fn central_point_is_exactly_one_half_everywhere() {
    for n in [0usize, 1, 7, 33] {
        let x = generate_central_starting_points(n);
        assert_eq!(x.len(), n);
        for &bits in &x {
            assert_eq!(f64::from_bits(bits), 0.5);
        }
    }
    assert_eq!(f64::from_bits(ONE_HALF_BITS), 0.5);
}

#[test]
fn alpha_and_rho_points_repeat_the_heuristic_scalar() {
    let alpha = 0.3125f64;
    let x = generate_alpha_starting_point(6, alpha.to_bits());
    assert_eq!(x.len(), 6);
    for &bits in &x {
        assert_eq!(f64::from_bits(bits), alpha);
    }
    let rho = 0.71f64;
    let y = generate_rho_starting_point(4, rho.to_bits());
    assert_eq!(y.len(), 4);
    for &bits in &y {
        assert_eq!(f64::from_bits(bits), rho);
    }
}

#[test]
fn full_threshold_gives_all_ones_zero_gives_all_zeros() {
    let mut rng = JsfRng::new(42);
    let ones = generate_random_binary_point(50, &mut rng, FULL_THRESHOLD);
    assert_eq!(ones, vec![1usize; 50]);
    let zeros = generate_random_binary_point(50, &mut rng, 0);
    assert_eq!(zeros, vec![0usize; 50]);
}

#[test]
fn binary_point_matches_direct_generator_stream() {
    let seed = 7u64;
    let sparsity = 0.5f64;
    let threshold = (sparsity * 4503599627370496.0).ceil() as u64;
    assert_eq!(threshold, HALF_THRESHOLD);
    let mut rng = JsfRng::new(seed);
    let x = generate_random_binary_point(200, &mut rng, threshold);
    let mut prng = PRNG { generator: JsfLarge::from(seed) };
    for (i, &e) in x.iter().enumerate() {
        let expect = usize::from(prng.gen_f64() < sparsity);
        assert_eq!(e, expect, "entry {i} disagrees with the direct stream");
    }
    // both zeros and ones occur at this sparsity over 200 draws
    assert!(x.iter().any(|&e| e == 1));
    assert!(x.iter().any(|&e| e == 0));
}

#[test]
fn batch_continues_one_stream() {
    let seed = 31u64;
    let (n, num_points) = (17usize, 5usize);
    let mut rng = JsfRng::new(seed);
    let batch = generate_random_binary_points(n, num_points, &mut rng);
    assert_eq!(batch.len(), num_points);
    let mut flat = JsfRng::new(seed);
    for point in &batch {
        assert_eq!(point.len(), n);
        let expect = generate_random_binary_point(n, &mut flat, HALF_THRESHOLD);
        assert_eq!(*point, expect);
    }
}

#[test]
fn node_seed_wraps_like_unsigned_addition() {
    assert_eq!(derive_node_seed(10, 32), 42);
    assert_eq!(derive_node_seed(u64::MAX, 5), 4);
    assert_eq!(derive_node_seed(u64::MAX, 0), u64::MAX);
    assert_eq!(derive_node_seed(0, 0), 0);
}
