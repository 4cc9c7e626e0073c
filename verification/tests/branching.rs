use hercules::branching::{
    best_approximation, first_not_fixed, most_violated, random, worst_approximation, BranchError,
};
use smolprng::{JsfLarge, PRNG};

/// Order-preserving key for a finite `f64`: larger floats give larger keys.
fn order_key(x: f64) -> u64 {
    let b = x.to_bits();
    if b >> 63 == 1 {
        !b
    } else {
        b | 0x8000_0000_0000_0000
    }
}

/// Key for how far a solution entry sits from one half: the bit pattern of
/// the non-negative distance, which orders as the distance does.
fn violation_key(x: f64) -> u64 {
    (x - 0.5).abs().to_bits()
}

#[test]
fn first_not_fixed_skips_fixed_prefix() {
    let fixed: Vec<usize> = vec![0, 1, 2];
    assert_eq!(first_not_fixed(5, &fixed), Ok(3));
}

#[test]
fn first_not_fixed_from_empty_fixed_set() {
    let fixed: Vec<usize> = vec![];
    assert_eq!(first_not_fixed(4, &fixed), Ok(0));
}

#[test]
fn most_violated_picks_exact_half() {
    let fixed: Vec<usize> = vec![];
    let violation: Vec<u64> = [0.1, 0.5, 0.9].iter().map(|&x| violation_key(x)).collect();
    assert_eq!(most_violated(3, &fixed, &violation), Ok(1));
}

#[test]
fn most_violated_tie_keeps_later_index() {
    let fixed: Vec<usize> = vec![];
    let violation: Vec<u64> = [0.1, 0.9, 0.3].iter().map(|&x| violation_key(x)).collect();
    // entries 0 and 1 are equally far from one half; replacement on `<=`
    // keeps the later of the tied pair, and index 2 is strictly closer.
    assert_eq!(most_violated(3, &fixed, &violation), Ok(2));
    let violation2: Vec<u64> = [0.1, 0.9].iter().map(|&x| violation_key(x)).collect();
    assert_eq!(most_violated(2, &fixed, &violation2), Ok(1));
}

#[test]
fn most_violated_skips_fixed() {
    let fixed: Vec<usize> = vec![1];
    let violation: Vec<u64> = [0.1, 0.5, 0.9].iter().map(|&x| violation_key(x)).collect();
    assert_eq!(most_violated(3, &fixed, &violation), Ok(2));
}

#[test]
fn random_is_deterministic_and_in_range() {
    let fixed: Vec<usize> = vec![2, 4];
    let a = random(7, &fixed, 123).unwrap();
    let b = random(7, &fixed, 123).unwrap();
    assert_eq!(a, b);
    assert!(a < 7);
    assert!(!fixed.contains(&a));
}

#[test]
fn random_returns_the_single_unfixed_variable() {
    // whatever the draw, the circular scan must land on the one free index
    for seed in 0..20u64 {
        let fixed: Vec<usize> = vec![0, 1, 3, 4];
        assert_eq!(random(5, &fixed, seed), Ok(2));
    }
}

#[test]
fn random_matches_direct_generator() {
    let n: usize = 11;
    for seed in 0..10u64 {
        let fixed: Vec<usize> = vec![3, 7];
        let mut prng = PRNG { generator: JsfLarge::from(seed) };
        let start = (prng.gen_u64() % n as u64) as usize;
        let mut expect = None;
        for i in start..n {
            if !fixed.contains(&i) {
                expect = Some(i);
                break;
            }
        }
        if expect.is_none() {
            for i in 0..start {
                if !fixed.contains(&i) {
                    expect = Some(i);
                    break;
                }
            }
        }
        assert_eq!(random(n, &fixed, seed), Ok(expect.unwrap()));
    }
}

#[test]
fn worst_approximation_maximizes_best_case() {
    let fixed: Vec<usize> = vec![];
    let zero: Vec<u64> = [0.0, 10.0, 5.0].iter().map(|&x| order_key(x)).collect();
    let one: Vec<u64> = [5.0, 20.0, 3.0].iter().map(|&x| order_key(x)).collect();
    // per-variable best cases are 0, 10, 3: variable 1 grows fastest
    assert_eq!(worst_approximation(3, &fixed, &zero, &one), Ok(1));
}

#[test]
fn best_approximation_minimizes_worst_case() {
    let fixed: Vec<usize> = vec![];
    let zero: Vec<u64> = [0.0, 10.0, 5.0].iter().map(|&x| order_key(x)).collect();
    let one: Vec<u64> = [5.0, 20.0, 3.0].iter().map(|&x| order_key(x)).collect();
    // per-variable worst cases are 5, 20, 5: indices 0 and 2 tie and
    // replacement on `<=` keeps the later one
    assert_eq!(best_approximation(3, &fixed, &zero, &one), Ok(2));
}

#[test]
fn worst_and_best_differ_on_distinct_deltas() {
    let fixed: Vec<usize> = vec![];
    let zero: Vec<u64> = [1.0, -2.0, 4.0].iter().map(|&x| order_key(x)).collect();
    let one: Vec<u64> = [3.0, 6.0, 5.0].iter().map(|&x| order_key(x)).collect();
    // best cases 1, -2, 4 peak at index 2; worst cases 3, 6, 5 dip at index 0
    let w = worst_approximation(3, &fixed, &zero, &one).unwrap();
    let b = best_approximation(3, &fixed, &zero, &one).unwrap();
    assert_eq!(w, 2);
    assert_eq!(b, 0);
    assert_ne!(w, b);
}

#[test]
fn worst_approximation_ignores_fixed_and_negative_deltas() {
    let fixed: Vec<usize> = vec![1];
    let zero: Vec<u64> = [-7.0, 100.0, -1.0].iter().map(|&x| order_key(x)).collect();
    let one: Vec<u64> = [-3.0, 100.0, -2.0].iter().map(|&x| order_key(x)).collect();
    // best cases of the free variables are -7 and -2
    assert_eq!(worst_approximation(3, &fixed, &zero, &one), Ok(2));
}

#[test]
fn every_strategy_fails_when_all_variables_are_fixed() {
    let fixed: Vec<usize> = vec![1, 0, 2];
    let keys: Vec<u64> = vec![0, 0, 0];
    assert_eq!(first_not_fixed(3, &fixed), Err(BranchError::ExhaustedBranchSpace));
    assert_eq!(most_violated(3, &fixed, &keys), Err(BranchError::ExhaustedBranchSpace));
    assert_eq!(random(3, &fixed, 99), Err(BranchError::ExhaustedBranchSpace));
    assert_eq!(
        worst_approximation(3, &fixed, &keys, &keys),
        Err(BranchError::ExhaustedBranchSpace)
    );
    assert_eq!(
        best_approximation(3, &fixed, &keys, &keys),
        Err(BranchError::ExhaustedBranchSpace)
    );
    let none: Vec<usize> = vec![];
    let empty: Vec<u64> = vec![];
    assert_eq!(first_not_fixed(0, &none), Err(BranchError::ExhaustedBranchSpace));
    assert_eq!(most_violated(0, &none, &empty), Err(BranchError::ExhaustedBranchSpace));
    assert_eq!(random(0, &none, 1), Err(BranchError::ExhaustedBranchSpace));
}
