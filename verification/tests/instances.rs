use tools::generate::{complete_targets, GEN_L, GEN_MAX_DRAW, GEN_N};
use tools::{gen, Input, SetMinMax};

#[test]
fn generated_instances_have_the_fixed_shape() {
    for seed in 0..20u64 {
        let input = gen(seed, u64::MAX).unwrap();
        assert_eq!(input.n, 100);
        assert_eq!(input.l, 500000);
        assert_eq!(input.t.len(), 100);
        assert!(input.t.iter().all(|&t| t <= 10000));
        assert_eq!(input.t.iter().sum::<usize>(), 500000);
    }
}

#[test]
fn generated_targets_vary() {
    let input = gen(1, u64::MAX).unwrap();
    let first = input.t[0];
    assert!(input.t.iter().any(|&t| t != first));
    assert!(input.t.iter().any(|&t| t != 0));
}

#[test]
fn a_seed_determines_the_instance() {
    assert_eq!(gen(7, u64::MAX), gen(7, u64::MAX));
    assert_ne!(gen(7, u64::MAX), gen(8, u64::MAX));
}

#[test]
fn no_attempts_give_no_instance() {
    assert_eq!(gen(0, 0), None);
}

#[test]
fn a_larger_budget_does_not_change_the_instance() {
    let unbounded = gen(3, u64::MAX).unwrap();
    assert_eq!(gen(3, 1_000_000), Some(unbounded));
}

#[test]
fn constants_of_generation() {
    assert_eq!(GEN_N, 100);
    assert_eq!(GEN_L, 500000);
    assert_eq!(GEN_MAX_DRAW, 10000);
}

#[test]
fn draws_are_completed_by_the_missing_target() {
    let mut draws = vec![5000; 99];
    draws[0] = 4000;
    let input = complete_targets(draws.clone()).unwrap();
    let mut expected = draws;
    expected.push(500000 - (98 * 5000 + 4000));
    assert_eq!(input, Input { n: 100, l: 500000, t: expected });
}

#[test]
fn draws_at_the_edges_of_acceptance() {
    let mut low = vec![5000; 99];
    low[0] = 0;
    assert_eq!(low.iter().sum::<usize>(), 490000);
    assert_eq!(complete_targets(low.clone()).unwrap().t[99], 10000);
    low[1] -= 1;
    assert_eq!(complete_targets(low), None);
    let mut high = vec![5000; 99];
    high[0] = 10000;
    assert_eq!(high.iter().sum::<usize>(), 500000);
    assert_eq!(complete_targets(high.clone()).unwrap().t[99], 0);
    high[1] += 1;
    assert_eq!(complete_targets(high), None);
}

#[test]
fn draws_of_the_wrong_number_are_rejected() {
    assert_eq!(complete_targets(vec![5000; 98]), None);
    assert_eq!(complete_targets(vec![5000; 100]), None);
    assert_eq!(complete_targets(vec![]), None);
}

#[test]
fn huge_draws_are_rejected() {
    let mut draws = vec![5000; 99];
    draws[50] = usize::MAX;
    assert_eq!(complete_targets(draws), None);
}

#[test]
fn setmin_lowers_only_to_a_smaller_value() {
    let mut v = 5;
    assert!(v.setmin(3));
    assert_eq!(v, 3);
    assert!(!v.setmin(3));
    assert!(!v.setmin(4));
    assert_eq!(v, 3);
}

#[test]
fn setmax_raises_only_to_a_larger_value() {
    let mut v = 5;
    assert!(v.setmax(8));
    assert_eq!(v, 8);
    assert!(!v.setmax(8));
    assert!(!v.setmax(1));
    assert_eq!(v, 8);
}

#[test]
fn setmin_and_setmax_on_floats() {
    let mut v = 1.5f64;
    assert!(v.setmin(1.0));
    assert!(!v.setmax(0.0));
    assert_eq!(v, 1.0);
    let mut w = -0.5f64;
    assert!(!w.setmin(1.0));
    assert!(w.setmax(0.0));
    assert_eq!(w, 0.0);
    let mut x = 0.25f64;
    assert!(!x.setmin(f64::NAN));
    assert!(!x.setmax(f64::NAN));
    assert_eq!(x, 0.25);
}
