use bench_harness::matrix::{merge, multiply_partitioned, multiply_rows, naive_multiply};
use bench_harness::partition::{split, Partition};

fn sample(s: usize, seed: u64) -> Vec<Vec<u64>> {
    (0..s)
        .map(|i| (0..s).map(|j| seed.wrapping_mul(31).wrapping_add((i * s + j) as u64 * 7 + 3)).collect())
        .collect()
}

#[test]
fn naive_product_known_value() {
    let a = vec![vec![1, 2], vec![3, 4]];
    let b = vec![vec![5, 6], vec![7, 8]];
    assert_eq!(naive_multiply(&a, &b), vec![vec![19, 22], vec![43, 50]]);
}

#[test]
fn product_wraps_modulo_two_to_the_64() {
    let a = vec![vec![u64::MAX]];
    let b = vec![vec![2]];
    assert_eq!(naive_multiply(&a, &b), vec![vec![u64::MAX - 1]]);
}

#[test]
fn partial_product_zero_outside_rows() {
    let a = vec![vec![1, 2], vec![3, 4]];
    let b = vec![vec![5, 6], vec![7, 8]];
    let p = multiply_rows(&a, &b, Partition { start: 1, end: 2 });
    assert_eq!(p, vec![vec![0, 0], vec![43, 50]]);
}

#[test]
fn merge_sums_elementwise() {
    let parts = vec![vec![vec![1, 0], vec![0, 0]], vec![vec![0, 2], vec![3, 4]], vec![vec![10, 10], vec![10, 10]]];
    assert_eq!(merge(&parts, 2), vec![vec![11, 12], vec![13, 14]]);
}

#[test]
fn merge_of_nothing_is_zero() {
    let parts: Vec<Vec<Vec<u64>>> = Vec::new();
    assert_eq!(merge(&parts, 2), vec![vec![0, 0], vec![0, 0]]);
}

#[test]
fn merged_partials_match_naive_for_any_worker_count() {
    for s in 0..7 {
        let a = sample(s, 5);
        let b = sample(s, 11);
        let expected = naive_multiply(&a, &b);
        for w in 1..10 {
            assert_eq!(multiply_partitioned(&a, &b, w), expected);
            let partials: Vec<Vec<Vec<u64>>> = split(s, w).iter().map(|p| multiply_rows(&a, &b, *p)).collect();
            assert_eq!(merge(&partials, s), expected);
        }
    }
}
