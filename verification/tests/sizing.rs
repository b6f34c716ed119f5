//! Exact expected values for the sizing model, matching the analytical
//! formulas `ceil(-n * ln(p) / ln(2)^2)` and `ceil((bits / n) * ln(2))`.

use flowerbloom::{optimal_bits_needed, optimal_num_hash_fns};

#[test]
fn optimal_values() {
    assert_eq!(335, optimal_bits_needed(100, 200000));
    assert_eq!(730, optimal_bits_needed(100, 30000));
    assert_eq!(959, optimal_bits_needed(100, 10000));
    assert_eq!(10, optimal_bits_needed(1, 10000));
    assert_eq!(96, optimal_bits_needed(10, 10000));

    assert_eq!(3, optimal_num_hash_fns(100, 200000));
    assert_eq!(6, optimal_num_hash_fns(100, 30000));
    assert_eq!(7, optimal_num_hash_fns(100, 10000));
    assert_eq!(7, optimal_num_hash_fns(1, 10000));
    assert_eq!(7, optimal_num_hash_fns(10, 10000));
}

#[test]
fn zero_items_need_zero_bits() {
    assert_eq!(0, optimal_bits_needed(0, 30000));
    assert_eq!(0, optimal_bits_needed(0, 10000));
}

#[test]
fn bits_cover_capacity_for_sane_rates() {
    for (n, ppm) in [(1u32, 500000u32), (7, 125000), (100, 30000), (5000, 10000)] {
        assert!(optimal_bits_needed(n, ppm) >= n);
        assert!(optimal_num_hash_fns(n, ppm) >= 1);
    }
}
