use rust_exercises::sum_of_multiples::sum_of_multiples;

#[test]
fn test_multiples_of_three_and_five_below_twenty() {
    assert_eq!(sum_of_multiples(20, &[3, 5]), 78);
}

#[test]
fn test_multiples_below_ten() {
    assert_eq!(sum_of_multiples(10, &[3, 5]), 23);
}

#[test]
fn test_each_multiple_counted_once() {
    // 15 divides by both factors but is added only once.
    assert_eq!(sum_of_multiples(16, &[3, 5]), 3 + 5 + 6 + 9 + 10 + 12 + 15);
}

#[test]
fn test_no_multiples_below_limit() {
    assert_eq!(sum_of_multiples(3, &[7, 11]), 0);
}

#[test]
fn test_zero_limit_and_zero_factors() {
    assert_eq!(sum_of_multiples(0, &[3, 5]), 0);
    assert_eq!(sum_of_multiples(1, &[3, 5]), 0);
    assert_eq!(sum_of_multiples(10, &[0]), 0);
    assert_eq!(sum_of_multiples(10, &[]), 0);
}

#[test]
fn test_factor_of_one_counts_everything() {
    assert_eq!(sum_of_multiples(5, &[1]), 1 + 2 + 3 + 4);
}
