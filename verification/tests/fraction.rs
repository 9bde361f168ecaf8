use rust_exercises::fraction;

#[test]
fn test_hcf() {
    assert_eq!(fraction::hcf(12, 18), 6);
    assert_eq!(fraction::hcf(18, 12), 6);
    assert_eq!(fraction::hcf(0, 5), 5);
    assert_eq!(fraction::hcf(5, 0), 5);
    assert_eq!(fraction::hcf(7, 13), 1);
    assert_eq!(fraction::hcf(-4, -6), -2);
}

#[test]
fn test_simplify() {
    assert_eq!(fraction::simplify(6, 8), (3, 4));
    assert_eq!(fraction::simplify(5, 10), (1, 2));
    assert_eq!(fraction::simplify(3, 7), (3, 7));
    assert_eq!(fraction::simplify(-4, -6), (2, 3));
    assert_eq!(fraction::simplify(0, 4), (0, 1));
}

#[test]
fn test_add() {
    assert_eq!(fraction::add((1, 2), (1, 3)), (5, 6));
    assert_eq!(fraction::add((1, 4), (1, 4)), (1, 2));
}

#[test]
fn test_sub() {
    assert_eq!(fraction::sub((1, 2), (1, 3)), (1, 6));
    assert_eq!(fraction::sub((3, 4), (1, 4)), (1, 2));
}

#[test]
fn test_mul() {
    assert_eq!(fraction::mul((2, 3), (3, 4)), (1, 2));
    assert_eq!(fraction::mul((1, 2), (2, 1)), (1, 1));
}

#[test]
fn test_divide() {
    assert_eq!(fraction::divide((1, 2), (3, 4)), (2, 3));
    assert_eq!(fraction::divide((2, 5), (2, 5)), (1, 1));
}
