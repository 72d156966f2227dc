use frac_math::{highest_divisor, lowest_multiple, Frac32, FracError};
use std::cmp::Ordering;

#[test]
fn test() {
    let a = Frac32::one() * Frac32::new(1, 2);
    assert_eq!(a, Frac32::new(1, 2));
    println!("{}", a.to_text());

    let a = Frac32::new(1, 6) + Frac32::new(1, 4);
    assert_eq!(a, Frac32::new(5, 12));
    println!("{}", a.to_text());
}

fn parts(f: Frac32) -> (i32, i32) {
    (f.numerator, f.denominator)
}

#[test]
fn elem_reduces_and_moves_sign_to_numerator() {
    assert_eq!(parts(Frac32::new(6, -4).elem().unwrap()), (-3, 2));
    assert_eq!(parts(Frac32::new(-6, -4).elem().unwrap()), (3, 2));
    assert_eq!(parts(Frac32::new(0, -7).elem().unwrap()), (0, 1));
    assert_eq!(parts(Frac32::new(1081, 1457).elem().unwrap()), (23, 31));
    assert_eq!(parts(Frac32::new(i32::MIN, 2).elem().unwrap()), (-1073741824, 1));
}

#[test]
fn elem_is_idempotent() {
    let once = Frac32::new(84, -36).elem().unwrap();
    let twice = once.elem().unwrap();
    assert_eq!(parts(once), parts(twice));
    assert_eq!(highest_divisor(once.numerator, once.denominator), 1);
}

#[test]
fn elem_errors() {
    assert_eq!(Frac32::new(3, 0).elem(), Err(FracError::DivisionByZero));
    assert_eq!(Frac32::new(i32::MIN, -1).elem(), Err(FracError::Overflow));
    assert_eq!(Frac32::new(1, i32::MIN).elem(), Err(FracError::Overflow));
}

#[test]
fn add_matches_cross_multiplied_sum() {
    let (a, b, c, d) = (3, 10, -7, 15);
    let r = Frac32::new(a, b).checked_add(Frac32::new(c, d)).unwrap();
    assert_eq!(parts(r), (-1, 6));
    assert_eq!(r, Frac32::new(a * d + c * b, b * d));
}

#[test]
fn sub_mul_div_values() {
    let x = Frac32::new(3, 4);
    let y = Frac32::new(-5, 6);
    assert_eq!(parts(x - y), (19, 12));
    assert_eq!(parts(x * y), (-5, 8));
    assert_eq!(parts(x / y), (-9, 10));
    assert_eq!(parts(y / x), (-10, 9));
}

#[test]
fn arithmetic_errors() {
    let big = Frac32::new(i32::MAX, 1);
    assert_eq!(big.checked_add(Frac32::one()), Err(FracError::Overflow));
    assert_eq!(big.checked_mul(Frac32::new(2, 1)), Err(FracError::Overflow));
    assert_eq!(Frac32::new(1, 2).checked_div(Frac32::new(0, 5)), Err(FracError::DivisionByZero));
    assert_eq!(Frac32::new(1, 0).checked_sub(Frac32::one()), Err(FracError::DivisionByZero));
}

#[test]
fn wide_intermediates_do_not_overflow() {
    let a = Frac32::new(1, 50000);
    let b = Frac32::new(1, 50001);
    assert_eq!(a.checked_add(b), Err(FracError::Overflow));
    let c = Frac32::new(70000, 70001);
    assert_eq!(parts(c.checked_mul(Frac32::new(70001, 70000)).unwrap()), (1, 1));
    assert_eq!(parts(c.checked_div(c).unwrap()), (1, 1));
}

#[test]
fn assign_forms_replace_or_keep() {
    let mut x = Frac32::new(1, 3);
    assert_eq!(x.add_assign(Frac32::new(1, 6)), Ok(()));
    assert_eq!(parts(x), (1, 2));
    assert_eq!(x.sub_assign(Frac32::new(1, 4)), Ok(()));
    assert_eq!(parts(x), (1, 4));
    assert_eq!(x.mul_assign(Frac32::new(8, 3)), Ok(()));
    assert_eq!(parts(x), (2, 3));
    assert_eq!(x.div_assign(Frac32::new(4, 9)), Ok(()));
    assert_eq!(parts(x), (3, 2));
    assert_eq!(x.div_assign(Frac32::new(0, 1)), Err(FracError::DivisionByZero));
    assert_eq!(parts(x), (3, 2));
}

#[test]
fn add_and_mul_commute_and_associate() {
    let a = Frac32::new(2, 3);
    let b = Frac32::new(-5, 7);
    let c = Frac32::new(11, 4);
    assert_eq!(parts(a + b), parts(b + a));
    assert_eq!(parts(a * b), parts(b * a));
    assert_eq!((a + b) + c, a + (b + c));
    assert_eq!((a * b) * c, a * (b * c));
}

#[test]
fn mul_distributes_over_add() {
    let a = Frac32::new(-3, 8);
    let b = Frac32::new(5, 6);
    let c = Frac32::new(7, 10);
    assert_eq!(a * (b + c), a * b + a * c);
    assert_eq!(parts(a * (b + c)), (-23, 40));
}

#[test]
fn div_then_mul_gives_back() {
    let a = Frac32::new(7, 12);
    let b = Frac32::new(-9, 4);
    assert_eq!((a / b) * b, a);
    assert_eq!(parts((a / b) * b), (7, 12));
}

#[test]
fn equality_by_cross_multiplication() {
    assert_eq!(Frac32::new(2, 4), Frac32::new(1, 2));
    assert_eq!(Frac32::new(-1, 2), Frac32::new(1, -2));
    assert_ne!(Frac32::new(1, 3), Frac32::new(1, 2));
}

#[test]
fn ordering_with_signs() {
    assert!(Frac32::new(1, 3) < Frac32::new(1, 2));
    assert!(Frac32::new(1, -2) < Frac32::new(1, 3));
    assert!(Frac32::new(-1, -2) > Frac32::new(1, 3));
    assert_eq!(Frac32::new(3, -6).partial_cmp(&Frac32::new(-1, 2)), Some(Ordering::Equal));
    assert_eq!(Frac32::new(1, 0).partial_cmp(&Frac32::new(1, 2)), None);
    let a = Frac32::new(-7, 3);
    let b = Frac32::new(2, -5);
    let c = Frac32::new(9, 4);
    assert!(a < b && b < c && a < c);
}

#[test]
fn highest_divisor_values() {
    assert_eq!(highest_divisor(12, 18), 6);
    assert_eq!(highest_divisor(-12, 18), 6);
    assert_eq!(highest_divisor(12, -18), 6);
    assert_eq!(highest_divisor(0, 5), 5);
    assert_eq!(highest_divisor(0, 0), 0);
    assert_eq!(highest_divisor(17, 5), 1);
    assert_eq!(highest_divisor(i32::MIN, 6), 2);
}

#[test]
fn lowest_multiple_values() {
    assert_eq!(lowest_multiple(4, 6), Some(12));
    assert_eq!(lowest_multiple(-4, 6), Some(-12));
    assert_eq!(lowest_multiple(-4, -6), Some(12));
    assert_eq!(lowest_multiple(0, 0), Some(0));
    assert_eq!(lowest_multiple(0, 9), Some(0));
    assert_eq!(lowest_multiple(65536, 65537), None);
    assert_eq!(lowest_multiple(i32::MIN, 1), Some(i32::MIN));
}

#[test]
fn text_form() {
    assert_eq!(Frac32::new(1, 2).to_text(), "(1/2)");
    assert_eq!(Frac32::new(-30, 7).to_text(), "(-30/7)");
    assert_eq!(Frac32::new(6, -4).to_text(), "(6/-4)");
    assert_eq!(Frac32::new(1, 6).checked_add(Frac32::new(1, 4)).unwrap().to_text(), "(5/12)");
}
