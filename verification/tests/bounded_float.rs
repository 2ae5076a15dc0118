use textiler_core::theme::color::Color;
use textiler_core::theme::gradient::Gradient;
use textiler_core::utils::bounded_float::{BoundedFloat, Fraction};

fn unit(num: i64, den: u32) -> Option<BoundedFloat> {
    BoundedFloat::new(Fraction::new(num, den), 0, 1)
}

#[test]
fn bounded_floats() {
    unit(1, 10).expect("is valid");
    assert!(unit(11, 10).is_none());
}

#[test]
fn bounded_floats_inclusive() {
    unit(0, 1).expect("is valid");
    unit(1, 1).expect("is valid");
}

#[test]
fn bounded_float_rejects_nan() {
    assert!(unit(0, 0).is_none());
    assert!(unit(1, 0).is_none());
    assert!(Fraction::new(1, 0).is_not_a_number());
}

#[test]
fn bounded_float_btree() {
    let grey = Color::rgb(1, 1, 1);
    let raw = vec![
        (Fraction::new(7, 10), grey.clone()),
        (Fraction::new(3, 100), grey.clone()),
        (Fraction::new(9, 10), grey.clone()),
        (Fraction::new(8, 10), grey.clone()),
        (Fraction::new(2, 10), grey.clone()),
        (Fraction::new(0, 1), grey.clone()),
        (Fraction::new(1, 1), grey.clone()),
    ];
    let gradient = Gradient::from_points(&raw).expect("should be okay");
    let points = gradient.points();
    assert_eq!(points.len(), 7);
    for pair in points.windows(2) {
        assert!(pair[0].0.lt(&pair[1].0));
        assert!(!pair[1].0.le(&pair[0].0));
    }
}

#[test]
fn bounded_floats_reject_what_lies_outside() {
    assert!(BoundedFloat::new(Fraction::new(-1, 100), 0, 1).is_none());
    assert!(BoundedFloat::new(Fraction::new(101, 100), 0, 1).is_none());
    assert!(BoundedFloat::new(Fraction::new(-5, 1), -5, 5).is_some());
    assert!(BoundedFloat::new(Fraction::new(5, 1), -5, 5).is_some());
    assert!(BoundedFloat::new(Fraction::new(-51, 10), -5, 5).is_none());
    assert!(BoundedFloat::new(Fraction::new(1, 2), 1, 0).is_none());
}

#[test]
fn bounded_floats_are_equal_by_magnitude() {
    let half = unit(1, 2).unwrap();
    let two_quarters = unit(2, 4).unwrap();
    let third = unit(1, 3).unwrap();
    assert!(half == two_quarters);
    assert!(half != third);
    assert!(third.lt(&half));
    assert!(half.le(&two_quarters));
    assert_eq!(half.get().num, 1);
    assert_eq!(half.get().den, 2);
    assert_eq!(half.low(), 0);
    assert_eq!(half.high(), 1);
}

#[test]
fn sums_and_differences_are_exact_and_unbounded() {
    let a = unit(3, 4).unwrap();
    let b = unit(1, 2).unwrap();
    let sum = a.add(&b);
    assert_eq!((sum.num, sum.den), (10, 8));
    let difference = b.sub(&a);
    assert_eq!((difference.num, difference.den), (-2, 8));
}

#[test]
fn the_ends_of_a_range_are_bounded_values() {
    let low = BoundedFloat::min(-3, 7);
    let high = BoundedFloat::max(-3, 7);
    assert_eq!(low.get().num, -3);
    assert_eq!(high.get().num, 7);
    assert!(low.lt(&high));
}
