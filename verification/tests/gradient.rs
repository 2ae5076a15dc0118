use textiler_core::theme::color::Color;
use textiler_core::theme::gradient::{Gradient, GradientError};
use textiler_core::utils::bounded_float::{BoundedFloat, Fraction};

fn at(num: i64, den: u32) -> BoundedFloat {
    BoundedFloat::new(Fraction::new(num, den), 0, 1).unwrap()
}

#[test]
fn test_gradient() {
    for saturation in 0..=100 {
        let light = 75;
        let mut gradient = Gradient::new(
            Color::hsl(0, saturation, light),
            Color::hsl(360, saturation, light),
        );
        *gradient.get_mut(at(1, 6)) = Color::hsl(60, saturation, light);
        *gradient.get_mut(at(2, 6)) = Color::hsl(120, saturation, light);
        *gradient.get_mut(at(3, 6)) = Color::hsl(180, saturation, light);
        *gradient.get_mut(at(4, 6)) = Color::hsl(240, saturation, light);
        *gradient.get_mut(at(5, 6)) = Color::hsl(300, saturation, light);

        assert_eq!(gradient.points().len(), 7);
        let mut seen = std::collections::HashSet::new();
        for i in 0..=100 {
            let color = gradient.get(at(i, 100));
            let [r, g, b, ..] = color.to_rgba().unwrap();
            seen.insert([r, g, b]);
        }
        println!("  resolution: {}", seen.len());
        assert!(seen.len() >= 1);
        assert_eq!(gradient.get(at(1, 2)), Color::hsl(180, saturation, light));
        assert_eq!(
            gradient.get(at(1, 12)),
            Color::Hsla { h: 30, s: saturation, l: light, a: 100 }
        );
    }
}

#[test]
fn a_gradient_of_two_points_has_its_ends_and_the_midpoint() {
    let c0 = Color::Rgba { r: 0, g: 10, b: 255, a: 255 };
    let c1 = Color::Rgba { r: 255, g: 20, b: 0, a: 0 };
    let gradient = Gradient::new(c0.clone(), c1.clone());
    assert_eq!(gradient.get(at(0, 1)), c0);
    assert_eq!(gradient.get(at(1, 1)), c1);
    assert_eq!(gradient.get(at(1, 2)), Color::Rgba { r: 128, g: 15, b: 128, a: 128 });
    assert_eq!(gradient.get(at(1, 4)), Color::Rgba { r: 64, g: 13, b: 191, a: 191 });

    let h0 = Color::hsl(0, 100, 20);
    let h1 = Color::Hsla { h: 360, s: 0, l: 21, a: 0 };
    let gradient = Gradient::new(h0.clone(), h1.clone());
    assert_eq!(gradient.get(at(0, 1)), h0);
    assert_eq!(gradient.get(at(1, 1)), h1);
    assert_eq!(gradient.get(at(1, 2)), Color::Hsla { h: 180, s: 50, l: 21, a: 50 });
    assert_eq!(gradient.get(at(2, 4)), Color::Hsla { h: 180, s: 50, l: 21, a: 50 });
}

#[test]
fn equal_colours_are_not_interpolated() {
    let name = Color::named("red");
    let gradient = Gradient::new(name.clone(), name.clone());
    assert_eq!(gradient.get(at(1, 3)), name);
    assert_eq!(gradient.calc_color_at(&at(1, 3)), Some(name));
}

#[test]
fn colours_of_different_spaces_are_not_interpolated() {
    let gradient = Gradient::new(Color::rgb(0, 0, 0), Color::hsl(0, 0, 0));
    assert_eq!(gradient.calc_color_at(&at(1, 2)), None);
    assert_eq!(gradient.calc_color_at(&at(0, 1)), Some(Color::rgb(0, 0, 0)));
    assert_eq!(gradient.calc_color_at(&at(1, 1)), Some(Color::hsl(0, 0, 0)));
    let gradient = Gradient::new(Color::named("red"), Color::named("blue"));
    assert_eq!(gradient.calc_color_at(&at(1, 2)), None);
    let outside = BoundedFloat::new(Fraction::new(3, 1), -5, 5).unwrap();
    assert_eq!(gradient.calc_color_at(&outside), None);
}

#[test]
fn a_gradient_needs_both_ends() {
    let c = Color::rgb(1, 2, 3);
    let zero = (Fraction::new(0, 1), c.clone());
    let one = (Fraction::new(1, 1), c.clone());
    let half = (Fraction::new(1, 2), c.clone());
    assert_eq!(
        Gradient::from_points(&vec![zero.clone(), half.clone()]).unwrap_err(),
        GradientError::MissingBoundary
    );
    assert_eq!(
        Gradient::from_points(&vec![half.clone(), one.clone()]).unwrap_err(),
        GradientError::MissingBoundary
    );
    assert_eq!(Gradient::from_points(&vec![]).unwrap_err(), GradientError::MissingBoundary);
    assert_eq!(
        Gradient::from_points(&vec![zero.clone(), (Fraction::new(3, 2), c.clone()), one.clone()])
            .unwrap_err(),
        GradientError::OutOfBounds { index: 1 }
    );
    assert_eq!(
        Gradient::from_points(&vec![(Fraction::new(0, 0), c.clone())]).unwrap_err(),
        GradientError::OutOfBounds { index: 0 }
    );
    let gradient =
        Gradient::from_points(&vec![one.clone(), half.clone(), (Fraction::new(0, 5), c.clone())])
            .unwrap();
    assert_eq!(gradient.points().len(), 3);
}

#[test]
fn the_last_of_several_points_at_one_position_counts() {
    let gradient = Gradient::from_points(&vec![
        (Fraction::new(0, 1), Color::rgb(0, 0, 0)),
        (Fraction::new(1, 2), Color::rgb(1, 1, 1)),
        (Fraction::new(1, 1), Color::rgb(9, 9, 9)),
        (Fraction::new(2, 4), Color::rgb(2, 2, 2)),
    ])
    .unwrap();
    assert_eq!(gradient.points().len(), 3);
    assert_eq!(gradient.get(at(1, 2)), Color::rgb(2, 2, 2));
    assert_eq!(gradient.points()[1].0.get().den, 2);
}

#[test]
fn an_inflection_point_keeps_the_gradient_as_it_is() {
    let mut gradient = Gradient::new(Color::rgb(0, 0, 0), Color::rgb(100, 100, 100));
    gradient.inflect_at(at(1, 4));
    assert_eq!(gradient.points().len(), 3);
    assert_eq!(gradient.points()[1].1, Color::Rgba { r: 25, g: 25, b: 25, a: 255 });
    gradient.inflect_at(at(2, 8));
    assert_eq!(gradient.points().len(), 3);
    assert_eq!(gradient.get(at(1, 8)), Color::Rgba { r: 13, g: 13, b: 13, a: 255 });
}
