use textiler_core::theme::color::Color;
use textiler_core::theme::sx::sx_value::{Decimal, FnSxValue, SxValue};
use textiler_core::theme::sx::Sx;

fn text(s: &str) -> SxValue {
    SxValue::from_text(s).expect("could not create sxvalue")
}

fn style(entries: &[(&str, SxValue)]) -> Sx {
    let mut sx = Sx::new();
    for (key, value) in entries {
        sx.insert(key, value.clone());
    }
    sx
}

#[test]
fn create_sx_with_macro() {
    let sx = style(&[("width", text("123.5%")), ("p", text("background.body"))]);
    assert_eq!(
        *sx.index("padding"),
        SxValue::ThemeToken { palette: "background".to_string(), selector: "body".to_string() }
    );
    assert!(sx.get("p").is_none());
    assert_eq!(sx.properties(), vec!["width".to_string(), "padding".to_string()]);
}

#[test]
fn merge_sx() {
    let base = style(&[("bgcolor", text("background.level1"))]);
    let merged = base.clone().merge(style(&[(
        "bgcolor",
        SxValue::var("sheet", "background-color", None),
    )]));

    assert_eq!(
        base.index("background-color"),
        &SxValue::ThemeToken { palette: "background".to_string(), selector: "level1".to_string() }
    );
    assert_eq!(merged, base);
}

#[test]
fn a_shorthand_sets_each_of_its_properties() {
    let sx = style(&[("pX", text("10px"))]);
    assert_eq!(sx.properties(), vec!["margin-left".to_string(), "margin-right".to_string()]);
    assert_eq!(sx.get("margin-left"), sx.get("margin-right"));
    assert_eq!(sx.get("margin-left"), Some(&SxValue::Dimension { value: 10, unit: "px".to_string() }));
    let sx = style(&[("pY", text("1px")), ("marginY", text("2px")), ("bg", text("red"))]);
    assert_eq!(
        sx.properties(),
        vec![
            "padding-top".to_string(),
            "padding-bottom".to_string(),
            "margin-top".to_string(),
            "margin-bottom".to_string(),
            "background".to_string()
        ]
    );
}

#[test]
fn names_are_stored_in_their_normal_form() {
    let sx = style(&[
        ("backgroundColor", SxValue::Integer(1)),
        ("--testVar", SxValue::Integer(2)),
        (".box", SxValue::Integer(3)),
        ("&[color=success]", SxValue::Integer(4)),
        ("[data-x]", SxValue::Integer(5)),
        ("background-color", SxValue::Integer(6)),
    ]);
    assert_eq!(
        sx.properties(),
        vec![
            "background-color".to_string(),
            "--test-var".to_string(),
            ".box".to_string(),
            "&[color=success]".to_string(),
            "[data-x]".to_string()
        ]
    );
    assert_eq!(sx.get("background-color"), Some(&SxValue::Integer(6)));
    assert_eq!(sx.entries().len(), 5);
}

#[test]
fn merging_keeps_the_left_value_and_merges_nested_rules() {
    let left = style(&[
        ("color", text("red")),
        ("&:hover", SxValue::Nested(style(&[("color", text("red"))]))),
        ("margin", SxValue::Nested(style(&[("x", SxValue::Integer(1))]))),
        ("padding", SxValue::Integer(1)),
    ]);
    let right = style(&[
        ("&:hover", SxValue::Nested(style(&[("background", text("blue")), ("color", text("green"))]))),
        ("color", text("blue")),
        ("margin", SxValue::Integer(2)),
        ("padding", SxValue::Nested(style(&[("y", SxValue::Integer(2))]))),
        ("border", SxValue::Integer(3)),
    ]);
    let merged = left.merge(right);
    assert_eq!(
        merged.properties(),
        vec![
            "color".to_string(),
            "&:hover".to_string(),
            "margin".to_string(),
            "padding".to_string(),
            "border".to_string()
        ]
    );
    assert_eq!(merged.get("color"), Some(&text("red")));
    assert_eq!(
        merged.get("&:hover"),
        Some(&SxValue::Nested(style(&[("color", text("red")), ("background", text("blue"))])))
    );
    assert_eq!(merged.get("margin"), Some(&SxValue::Nested(style(&[("x", SxValue::Integer(1))]))));
    assert_eq!(merged.get("padding"), Some(&SxValue::Integer(1)));
    assert_eq!(merged.get("border"), Some(&SxValue::Integer(3)));
}

#[test]
fn merging_two_hover_rules_gives_one_rule_with_both_declarations() {
    let a = style(&[("&:hover", SxValue::Nested(style(&[("color", text("red"))])))]);
    let b = style(&[("&:hover", SxValue::Nested(style(&[("background", text("blue"))])))]);
    let merged = a.merge_with(&b);
    assert_eq!(merged.properties(), vec!["&:hover".to_string()]);
    let SxValue::Nested(inner) = merged.index("&:hover") else {
        panic!("should be nested");
    };
    assert_eq!(inner.properties(), vec!["color".to_string(), "background".to_string()]);
    assert_eq!(inner.get("color"), Some(&SxValue::Color(Color::named("red"))));
    assert_eq!(inner.get("background"), Some(&SxValue::Color(Color::named("blue"))));
}

#[test]
fn values_have_their_css_text() {
    assert_eq!(SxValue::Integer(-12).to_css(), Some("-12".to_string()));
    assert_eq!(SxValue::Integer(i32::MIN).to_css(), Some("-2147483648".to_string()));
    assert_eq!(SxValue::Integer(0).to_css(), Some("0".to_string()));
    assert_eq!(SxValue::Float(Decimal { unscaled: 15, scale: 1 }).to_css(), Some("1.5".to_string()));
    assert_eq!(SxValue::Percent(Decimal { unscaled: 15, scale: 2 }).to_css(), Some("15%".to_string()));
    assert_eq!(
        SxValue::Percent(Decimal { unscaled: -153, scale: 3 }).to_css(),
        Some("-15.3%".to_string())
    );
    assert_eq!(
        SxValue::Dimension { value: 20, unit: "px".to_string() }.to_css(),
        Some("20px".to_string())
    );
    assert_eq!(
        SxValue::FloatDimension { value: Decimal { unscaled: 1, scale: 1 }, unit: "em".to_string() }
            .to_css(),
        Some("0.1em".to_string())
    );
    assert_eq!(SxValue::CssLiteral("inherit".to_string()).to_css(), Some("inherit".to_string()));
    assert_eq!(SxValue::String("a b".to_string()).to_css(), Some("\"a b\"".to_string()));
    assert_eq!(SxValue::Color(Color::rgb(1, 2, 3)).to_css(), Some("#010203".to_string()));
    assert_eq!(text("a.b").to_css(), None);
    assert_eq!(SxValue::var("c", "v", None).to_css(), None);
    assert_eq!(SxValue::Callback(FnSxValue::with_id(1)).to_css(), None);
    assert_eq!(SxValue::Nested(Sx::new()).to_css(), None);
}

#[test]
fn computed_values_are_equal_by_identity() {
    let a = FnSxValue::with_id(7);
    let b = FnSxValue::with_id(7);
    let c = FnSxValue::with_id(8);
    assert!(a.same(&b));
    assert!(a == b);
    assert!(!a.same(&c));
    assert_eq!(a.id(), 7);
    let fresh: Vec<u64> = (0..8).map(|_| FnSxValue::new().id()).collect();
    assert!(fresh.iter().any(|id| *id != fresh[0]));
    let results = vec![(8, SxValue::Integer(1)), (7, SxValue::Integer(2)), (7, SxValue::Integer(3))];
    assert_eq!(a.apply(&results), Some(SxValue::Integer(2)));
    assert_eq!(c.apply(&results), Some(SxValue::Integer(1)));
    assert_eq!(FnSxValue::with_id(9).apply(&results), None);
}

#[test]
fn a_reference_to_a_variable_of_a_class() {
    assert_eq!(
        SxValue::var("sheet", "background-color", Some(SxValue::Integer(1))),
        SxValue::ClassVar {
            class: "sheet".to_string(),
            var: "background-color".to_string(),
            fallback: Some(Box::new(SxValue::Integer(1)))
        }
    );
}
