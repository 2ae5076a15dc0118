use textiler_core::components::system::{ColorProp, VariantProp};
use textiler_core::components::typography::{default_element, default_level_mapping, element_for};
use textiler_core::style::{Color as Scheme, Size, UnknownSize, Variant};
use textiler_core::theme::baseline::baseline;
use textiler_core::theme::color::Color;
use textiler_core::theme::gradient::Gradient;
use textiler_core::theme::palette::Palette;
use textiler_core::theme::parsing::{
    adjust_color, from_theme_json, palette_of, GradientJson, GradientMode, PaletteJson,
    SelectorJson, SxJson, SxJsonValue, ThemeError, ThemeJson,
};
use textiler_core::theme::sx::sx_to_css::sx_to_css;
use textiler_core::theme::sx::sx_value::{Decimal, SxValue};
use textiler_core::theme::sx::Sx;
use textiler_core::theme::theme_mode::{SystemMode, ThemeMode};
use textiler_core::theme::typography::{LevelScale, TypographyLevel, TypographyScale};
use textiler_core::theme::Theme;
use textiler_core::utils::bounded_float::Fraction;

fn definition() -> ThemeJson {
    let mut title = vec![
        ("fontSize".to_string(), SxJsonValue::String("2rem".to_string())),
        ("fontWeight".to_string(), SxJsonValue::Int(700)),
    ];
    title.push((
        "&:hover".to_string(),
        SxJsonValue::Nested(SxJson {
            mapping: vec![
                ("underline".to_string(), SxJsonValue::Boolean(true)),
                ("opacity".to_string(), SxJsonValue::Float(Decimal { unscaled: 5, scale: 1 })),
            ],
        }),
    ));
    ThemeJson {
        prefix: Some("test".to_string()),
        palettes: vec![
            (
                "success".to_string(),
                PaletteJson {
                    gradient: Some(GradientJson {
                        points: Gradient::new(Color::rgb(0, 0, 0), Color::rgb(0, 200, 0)),
                        mode: None,
                    }),
                    selectors: Some(vec![
                        (
                            "outlinedBorder".to_string(),
                            SelectorJson::Const(Color::Var {
                                var: "success.050".to_string(),
                                fallback: None,
                            }),
                        ),
                        (
                            "010".to_string(),
                            SelectorJson::DarkLight {
                                dark: Color::named("black"),
                                light: Color::Var { var: "--own".to_string(), fallback: None },
                            },
                        ),
                    ]),
                },
            ),
            (
                "text".to_string(),
                PaletteJson {
                    gradient: None,
                    selectors: Some(vec![(
                        "primary".to_string(),
                        SelectorJson::Const(Color::hex_code(0x102030)),
                    )]),
                },
            ),
        ],
        typography: Some(vec![
            (TypographyLevel::Star, SxJson {
                mapping: vec![("fontFamily".to_string(), SxJsonValue::String("serif".to_string()))],
            }),
            (TypographyLevel::H1, SxJson { mapping: title }),
        ]),
    }
}

#[test]
fn a_definition_gives_a_theme() {
    let theme = from_theme_json(&definition()).unwrap();
    assert_eq!(theme.prefix, "test");
    assert_eq!(theme.breakpoints().get("md").unwrap().width(), 768);
    let names: Vec<&str> = theme.palettes().iter().map(|(n, _)| n.as_str()).collect();
    assert_eq!(names, vec!["success", "text"]);
    let success = theme.get_palette("success").unwrap();
    assert_eq!(
        success.selectors(),
        vec![
            "000", "010", "020", "030", "040", "050", "060", "070", "080", "090", "100",
            "outlinedBorder"
        ]
    );
    assert_eq!(success.select("000", &ThemeMode::Light), Some(&Color::rgb(0, 0, 0)));
    assert_eq!(
        success.select("050", &ThemeMode::Light),
        Some(&Color::Rgba { r: 0, g: 100, b: 0, a: 255 })
    );
    assert_eq!(success.select("100", &ThemeMode::Dark), Some(&Color::rgb(0, 200, 0)));
    assert_eq!(success.select("010", &ThemeMode::Dark), Some(&Color::named("black")));
    assert_eq!(
        success.select("010", &ThemeMode::Light),
        Some(&Color::Var { var: "--own".to_string(), fallback: None })
    );
    assert_eq!(
        success.select("outlinedBorder", &ThemeMode::Light),
        Some(&Color::Var { var: "--test-palette-success-050".to_string(), fallback: None })
    );
    assert!(success.select("nothing", &ThemeMode::Light).is_none());
    assert!(success.contains("090"));
    assert!(!success.contains("095"));
    let h1 = theme.typography().at(&TypographyLevel::H1).unwrap();
    assert_eq!(h1.properties(), vec!["font-size", "font-weight", "&:hover", "font-family"]);
    assert_eq!(h1.get("font-size"), Some(&SxValue::CssLiteral("2rem".to_string())));
    assert_eq!(h1.get("font-weight"), Some(&SxValue::Integer(700)));
    let SxValue::Nested(hover) = h1.index("&:hover") else {
        panic!("should be nested");
    };
    assert_eq!(hover.get("underline"), Some(&SxValue::CssLiteral("true".to_string())));
    assert_eq!(hover.get("opacity"), Some(&SxValue::Float(Decimal { unscaled: 5, scale: 1 })));
    assert!(theme.typography().at(&TypographyLevel::H2).is_none());
    assert_eq!(
        theme.typography().scale(&TypographyLevel::Star).unwrap().sx().properties(),
        vec!["font-family"]
    );
}

#[test]
fn a_definition_without_prefix_gives_the_usual_prefix() {
    let theme =
        from_theme_json(&ThemeJson { prefix: None, palettes: vec![], typography: None }).unwrap();
    assert_eq!(theme.prefix, "happy");
    assert_eq!(theme.palettes().len(), 0);
    assert_eq!(theme.typography().levels().len(), 0);
    assert_eq!(theme.system_class(), ".happy-system");
}

#[test]
fn gradients_are_brought_into_their_colour_space() {
    let theme = Theme::new();
    let def = PaletteJson {
        gradient: Some(GradientJson {
            points: Gradient::new(Color::rgb(255, 0, 0), Color::hsl(240, 100, 50)),
            mode: Some(GradientMode::Hsl),
        }),
        selectors: None,
    };
    let palette = palette_of(&def, "p", &theme).unwrap();
    assert_eq!(
        palette.select("000", &ThemeMode::Light),
        Some(&Color::Hsla { h: 0, s: 100, l: 50, a: 100 })
    );
    assert_eq!(
        palette.select("050", &ThemeMode::Light),
        Some(&Color::Hsla { h: 120, s: 100, l: 50, a: 100 })
    );
    let def = PaletteJson {
        gradient: Some(GradientJson {
            points: Gradient::new(Color::rgb(255, 0, 0), Color::hsl(240, 100, 50)),
            mode: Some(GradientMode::Rgb),
        }),
        selectors: None,
    };
    let palette = palette_of(&def, "p", &theme).unwrap();
    assert_eq!(
        palette.select("100", &ThemeMode::Light),
        Some(&Color::Rgba { r: 0, g: 0, b: 255, a: 255 })
    );
    assert_eq!(
        palette.select("050", &ThemeMode::Light),
        Some(&Color::Rgba { r: 128, g: 0, b: 128, a: 255 })
    );
}

#[test]
fn gradients_that_cannot_be_used_are_errors() {
    let theme = Theme::new();
    let mixed = || Gradient::new(Color::rgb(255, 0, 0), Color::hsl(240, 100, 50));
    let def = PaletteJson {
        gradient: Some(GradientJson { points: mixed(), mode: None }),
        selectors: None,
    };
    assert_eq!(
        palette_of(&def, "p", &theme).unwrap_err(),
        ThemeError::NoColor { palette: "p".to_string(), step: 1 }
    );
    let def = PaletteJson {
        gradient: Some(GradientJson {
            points: Gradient::new(Color::rgb(1, 1, 1), Color::named("red")),
            mode: Some(GradientMode::Rgb),
        }),
        selectors: None,
    };
    assert_eq!(
        palette_of(&def, "p", &theme).unwrap_err(),
        ThemeError::Color { palette: "p".to_string(), color: Color::named("red") }
    );
    let json = ThemeJson {
        prefix: None,
        palettes: vec![
            ("fine".to_string(), PaletteJson { gradient: None, selectors: None }),
            ("p".to_string(), def),
        ],
        typography: None,
    };
    assert_eq!(
        from_theme_json(&json).unwrap_err(),
        ThemeError::Color { palette: "p".to_string(), color: Color::named("red") }
    );
    let converted = mixed().converted(true).unwrap();
    assert_eq!(converted.points()[0].1, Color::Hsla { h: 0, s: 100, l: 50, a: 100 });
    assert_eq!(converted.points()[1].1, Color::Hsla { h: 240, s: 100, l: 50, a: 100 });
    assert_eq!(converted.points()[1].0.get().num, 1);
    let raw = vec![
        (Fraction::new(0, 1), Color::rgb(0, 0, 0)),
        (Fraction::new(1, 1), Color::named("red")),
    ];
    assert!(Gradient::from_points(&raw).unwrap().converted(false).is_err());
}

#[test]
fn colours_of_definitions_are_adjusted() {
    let theme = Theme::with_prefix("x");
    let fallback = Some(Box::new(Color::rgb(1, 2, 3)));
    assert_eq!(
        adjust_color(Color::Var { var: "text.primary".to_string(), fallback: fallback.clone() }, &theme),
        Color::Var { var: "--x-palette-text-primary".to_string(), fallback: fallback.clone() }
    );
    assert_eq!(
        adjust_color(Color::Var { var: "--text".to_string(), fallback: None }, &theme),
        Color::Var { var: "--text".to_string(), fallback: None }
    );
    assert_eq!(adjust_color(Color::named("text.primary"), &theme), Color::named("text.primary"));
}

fn theme() -> Theme {
    from_theme_json(&definition()).unwrap()
}

#[test]
fn create_light_baseline() {
    let theme = theme();
    let baseline = baseline(&theme, &ThemeMode::Light);
    println!("baseline: {baseline:#?}");
    assert_eq!(
        baseline.properties(),
        vec![
            ".test-system.h1",
            "html",
            "root,html",
            "p,span,code,h1,h2,h3,h4",
            "body",
            ".test-system"
        ]
    );
    let SxValue::Nested(html) = baseline.index("html") else {
        panic!("should be nested");
    };
    assert_eq!(html.properties().len(), 13);
    assert_eq!(
        html.get("--test-palette-success-050"),
        Some(&SxValue::Color(Color::Rgba { r: 0, g: 100, b: 0, a: 255 }))
    );
    assert_eq!(
        html.get("--test-palette-text-primary"),
        Some(&SxValue::Color(Color::Rgba { r: 0x10, g: 0x20, b: 0x30, a: 0 }))
    );
    assert_eq!(
        html.get("--test-palette-success-010"),
        Some(&SxValue::Color(Color::Var { var: "--own".to_string(), fallback: None }))
    );
    let dark = textiler_core::theme::baseline::baseline(&theme, &ThemeMode::Dark);
    let SxValue::Nested(html) = dark.index("html") else {
        panic!("should be nested");
    };
    assert_eq!(
        html.get("--test-palette-success-010"),
        Some(&SxValue::Color(Color::named("black")))
    );
    let SxValue::Nested(h1) = baseline.index(".test-system.h1") else {
        panic!("should be nested");
    };
    assert_eq!(h1.properties(), vec!["font-size", "font-weight", "&:hover", "font-family"]);
}

#[test]
fn the_baseline_compiles_where_the_theme_has_its_palettes() {
    let mut theme = theme();
    let compile = |theme: &Theme| {
        sx_to_css(&baseline(theme, &ThemeMode::Light), &ThemeMode::Light, theme, None, &vec![])
    };
    assert_eq!(
        compile(&theme),
        Err(textiler_core::error::Error::UnknownPalette("background".to_string()))
    );
    theme.palette("background").insert_constant("body", Color::rgb(255, 255, 255));
    let success = theme.palette("success");
    for name in
        ["outlinedColor", "outlinedDisabledBorder", "outlinedDisabledColor", "outlinedBorder"]
    {
        success.insert_constant(name, Color::rgb(1, 1, 1));
    }
    let css = compile(&theme).unwrap();
    assert!(css.starts_with(" .test-system.h1 {font-size: 2rem;font-weight: 700;font-family: serif;}"));
    assert!(css.contains(" .test-system.h1:hover {underline: true;opacity: 0.5;}"));
    assert!(css.contains(" html {--test-palette-success-000: #000000;--test-palette-success-010: var(--own);"));
    assert!(css.contains(
        " root,html {color: var(--test-palette-text-primary);background-color: var(--test-palette-background-body);}"
    ));
    assert!(css.contains(" body {margin: 0;}"));
    assert!(css.contains(
        " .test-system[variant=outlined] {border-width: 3px;border-style: solid;padding: 3px;border-color: inherit;}"
    ));
    assert!(css.ends_with(
        " .test-system[variant=outlined][color=success][disabled] {border-color: var(--test-palette-success-outlined-disabled-border);color: var(--test-palette-success-outlined-disabled-color);}"
    ));
}

#[test]
fn themes_hold_palettes_breakpoints_and_typography() {
    let mut theme = Theme::new();
    assert_eq!(theme.prefix, "happy");
    assert!(theme.get_palette("a").is_none());
    let mut a = Palette::new();
    a.insert_constant("x", Color::rgb(1, 1, 1));
    theme.insert_palette("a", a.clone());
    theme.insert_palette("b", Palette::default());
    theme.palette("c").insert_constant("y", Color::rgb(2, 2, 2));
    theme.palette("a").insert_constant("z", Color::rgb(3, 3, 3));
    a.insert_by_mode("x", Color::rgb(0, 0, 0), Color::rgb(9, 9, 9));
    theme.insert_palette("b", a);
    let names: Vec<&str> = theme.palettes().iter().map(|(n, _)| n.as_str()).collect();
    assert_eq!(names, vec!["a", "b", "c"]);
    assert_eq!(theme.get_palette("a").unwrap().selectors(), vec!["x", "z"]);
    assert_eq!(
        theme.get_palette("b").unwrap().select("x", &ThemeMode::Dark),
        Some(&Color::rgb(0, 0, 0))
    );
    assert_eq!(
        theme.get_palette("b").unwrap().select("x", &ThemeMode::Light),
        Some(&Color::rgb(9, 9, 9))
    );
    assert_eq!(theme.get_palette("c").unwrap().selectors(), vec!["y"]);
    assert_eq!(theme.palette_var("someName", "otherName"), "--happy-palette-some-name-other-name");
    assert_eq!(theme.class_var("sheet", "backgroundColor"), "--happy-sheet-background-color");
    assert_eq!(theme.system_class(), ".happy-system");
    theme.set_breakpoint("md", 700);
    theme.breakpoints_mut().set("xxl", 2000);
    assert_eq!(theme.breakpoints().get("md").unwrap().width(), 700);
    assert_eq!(theme.breakpoints().get("xxl").unwrap().width(), 2000);
    theme.typography_mut().insert(TypographyLevel::H1, LevelScale::new(Sx::new()));
    assert!(theme.typography().scale(&TypographyLevel::H1).is_some());
    let copy = theme.clone();
    assert_eq!(copy.prefix, theme.prefix);
    assert_eq!(copy.palettes().len(), 3);
    assert_eq!(copy.breakpoints().points().len(), 6);
    assert_eq!(Theme::with_prefix("x").prefix, "x");
}

#[test]
fn levels_of_text_have_names() {
    let levels = [
        ("*", TypographyLevel::Star),
        ("h1", TypographyLevel::H1),
        ("h2", TypographyLevel::H2),
        ("h3", TypographyLevel::H3),
        ("h4", TypographyLevel::H4),
        ("title-lg", TypographyLevel::Title { size: Size::Lg }),
        ("body-xs", TypographyLevel::Body { size: Size::Xs }),
        ("caption", TypographyLevel::Custom("caption".to_string())),
        ("title", TypographyLevel::Custom("title".to_string())),
    ];
    for (name, level) in levels {
        assert_eq!(TypographyLevel::from_str(name), Ok(level.clone()));
        assert_eq!(level.to_string(), name);
        assert!(level.same(&level.clone()));
    }
    assert_eq!(TypographyLevel::from_str("title-huge"), Err(UnknownSize("huge".to_string())));
    assert_eq!(TypographyLevel::from_str("body-"), Err(UnknownSize("".to_string())));
    assert_eq!(TypographyLevel::default(), TypographyLevel::Body { size: Size::Md });
    assert!(!TypographyLevel::H1.same(&TypographyLevel::H2));
    assert!(!TypographyLevel::Custom("h1".to_string()).same(&TypographyLevel::H1));
}

#[test]
fn the_style_of_a_level_is_merged_with_the_shared_style() {
    let mut own = Sx::new();
    own.insert("color", SxValue::Integer(1));
    let mut shared = Sx::new();
    shared.insert("color", SxValue::Integer(2));
    shared.insert("margin", SxValue::Integer(3));
    let scale = TypographyScale::new(vec![
        (TypographyLevel::H1, LevelScale::new(Sx::new())),
        (TypographyLevel::Star, LevelScale::new(shared.clone())),
        (TypographyLevel::H1, LevelScale::new(own.clone())),
    ]);
    assert_eq!(scale.levels().len(), 2);
    let h1 = scale.at(&TypographyLevel::H1).unwrap();
    assert_eq!(h1.properties(), vec!["color", "margin"]);
    assert_eq!(h1.get("color"), Some(&SxValue::Integer(1)));
    assert_eq!(scale.at(&TypographyLevel::Star).unwrap().get("color"), Some(&SxValue::Integer(2)));
    assert!(scale.at(&TypographyLevel::H2).is_none());
    assert_eq!(scale.clone().scale(&TypographyLevel::H1).unwrap().clone().sx(), own);
    assert_eq!(TypographyScale::default().levels().len(), 0);
}

#[test]
fn the_mode_of_the_system_is_settled() {
    assert_eq!(ThemeMode::default(), ThemeMode::System);
    assert_eq!(ThemeMode::System.detect(SystemMode::Dark), ThemeMode::Dark);
    assert_eq!(ThemeMode::System.detect(SystemMode::Light), ThemeMode::Light);
    assert_eq!(ThemeMode::System.detect(SystemMode::Default), ThemeMode::Light);
    assert_eq!(ThemeMode::Dark.detect(SystemMode::Light), ThemeMode::Dark);
    assert_eq!(ThemeMode::Light.detect(SystemMode::Dark), ThemeMode::Light);
}

#[test]
fn variants_schemes_and_sizes_have_names() {
    assert_eq!(Variant::default(), Variant::Plain);
    assert_eq!(Scheme::default(), Scheme::Neutral);
    assert_eq!(Size::default(), Size::Md);
    for v in [Variant::Plain, Variant::Outlined, Variant::Soft, Variant::Solid] {
        assert_eq!(Variant::from_name(&v.to_string()), Some(v));
        assert_eq!(VariantProp::from_name(v.as_str()), Some(VariantProp(Some(v))));
    }
    for c in [Scheme::Neutral, Scheme::Primary, Scheme::Success, Scheme::Fatal, Scheme::Warn] {
        assert_eq!(Scheme::from_name(&c.to_string()), Some(c));
        assert_eq!(ColorProp::from_name(c.as_str()), Some(ColorProp(Some(c))));
    }
    for s in [Size::Xs, Size::Sm, Size::Md, Size::Lg, Size::Xl] {
        assert_eq!(Size::try_from(&s.to_string()), Ok(s));
    }
    assert_eq!(Variant::Outlined.to_string(), "outlined");
    assert_eq!(Scheme::Success.to_string(), "success");
    assert_eq!(Size::Xl.to_string(), "xl");
    assert_eq!(Size::try_from("XL"), Err(UnknownSize("XL".to_string())));
    assert_eq!(Variant::from_name("Plain"), None);
    assert_eq!(VariantProp::from_name("nothing"), None);
    assert_eq!(ColorProp::from_name(""), None);
    assert_eq!(VariantProp::default().get(), None);
    assert_eq!(ColorProp::default().get(), None);
    assert_eq!(VariantProp::from_variant(Variant::Soft).get(), Some(Variant::Soft));
    assert_eq!(ColorProp::from_color(Scheme::Warn).get(), Some(Scheme::Warn));
}

#[test]
fn levels_have_their_elements() {
    let mapping = default_level_mapping();
    assert_eq!(mapping.len(), 14);
    assert_eq!(element_for(&mapping, &TypographyLevel::H3), Some("h3"));
    assert_eq!(element_for(&mapping, &TypographyLevel::Title { size: Size::Xl }), Some("p"));
    assert_eq!(element_for(&mapping, &TypographyLevel::Body { size: Size::Xs }), Some("span"));
    assert_eq!(element_for(&mapping, &TypographyLevel::Body { size: Size::Md }), Some("p"));
    assert_eq!(element_for(&mapping, &TypographyLevel::Star), None);
    assert_eq!(element_for(&mapping, &TypographyLevel::Custom("x".to_string())), None);
    for (level, element) in &mapping {
        assert_eq!(default_element(level), Some(element.as_str()));
    }
    assert_eq!(default_element(&TypographyLevel::Star), None);
}
