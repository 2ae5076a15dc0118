use serde_json::Value;
use textiler_core::theme::color::Color;
use textiler_core::theme::gradient::{Gradient, GradientError};
use textiler_core::theme::parsing::{
    from_theme_json, GradientJson, GradientMode, PaletteJson, SelectorJson, SxJson, SxJsonValue,
    ThemeJson,
};
use textiler_core::theme::sx::sx_value::{Decimal, SxValue};
use textiler_core::theme::theme_mode::ThemeMode;
use textiler_core::theme::typography::TypographyLevel;
use textiler_core::theme::Theme;
use textiler_core::utils::bounded_float::Fraction;

const THEME: &str = r##"{
    "prefix": "joy",
    "palettes": {
        "common": {
            "selectors": {
                "black": "#000000",
                "white": { "r": 255, "g": 255, "b": 255 }
            }
        },
        "primary": {
            "gradient": {
                "points": {
                    "0": { "h": 210, "s": 100, "l": 95 },
                    "0.5": { "h": 210, "s": 90, "l": 50 },
                    "1": { "h": 210, "s": 100, "l": 5 }
                },
                "mode": "hsl"
            },
            "selectors": {
                "plainColor": { "var": "primary.050" },
                "solidBg": { "dark": { "var": "primary.040" }, "light": { "var": "primary.060", "fallback": "blue" } }
            }
        },
        "background": {
            "selectors": {
                "body": { "dark": { "var": "common.black" }, "light": { "var": "common.white" } }
            }
        }
    },
    "typography": {
        "*": { "fontFamily": "sans-serif", "margin": 0 },
        "h1": { "fontSize": "2.25rem", "fontWeight": 700, "lineHeight": 1.5 },
        "body-md": { "fontSize": "1rem", "&:hover": { "underline": true } }
    }
}"##;

fn color(value: &Value) -> Color {
    match value {
        Value::String(s) => Color::CSSLiteral(s.clone()),
        Value::Number(n) => Color::Hex(n.as_u64().unwrap() as u32),
        Value::Object(map) => {
            let part = |name: &str| map.get(name).and_then(Value::as_u64);
            if let Some(var) = map.get("var") {
                Color::Var {
                    var: var.as_str().unwrap().to_string(),
                    fallback: map.get("fallback").map(|f| Box::new(color(f))),
                }
            } else if let (Some(r), Some(g), Some(b)) = (part("r"), part("g"), part("b")) {
                match part("a") {
                    None => Color::Rgb { r: r as u8, g: g as u8, b: b as u8 },
                    Some(a) => Color::Rgba { r: r as u8, g: g as u8, b: b as u8, a: a as u8 },
                }
            } else {
                let (h, s, l) = (part("h").unwrap(), part("s").unwrap(), part("l").unwrap());
                match part("a") {
                    None => Color::Hsl { h: h as u16, s: s as u8, l: l as u8 },
                    Some(a) => Color::Hsla { h: h as u16, s: s as u8, l: l as u8, a: a as u8 },
                }
            }
        }
        other => panic!("no colour: {other}"),
    }
}

fn position(key: &str) -> Fraction {
    let float: f32 = key.parse().unwrap();
    Fraction::new((float as f64 * 1000.0).round() as i64, 1000)
}

fn gradient(value: &Value) -> Result<Gradient, GradientError> {
    let points: Vec<(Fraction, Color)> =
        value.as_object().unwrap().iter().map(|(k, v)| (position(k), color(v))).collect();
    Gradient::from_points(&points)
}

fn selector(value: &Value) -> SelectorJson {
    match value.as_object() {
        Some(map) if map.contains_key("dark") && map.contains_key("light") => {
            SelectorJson::DarkLight { dark: color(&map["dark"]), light: color(&map["light"]) }
        }
        _ => SelectorJson::Const(color(value)),
    }
}

fn style(value: &Value) -> SxJson {
    SxJson {
        mapping: value
            .as_object()
            .unwrap()
            .iter()
            .map(|(k, v)| {
                let value = match v {
                    Value::String(s) => SxJsonValue::String(s.clone()),
                    Value::Bool(b) => SxJsonValue::Boolean(*b),
                    Value::Number(n) if n.is_i64() => SxJsonValue::Int(n.as_i64().unwrap() as i32),
                    Value::Number(n) => SxJsonValue::Float(Decimal::parse(&n.to_string()).unwrap()),
                    nested => SxJsonValue::Nested(style(nested)),
                };
                (k.clone(), value)
            })
            .collect(),
    }
}

fn definition(text: &str) -> Result<ThemeJson, GradientError> {
    let json: Value = serde_json::from_str(text).expect("could not parse");
    let mut palettes = vec![];
    for (name, def) in json["palettes"].as_object().unwrap() {
        let gradient = match def.get("gradient") {
            None => None,
            Some(g) => Some(GradientJson {
                points: gradient(&g["points"])?,
                mode: g.get("mode").map(|m| match m.as_str().unwrap() {
                    "hsl" => GradientMode::Hsl,
                    _ => GradientMode::Rgb,
                }),
            }),
        };
        let selectors = def.get("selectors").map(|s| {
            s.as_object().unwrap().iter().map(|(k, v)| (k.clone(), selector(v))).collect()
        });
        palettes.push((name.clone(), PaletteJson { gradient, selectors }));
    }
    let typography = json.get("typography").map(|levels| {
        levels
            .as_object()
            .unwrap()
            .iter()
            .map(|(k, v)| (TypographyLevel::from_str(k).unwrap(), style(v)))
            .collect()
    });
    Ok(ThemeJson {
        prefix: json.get("prefix").and_then(Value::as_str).map(str::to_string),
        palettes,
        typography,
    })
}

fn from_str(text: &str) -> Theme {
    from_theme_json(&definition(text).expect("could not parse")).expect("could not parse")
}

#[test]
fn parse_theme_json() {
    let parsed = from_str(THEME);

    println!("parsed: {:#?}", parsed);
    assert_eq!(parsed.prefix, "joy");
    assert_eq!(parsed.palettes().len(), 3);
    let primary = parsed.get_palette("primary").unwrap();
    assert_eq!(primary.selectors().len(), 13);
    assert_eq!(
        primary.select("000", &ThemeMode::Light),
        Some(&Color::Hsla { h: 210, s: 100, l: 95, a: 100 })
    );
    assert_eq!(
        primary.select("030", &ThemeMode::Light),
        Some(&Color::Hsla { h: 210, s: 94, l: 68, a: 100 })
    );
    assert_eq!(
        primary.select("050", &ThemeMode::Light),
        Some(&Color::Hsla { h: 210, s: 90, l: 50, a: 100 })
    );
    assert_eq!(
        primary.select("100", &ThemeMode::Light),
        Some(&Color::Hsla { h: 210, s: 100, l: 5, a: 100 })
    );
    assert_eq!(
        primary.select("plainColor", &ThemeMode::Dark),
        Some(&Color::Var { var: "--joy-palette-primary-050".to_string(), fallback: None })
    );
    assert_eq!(
        primary.select("solidBg", &ThemeMode::Light),
        Some(&Color::Var {
            var: "--joy-palette-primary-060".to_string(),
            fallback: Some(Box::new(Color::named("blue")))
        })
    );
    let common = parsed.get_palette("common").unwrap();
    assert_eq!(common.select("black", &ThemeMode::Dark), Some(&Color::named("#000000")));
    assert_eq!(common.select("white", &ThemeMode::Dark), Some(&Color::rgb(255, 255, 255)));
    let h1 = parsed.typography().at(&TypographyLevel::H1).unwrap();
    assert_eq!(h1.properties().len(), 5);
    assert_eq!(h1.get("font-size"), Some(&SxValue::CssLiteral("2.25rem".to_string())));
    assert_eq!(h1.get("line-height"), Some(&SxValue::Float(Decimal { unscaled: 15, scale: 1 })));
    assert_eq!(h1.get("margin"), Some(&SxValue::Integer(0)));
    assert!(parsed.typography().at(&TypographyLevel::from_str("body-md").unwrap()).is_some());
}

#[test]
fn a_gradient_without_one_of_its_ends_is_no_theme() {
    for (zero, one) in [("0.1", "1"), ("0", "0.9"), ("0.1", "0.9")] {
        let text = THEME.replacen("\"0\":", &format!("\"{zero}\":"), 1).replacen(
            "\"1\":",
            &format!("\"{one}\":"),
            1,
        );
        assert_eq!(definition(&text).unwrap_err(), GradientError::MissingBoundary);
    }
    let text = THEME.replacen("\"0.5\":", "\"1.5\":", 1);
    assert_eq!(definition(&text).unwrap_err(), GradientError::OutOfBounds { index: 2 });
    assert!(definition(THEME).is_ok());
}
