use textiler_core::theme::color::Color;
use textiler_core::theme::sx::sx_value::{Decimal, SxValue};
use textiler_core::theme::sx::sx_value_parsing::{
    color_name, palette_selector_of, parse, parse_hex_u32, parse_sx_value, parse_tokens, CssToken,
    CssTokenKind, IntErrorKind, ParseSxValueError,
};

#[test]
fn parse_theme_token() {
    let test = r#" "background.body" "#;

    let value = parse_sx_value(test).expect("could not parse");
    let SxValue::ThemeToken { palette, selector } = &value else {
        panic!("wrong sx value kind: {value:#?}");
    };

    assert_eq!(palette, "background");
    assert_eq!(selector, "body");
}

#[test]
fn parse_colors() {
    let hex = "#0f0f0f";

    let value = parse_sx_value(hex).expect("could not parse");
    let SxValue::Color(color) = &value else {
        panic!("wrong sx value kind: {value:#?}");
    };
    assert!(matches!(color, Color::Hex(0x0f0f0f)));

    let red = "red";

    let value = parse_sx_value(red).expect("could not parse");
    let SxValue::Color(Color::CSSLiteral(color)) = value else {
        panic!("should be a color")
    };
    assert_eq!(color, "red");
}

fn number(d: &Decimal) -> f64 {
    d.unscaled as f64 / 10f64.powi(d.scale as i32)
}

#[test]
fn parse_percent() {
    let percent = "15%";
    let SxValue::Percent(percent) = parse_sx_value(percent).expect("parse error") else {
        panic!("should parse percent");
    };

    assert_eq!(number(&percent), 0.15);
    assert_eq!(percent, Decimal { unscaled: 15, scale: 2 });

    let percent = "15.3%";
    let SxValue::Percent(percent) = parse_sx_value(percent).expect("parse error") else {
        panic!("should parse percent");
    };

    assert_eq!(number(&percent), 0.153);
    assert_eq!(percent, Decimal { unscaled: 153, scale: 3 });

    let percent = "-15.3%";
    let SxValue::Percent(percent) = parse_sx_value(percent).expect("parse error") else {
        panic!("should parse percent");
    };

    assert_eq!(number(&percent), -0.153);
    assert_eq!(percent, Decimal { unscaled: -153, scale: 3 });
}

#[test]
fn parse_dimension() {
    let width = "5px";

    let SxValue::Dimension { value, unit } = parse_sx_value(width).expect("parse error") else {
        panic!("should parse dimension");
    };

    assert_eq!(value, 5);
    assert_eq!(unit, "px");
}

#[test]
fn numbers_and_dimensions() {
    assert_eq!(parse_sx_value("12"), Ok(SxValue::Integer(12)));
    assert_eq!(parse_sx_value("-7"), Ok(SxValue::Integer(-7)));
    assert_eq!(parse_sx_value("1.5"), Ok(SxValue::Float(Decimal { unscaled: 15, scale: 1 })));
    assert_eq!(
        parse_sx_value("0.1em"),
        Ok(SxValue::FloatDimension {
            value: Decimal { unscaled: 1, scale: 1 },
            unit: "em".to_string()
        })
    );
    assert_eq!(
        parse_sx_value("100dvw"),
        Ok(SxValue::Dimension { value: 100, unit: "dvw".to_string() })
    );
    assert_eq!(parse_sx_value("123.5%"), Ok(SxValue::Percent(Decimal { unscaled: 1235, scale: 3 })));
}

#[test]
fn identifiers_strings_and_references() {
    assert_eq!(parse_sx_value("solid"), Ok(SxValue::CssLiteral("solid".to_string())));
    assert_eq!(parse_sx_value("Red"), Ok(SxValue::CssLiteral("Red".to_string())));
    assert_eq!(
        parse_sx_value("rebeccapurple"),
        Ok(SxValue::Color(Color::named("rebeccapurple")))
    );
    assert_eq!(parse_sx_value("\"hello\""), Ok(SxValue::String("hello".to_string())));
    assert_eq!(parse_sx_value("'a.b.c'"), Ok(SxValue::String("a.b.c".to_string())));
    assert_eq!(
        parse_sx_value("'.b'"),
        Ok(SxValue::ThemeToken { palette: "".to_string(), selector: "b".to_string() })
    );
    assert_eq!(
        parse_sx_value("text.primary"),
        Ok(SxValue::ThemeToken { palette: "text".to_string(), selector: "primary".to_string() })
    );
    assert_eq!(
        parse_sx_value("  text . primary and more"),
        Ok(SxValue::ThemeToken { palette: "text".to_string(), selector: "primary".to_string() })
    );
    assert_eq!(parse_sx_value("text primary"), Ok(SxValue::CssLiteral("text".to_string())));
    assert_eq!(parse_sx_value("#abcdef"), Ok(SxValue::Color(Color::Hex(0xabcdef))));
    assert_eq!(parse_sx_value("#ABC"), Ok(SxValue::Color(Color::Hex(0xabc))));
}

#[test]
fn what_is_no_style_value_is_an_error() {
    assert_eq!(parse_sx_value(""), Err(ParseSxValueError::CssParseError));
    assert_eq!(parse_sx_value("   "), Err(ParseSxValueError::CssParseError));
    assert_eq!(parse_sx_value(";"), Err(ParseSxValueError::UnexpectedToken(";".to_string())));
    assert_eq!(parse_sx_value("{"), Err(ParseSxValueError::UnexpectedToken("{".to_string())));
    assert_eq!(parse_sx_value("text."), Err(ParseSxValueError::CssParseError));
    assert_eq!(
        parse_sx_value("text. 5"),
        Err(ParseSxValueError::UnexpectedToken("5".to_string()))
    );
    assert_eq!(parse_sx_value("text.5"), Ok(SxValue::CssLiteral("text".to_string())));
    assert_eq!(
        parse_sx_value("#0xyz"),
        Err(ParseSxValueError::ParseIntError(IntErrorKind::InvalidDigit))
    );
    assert_eq!(
        parse_sx_value("#xyz"),
        Err(ParseSxValueError::UnexpectedToken("#xyz".to_string()))
    );
    assert_eq!(
        parse_sx_value("#red"),
        Err(ParseSxValueError::UnexpectedToken("#red".to_string()))
    );
    assert_eq!(
        parse_sx_value("#abcdef123"),
        Err(ParseSxValueError::UnexpectedToken("#abcdef123".to_string()))
    );
    assert_eq!(
        parse_sx_value("#123456789"),
        Err(ParseSxValueError::ParseIntError(IntErrorKind::PosOverflow))
    );
}

#[test]
fn hexadecimal_numbers() {
    assert_eq!(parse_hex_u32("0f0f0f"), Ok(0x0f0f0f));
    assert_eq!(parse_hex_u32("+ff"), Ok(0xff));
    assert_eq!(parse_hex_u32("FFFFFFFF"), Ok(u32::MAX));
    assert_eq!(parse_hex_u32("000000000001"), Ok(1));
    assert_eq!(parse_hex_u32("100000000"), Err(IntErrorKind::PosOverflow));
    assert_eq!(parse_hex_u32(""), Err(IntErrorKind::Empty));
    assert_eq!(parse_hex_u32("+"), Err(IntErrorKind::InvalidDigit));
    assert_eq!(parse_hex_u32("-1"), Err(IntErrorKind::InvalidDigit));
    assert_eq!(parse_hex_u32("12g"), Err(IntErrorKind::InvalidDigit));
}

fn token(kind: CssTokenKind, css: &str) -> CssToken {
    CssToken { kind, css: css.to_string() }
}

#[test]
fn tokens_decide_the_value() {
    let literal = token(CssTokenKind::Ident("palette".to_string()), "palette");
    let dot = token(CssTokenKind::Delim('.'), ".");
    let comma = token(CssTokenKind::Delim(','), ",");
    let name = token(CssTokenKind::Ident("name".to_string()), "name");
    let number = token(CssTokenKind::Number(Some(3), "3".to_string()), "3");
    assert_eq!(parse_tokens(None, None, None), Err(ParseSxValueError::CssParseError));
    assert_eq!(
        parse_tokens(Some(&literal), None, None),
        Ok(SxValue::CssLiteral("palette".to_string()))
    );
    assert_eq!(
        parse_tokens(Some(&literal), Some(&comma), Some(&name)),
        Ok(SxValue::CssLiteral("palette".to_string()))
    );
    assert_eq!(
        parse_tokens(Some(&literal), Some(&dot), Some(&name)),
        Ok(SxValue::ThemeToken { palette: "palette".to_string(), selector: "name".to_string() })
    );
    assert_eq!(
        parse_tokens(Some(&literal), Some(&dot), Some(&number)),
        Err(ParseSxValueError::UnexpectedToken("3".to_string()))
    );
    assert_eq!(
        parse_tokens(Some(&literal), Some(&dot), None),
        Err(ParseSxValueError::CssParseError)
    );
    assert_eq!(parse_tokens(Some(&number), Some(&dot), Some(&name)), Ok(SxValue::Integer(3)));
    assert_eq!(parse(&number), Ok(SxValue::Integer(3)));
    assert_eq!(
        parse(&token(CssTokenKind::Percentage(Some(15), "0.15".to_string()), "15%")),
        Ok(SxValue::Percent(Decimal { unscaled: 15, scale: 2 }))
    );
    assert_eq!(
        parse(&token(CssTokenKind::Percentage(None, "0.153".to_string()), "15.3%")),
        Ok(SxValue::Percent(Decimal { unscaled: 153, scale: 3 }))
    );
    assert_eq!(
        parse(&token(CssTokenKind::Number(None, "inf".to_string()), "1e999")),
        Err(ParseSxValueError::UnexpectedToken("1e999".to_string()))
    );
    assert_eq!(
        parse(&token(CssTokenKind::Hash("0f0f0f".to_string()), "#0f0f0f")),
        Ok(SxValue::Color(Color::Hex(0x0f0f0f)))
    );
    assert_eq!(
        parse(&token(CssTokenKind::IdHash("abcdef".to_string()), "#abcdef")),
        Ok(SxValue::Color(Color::Hex(0xabcdef)))
    );
    assert_eq!(
        parse(&token(CssTokenKind::Hash("0g".to_string()), "#0g")),
        Err(ParseSxValueError::ParseIntError(IntErrorKind::InvalidDigit))
    );
    assert_eq!(
        parse(&token(CssTokenKind::IdHash("red".to_string()), "#red")),
        Err(ParseSxValueError::UnexpectedToken("#red".to_string()))
    );
    assert_eq!(
        parse(&token(CssTokenKind::Other, "?")),
        Err(ParseSxValueError::UnexpectedToken("?".to_string()))
    );
    assert_eq!(
        parse(&token(CssTokenKind::Dimension(None, "2.5".to_string(), "rem".to_string()), "2.5rem")),
        Ok(SxValue::FloatDimension {
            value: Decimal { unscaled: 25, scale: 1 },
            unit: "rem".to_string()
        })
    );
}

#[test]
fn colour_names_are_those_of_css_in_lower_case() {
    assert!(color_name("red"));
    assert!(color_name("lightgoldenrodyellow"));
    assert!(!color_name("RED"));
    assert!(!color_name("Red"));
    assert!(!color_name("reddish"));
    assert!(!color_name(""));
}

#[test]
fn text_given_in_a_program() {
    assert_eq!(
        SxValue::from_text("background.body"),
        Ok(SxValue::ThemeToken { palette: "background".to_string(), selector: "body".to_string() })
    );
    assert_eq!(
        SxValue::from_text("success.050"),
        Ok(SxValue::ThemeToken { palette: "success".to_string(), selector: "050".to_string() })
    );
    assert_eq!(
        SxValue::from_text("1px solid black"),
        Ok(SxValue::CssLiteral("1px solid black".to_string()))
    );
    assert_eq!(SxValue::from_text("10px"), Ok(SxValue::Dimension { value: 10, unit: "px".to_string() }));
    for space in ['\t', '\n', '\u{0b}', '\u{0c}', '\r', ' ', '\u{85}', '\u{a0}', '\u{1680}', '\u{2000}',
        '\u{200a}', '\u{2028}', '\u{2029}', '\u{202f}', '\u{205f}', '\u{3000}']
    {
        let text = format!("1px{space}2px");
        assert_eq!(SxValue::from_text(&text), Ok(SxValue::CssLiteral(text.clone())));
    }
    for other in ['\u{200b}', '\u{180e}', '\u{feff}', '\u{1c}'] {
        let text = format!("1px{other}2px");
        assert!(matches!(SxValue::from_text(&text), Ok(SxValue::Dimension { value: 1, .. })));
    }
    assert_eq!(
        SxValue::from_text("0.1em"),
        Ok(SxValue::FloatDimension { value: Decimal { unscaled: 1, scale: 1 }, unit: "em".to_string() })
    );
    assert_eq!(SxValue::from_text("#0f0f0f"), Ok(SxValue::Color(Color::Hex(0x0f0f0f))));
    assert_eq!(SxValue::from_text(""), Err(ParseSxValueError::CssParseError));
    assert_eq!(SxValue::from_str("monospace"), Ok(SxValue::CssLiteral("monospace".to_string())));
    assert_eq!(
        palette_selector_of("common.black"),
        Some(("common".to_string(), "black".to_string()))
    );
    assert_eq!(palette_selector_of("0.5"), None);
    assert_eq!(palette_selector_of("a.b.c"), None);
    assert_eq!(palette_selector_of("a. b"), None);
}

#[test]
fn decimal_numbers_are_read_and_printed() {
    assert_eq!(Decimal::parse("0.153"), Some(Decimal { unscaled: 153, scale: 3 }));
    assert_eq!(Decimal::parse("-12"), Some(Decimal { unscaled: -12, scale: 0 }));
    assert_eq!(Decimal::parse("NaN"), None);
    assert_eq!(Decimal::parse("inf"), None);
    assert_eq!(Decimal::parse(""), None);
    assert_eq!(Decimal::parse("1e100000"), None);
    assert_eq!(Decimal::parse("999999999999999999999999999999999999999999"), None);
    assert_eq!(Decimal { unscaled: 153, scale: 3 }.to_string(), "0.153");
    assert_eq!(Decimal { unscaled: -15, scale: 1 }.to_string(), "-1.5");
    assert_eq!(Decimal { unscaled: 5, scale: -2 }.to_string(), "500");
    assert_eq!(Decimal { unscaled: 153, scale: 3 }.to_percent_string(), "15.3");
    assert_eq!(Decimal { unscaled: 15, scale: 2 }.to_percent_string(), "15");
    assert_eq!(Decimal::whole(7), Decimal { unscaled: 7, scale: 0 });
    assert_eq!(Decimal::hundredths(7), Decimal { unscaled: 7, scale: 2 });
}
