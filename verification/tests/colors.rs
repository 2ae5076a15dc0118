use textiler_core::theme::color::{
    hsl_to_rgb, parse_color, rgb_to_hsl, u32_to_rgb, Color, ParseColorError, TransformColorError,
};
use textiler_core::utils::bounded_float::Fraction;

#[test]
fn parse_hex_color() {
    let hex = "#0f125f";
    let (rest, parsed) = parse_color(hex).unwrap();
    println!("{}", parsed.to_string());
    assert_eq!(rest, "");
    assert_eq!(parsed, Color::Rgb { r: 0x0f, g: 0x12, b: 0x5f });
    assert_eq!(parsed.to_string(), "#0F125F");
}

#[test]
fn parse_hex_alpha_color() {
    let hex = "#01f1257f";
    let (rest, parsed) = parse_color(hex).unwrap();
    println!("{}", parsed.to_string());
    assert_eq!(rest, "");
    assert_eq!(parsed, Color::Rgba { r: 0x01, g: 0xf1, b: 0x25, a: 0x7f });
    assert_eq!(parsed.to_string(), "#01F1257F");
}

#[test]
fn hsl_to_rgb_correctness() {
    let (h, s, l) = (Fraction::new(126, 360), Fraction::new(46, 100), Fraction::new(63, 100));
    let [r, g, b] = hsl_to_rgb(h, s, l);
    assert_eq!(r, 117);
    assert_eq!(g, 204);
    assert_eq!(b, 126);
}

fn value(f: Fraction) -> f32 {
    f.num as f32 / f.den as f32
}

#[test]
fn rgb_to_hsl_correctness() {
    const CORRECTNESS: f32 = 0.001;
    let (r, g, b) = (11, 13, 14);
    let [h, s, l] = rgb_to_hsl(r, g, b);
    let (h, s, l) = (value(h), value(s), value(l));

    assert!(
        h - 200. / 360. < CORRECTNESS,
        "error on h ({h}) is >= {CORRECTNESS}. Expected is ~200 deg"
    );
    assert!(
        s - 0.12 < CORRECTNESS,
        "error on s ({s}) is >= {CORRECTNESS}. Expected is ~0.12"
    );
    assert!(
        l - 0.05 < CORRECTNESS,
        "error on l ({l}) is >= {CORRECTNESS}. Expected is ~0.05"
    );
    assert!((h - 200. / 360.).abs() < CORRECTNESS);
    assert!((s - 0.12).abs() < CORRECTNESS);
    assert!((l - 0.05).abs() < 0.002);
}

#[test]
fn rgb_to_hsl_is_exact() {
    let [h, s, l] = rgb_to_hsl(11, 13, 14);
    assert_eq!((h.num, h.den), (10, 18));
    assert_eq!((s.num, s.den), (3, 25));
    assert_eq!((l.num, l.den), (25, 510));
    let [h, s, l] = rgb_to_hsl(200, 200, 200);
    assert_eq!((h.num, s.num), (0, 0));
    assert_eq!((l.num, l.den), (400, 510));
}

#[test]
fn hsl_and_rgb_are_inverse_on_samples() {
    let mut checked = 0;
    for r in (0..=255u16).step_by(5) {
        for g in (0..=255u16).step_by(15) {
            for b in (0..=255u16).step_by(17) {
                let (r, g, b) = (r as u8, g as u8, b as u8);
                let [h, s, l] = rgb_to_hsl(r, g, b);
                assert_eq!(hsl_to_rgb(h, s, l), [r, g, b]);
                checked += 1;
            }
        }
    }
    assert!(checked > 10_000);
}

#[test]
fn six_digit_hex_text_round_trips_in_upper_case() {
    for text in ["#000000", "#ffffff", "#0f125f", "#AbCdEf", "#123abc", "#00000A"] {
        let parsed = Color::from_str(text).unwrap();
        assert_eq!(parsed.to_string(), text.to_uppercase());
        let number = u32::from_str_radix(&text[1..], 16).unwrap();
        assert_eq!(Color::hex_code(number).to_string(), text.to_uppercase());
    }
}

#[test]
fn text_after_a_hex_colour_is_left_over() {
    let (rest, parsed) = parse_color("#10203 rest").unwrap_err_or_rest();
    assert_eq!(rest, "3 rest");
    assert_eq!(parsed, None);
    let (rest, parsed) = parse_color("#102030rest").unwrap();
    assert_eq!(rest, "rest");
    assert_eq!(parsed, Color::rgb(0x10, 0x20, 0x30));
    let (rest, parsed) = parse_color("#102030405").unwrap();
    assert_eq!(rest, "5");
    assert_eq!(parsed, Color::Rgba { r: 0x10, g: 0x20, b: 0x30, a: 0x40 });
}

trait RestOrError {
    fn unwrap_err_or_rest(self) -> (String, Option<Color>);
}

impl RestOrError for Result<(String, Color), ParseColorError> {
    fn unwrap_err_or_rest(self) -> (String, Option<Color>) {
        match self {
            Ok((rest, c)) => (rest, Some(c)),
            Err(ParseColorError::MissingHash { input }) => (input, None),
            Err(ParseColorError::MissingHexPair { input }) => (input, None),
        }
    }
}

#[test]
fn what_is_no_hex_colour_is_an_error() {
    assert_eq!(
        parse_color("red"),
        Err(ParseColorError::MissingHash { input: "red".to_string() })
    );
    assert_eq!(parse_color(""), Err(ParseColorError::MissingHash { input: "".to_string() }));
    assert_eq!(
        parse_color("#12g456"),
        Err(ParseColorError::MissingHexPair { input: "g456".to_string() })
    );
    assert_eq!(
        parse_color("#1234"),
        Err(ParseColorError::MissingHexPair { input: "".to_string() })
    );
    assert_eq!(
        Color::from_str("#1"),
        Err(ParseColorError::MissingHexPair { input: "1".to_string() })
    );
}

#[test]
fn colours_are_printed_as_css_reads_them() {
    assert_eq!(Color::named("rebeccapurple").to_string(), "rebeccapurple");
    assert_eq!(Color::hex_code(0xabc).to_string(), "#000ABC");
    assert_eq!(Color::hex_code(0x1234567).to_string(), "#1234567");
    assert_eq!(Color::hex_code(0xffffffff).to_string(), "#FFFFFFFF");
    assert_eq!(Color::rgb(1, 2, 255).to_string(), "#0102FF");
    assert_eq!(Color::Rgba { r: 1, g: 2, b: 3, a: 255 }.to_string(), "#010203");
    assert_eq!(Color::Rgba { r: 1, g: 2, b: 3, a: 0 }.to_string(), "#01020300");
    assert_eq!(Color::hsl(120, 50, 7).to_string(), "hsla(120, 50%, 7%)");
    assert_eq!(Color::Hsla { h: 0, s: 0, l: 100, a: 100 }.to_string(), "hsla(0, 0%, 100%)");
    assert_eq!(Color::Hsla { h: 360, s: 1, l: 2, a: 50 }.to_string(), "hsla(360, 1%, 2%, 0.50)");
    assert_eq!(Color::Hsla { h: 360, s: 1, l: 2, a: 5 }.to_string(), "hsla(360, 1%, 2%, 0.05)");
    assert_eq!(Color::Hsla { h: 1, s: 1, l: 2, a: 255 }.to_string(), "hsla(1, 1%, 2%, 2.55)");
    assert_eq!(
        Color::Var { var: "--x".to_string(), fallback: None }.to_string(),
        "var(--x)"
    );
    assert_eq!(
        Color::Var {
            var: "--x".to_string(),
            fallback: Some(Box::new(Color::Var {
                var: "--y".to_string(),
                fallback: Some(Box::new(Color::rgb(0, 0, 0)))
            }))
        }
        .to_string(),
        "var(--x, var(--y, #000000))"
    );
}

#[test]
fn a_hex_number_is_split_into_its_bytes() {
    assert_eq!(u32_to_rgb(0x0f125f), [0x0f, 0x12, 0x5f]);
    assert_eq!(u32_to_rgb(0xff0f125f), [0x0f, 0x12, 0x5f]);
    assert_eq!(u32_to_rgb(0), [0, 0, 0]);
}

#[test]
fn a_bare_hex_number_is_transparent_when_converted_but_opaque_when_printed() {
    let c = Color::hex_code(0x0f125f);
    assert_eq!(c.to_rgba().unwrap(), [0x0f, 0x12, 0x5f, 0]);
    assert_eq!(c.to_rgba_color().unwrap(), Color::Rgba { r: 0x0f, g: 0x12, b: 0x5f, a: 0 });
    assert_eq!(c.to_string(), "#0F125F");
    assert_eq!(Color::rgb(1, 2, 3).to_rgba().unwrap(), [1, 2, 3, 255]);
}

#[test]
fn literals_convert_only_if_they_spell_a_hex_colour() {
    assert_eq!(Color::named("#102030").to_rgba().unwrap(), [0x10, 0x20, 0x30, 255]);
    assert_eq!(Color::named("#10203040").to_rgba().unwrap(), [0x10, 0x20, 0x30, 0x40]);
    assert_eq!(
        Color::named("red").to_rgba(),
        Err(TransformColorError::NonEligibleColor(Color::named("red")))
    );
    let var = Color::Var { var: "--x".to_string(), fallback: Some(Box::new(Color::rgb(1, 1, 1))) };
    assert_eq!(var.to_hsla_color(), Err(TransformColorError::NonEligibleColor(var.clone())));
    assert!(var.to_hsla().is_err());
    assert!(var.to_simple().is_err());
    let out_of_range = Color::hsl(361, 0, 0);
    assert_eq!(
        out_of_range.to_rgba(),
        Err(TransformColorError::NonEligibleColor(out_of_range.clone()))
    );
    assert!(Color::Hsla { h: 0, s: 0, l: 0, a: 101 }.to_rgba_color().is_err());
}

#[test]
fn conversions_between_the_colour_spaces() {
    assert_eq!(
        Color::hsl(126, 46, 63).to_rgba_color().unwrap(),
        Color::Rgba { r: 117, g: 204, b: 126, a: 255 }
    );
    assert_eq!(
        Color::Hsla { h: 0, s: 100, l: 50, a: 50 }.to_rgba().unwrap(),
        [255, 0, 0, 127]
    );
    assert_eq!(
        Color::rgb(255, 0, 0).to_hsla_color().unwrap(),
        Color::Hsla { h: 0, s: 100, l: 50, a: 100 }
    );
    assert_eq!(
        Color::rgb(0, 0, 255).to_hsla_color().unwrap(),
        Color::Hsla { h: 240, s: 100, l: 50, a: 100 }
    );
    assert_eq!(
        Color::Rgba { r: 117, g: 204, b: 126, a: 0 }.to_hsla_color().unwrap(),
        Color::Hsla { h: 126, s: 46, l: 63, a: 0 }
    );
    assert_eq!(
        Color::hsl(200, 12, 5).to_hsla_color().unwrap(),
        Color::Hsla { h: 200, s: 12, l: 5, a: 100 }
    );
    let [h, s, l, a] = Color::hsl(90, 20, 30).to_hsla().unwrap();
    assert_eq!((h.num, h.den, s.num, s.den, l.num, l.den, a.num, a.den), (90, 360, 20, 100, 30, 100, 100, 100));
    let [_, _, _, a] = Color::Rgba { r: 1, g: 2, b: 3, a: 51 }.to_hsla().unwrap();
    assert_eq!((a.num, a.den), (51, 255));
    assert_eq!(hsl_to_rgb(Fraction::new(1, 3), Fraction::new(0, 1), Fraction::new(1, 2)), [128, 128, 128]);
    assert!(Color::rgb(1, 2, 3).same(&Color::rgb(1, 2, 3)));
    assert!(!Color::rgb(1, 2, 3).same(&Color::Rgba { r: 1, g: 2, b: 3, a: 255 }));
}

#[test]
fn hsl_survives_the_way_through_rgb_within_a_tolerance() {
    const TOLERANCE: f32 = 0.02;
    let mut checked = 0;
    for h in (0..360).step_by(7) {
        for s in (20..=100).step_by(10) {
            for l in (20..=80).step_by(5) {
                let [r, g, b] =
                    hsl_to_rgb(Fraction::new(h, 360), Fraction::new(s, 100), Fraction::new(l, 100));
                let [h2, s2, l2] = rgb_to_hsl(r, g, b);
                let turn = (value(h2) - h as f32 / 360.0).abs();
                assert!(turn < TOLERANCE || (1.0 - turn) < TOLERANCE, "hue of {h} {s} {l}");
                assert!((value(s2) - s as f32 / 100.0).abs() < TOLERANCE, "saturation of {h} {s} {l}");
                assert!((value(l2) - l as f32 / 100.0).abs() < TOLERANCE, "lightness of {h} {s} {l}");
                checked += 1;
            }
        }
    }
    assert!(checked > 5_000);
}

#[test]
fn hsl_comes_back_within_exact_bounds() {
    let mut checked = 0;
    for h in 0..=360i128 {
        for s in (25..=100i128).step_by(5) {
            for l in (25..=75i128).step_by(5) {
                let [r, g, b] = hsl_to_rgb(
                    Fraction::new(h as i64, 360),
                    Fraction::new(s as i64, 100),
                    Fraction::new(l as i64, 100),
                );
                let [h2, s2, l2] = rgb_to_hsl(r, g, b);
                let (hn, hd) = (h2.num as i128, h2.den as i128);
                let (sn, sd) = (s2.num as i128, s2.den as i128);
                let (ln, ld) = (l2.num as i128, l2.den as i128);
                assert!(hd > 0 && sd > 0 && ld == 510);
                assert!((ln * 100 - l * ld).abs() * 510 <= ld * 100, "lightness of {h} {s} {l}");
                assert!((sn * 100 - s * sd).abs() * 50 <= sd * 100, "saturation of {h} {s} {l}");
                let apart = hn * 360 - h * hd;
                let whole = hd * 360;
                let nearest = apart.abs().min((apart + whole).abs()).min((apart - whole).abs());
                assert!(nearest * 50 <= whole, "hue of {h} {s} {l}");
                checked += 1;
            }
        }
    }
    assert_eq!(checked, 361 * 16 * 11);
}
