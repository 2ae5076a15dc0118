//! The colour model: a tagged union of colour notations, their textual form,
//! and the conversions between the RGB and HSL colour spaces.

use vstd::prelude::*;
use crate::utils::bounded_float::Fraction;
use crate::utils::text::{
    decimal_text, digit_char, digit_to_char, from_chars, push_all, push_decimal, push_str, to_chars,
};

verus! {

/// A colour, in one of the notations that CSS knows.
#[derive(Debug, PartialEq, Eq)]
pub enum Color {
    /// A literal that is handed to CSS as it stands.
    CSSLiteral(String),
    /// A colour given by its hexadecimal number.
    Hex(u32),
    /// Red, green and blue, each from 0 to 255.
    Rgb { r: u8, g: u8, b: u8 },
    /// Red, green, blue and opacity, each from 0 to 255.
    Rgba { r: u8, g: u8, b: u8, a: u8 },
    /// Hue in degrees (0 to 360), saturation and lightness in percent.
    Hsl { h: u16, s: u8, l: u8 },
    /// Hue in degrees, saturation, lightness and opacity in percent. Note
    /// that opacity here runs from 0 to 100, not to 255 as in `Rgba`.
    Hsla { h: u16, s: u8, l: u8, a: u8 },
    /// A reference to a CSS variable, with an optional colour to fall back on.
    Var { var: String, fallback: Option<Box<Color>> },
}

/// The mathematical value of a [`Color`]: the same union with text as
/// sequences of characters.
pub ghost enum ColorModel {
    CSSLiteral(Seq<char>),
    Hex(u32),
    Rgb { r: u8, g: u8, b: u8 },
    Rgba { r: u8, g: u8, b: u8, a: u8 },
    Hsl { h: u16, s: u8, l: u8 },
    Hsla { h: u16, s: u8, l: u8, a: u8 },
    Var { var: Seq<char>, fallback: Option<Box<ColorModel>> },
}

impl Color {
    /// The mathematical value of the colour.
    pub open spec fn model(&self) -> ColorModel
        decreases self,
    {
        match self {
            Color::CSSLiteral(s) => ColorModel::CSSLiteral(s@),
            Color::Hex(v) => ColorModel::Hex(*v),
            Color::Rgb { r, g, b } => ColorModel::Rgb { r: *r, g: *g, b: *b },
            Color::Rgba { r, g, b, a } => ColorModel::Rgba { r: *r, g: *g, b: *b, a: *a },
            Color::Hsl { h, s, l } => ColorModel::Hsl { h: *h, s: *s, l: *l },
            Color::Hsla { h, s, l, a } => ColorModel::Hsla { h: *h, s: *s, l: *l, a: *a },
            Color::Var { var, fallback } => ColorModel::Var {
                var: var@,
                fallback: match fallback {
                    Some(inner) => Some(Box::new((**inner).model())),
                    None => None,
                },
            },
        }
    }
}

impl View for Color {
    type V = ColorModel;

    open spec fn view(&self) -> ColorModel {
        self.model()
    }
}

impl Clone for Color {
    fn clone(&self) -> (r: Color)
        ensures
            r@ == self@,
        decreases self,
    {
        match self {
            Color::CSSLiteral(s) => Color::CSSLiteral(s.clone()),
            Color::Hex(v) => Color::Hex(*v),
            Color::Rgb { r, g, b } => Color::Rgb { r: *r, g: *g, b: *b },
            Color::Rgba { r, g, b, a } => Color::Rgba { r: *r, g: *g, b: *b, a: *a },
            Color::Hsl { h, s, l } => Color::Hsl { h: *h, s: *s, l: *l },
            Color::Hsla { h, s, l, a } => Color::Hsla { h: *h, s: *s, l: *l, a: *a },
            Color::Var { var, fallback } => {
                let copy = match fallback {
                    Some(inner) => Some(Box::new((**inner).clone())),
                    None => None,
                };
                Color::Var { var: var.clone(), fallback: copy }
            },
        }
    }
}

impl Color {
    /// A colour that CSS knows by `name`.
    pub fn named(name: &str) -> (c: Color)
        ensures
            c@ == ColorModel::CSSLiteral(name@),
    {
        Color::CSSLiteral(name.to_owned())
    }

    /// The colour with the hexadecimal number `value`.
    pub fn hex_code(value: u32) -> (c: Color)
        ensures
            c@ == ColorModel::Hex(value),
    {
        Color::Hex(value)
    }

    /// The colour with the given red, green and blue parts.
    pub fn rgb(r: u8, g: u8, b: u8) -> (c: Color)
        ensures
            c@ == (ColorModel::Rgb { r, g, b }),
    {
        Color::Rgb { r, g, b }
    }

    /// The colour with the given hue, saturation and lightness.
    pub fn hsl(h: u16, s: u8, l: u8) -> (c: Color)
        ensures
            c@ == (ColorModel::Hsl { h, s, l }),
    {
        Color::Hsl { h, s, l }
    }

    /// Whether two colours are the same value.
    pub fn same(&self, other: &Color) -> (r: bool)
        ensures
            r == (self@ == other@),
        decreases self,
    {
        match (self, other) {
            (Color::CSSLiteral(a), Color::CSSLiteral(b)) => *a == *b,
            (Color::Hex(a), Color::Hex(b)) => *a == *b,
            (Color::Rgb { r, g, b }, Color::Rgb { r: r2, g: g2, b: b2 }) => *r == *r2 && *g == *g2
                && *b == *b2,
            (Color::Rgba { r, g, b, a }, Color::Rgba { r: r2, g: g2, b: b2, a: a2 }) => *r == *r2
                && *g == *g2 && *b == *b2 && *a == *a2,
            (Color::Hsl { h, s, l }, Color::Hsl { h: h2, s: s2, l: l2 }) => *h == *h2 && *s == *s2
                && *l == *l2,
            (Color::Hsla { h, s, l, a }, Color::Hsla { h: h2, s: s2, l: l2, a: a2 }) => *h == *h2
                && *s == *s2 && *l == *l2 && *a == *a2,
            (Color::Var { var, fallback }, Color::Var { var: var2, fallback: fallback2 }) => {
                if !(*var == *var2) {
                    return false;
                }
                match (fallback, fallback2) {
                    (None, None) => true,
                    (Some(x), Some(y)) => {
                        let r = (**x).same(&**y);
                        r
                    },
                    _ => false,
                }
            },
            _ => false,
        }
    }
}

/// Why a text is not a hexadecimal colour.
#[derive(Debug, PartialEq, Eq)]
pub enum ParseColorError {
    /// The text does not begin with `#`. `input` is the whole text.
    MissingHash { input: String },
    /// Two hexadecimal digits were expected where `input` begins.
    MissingHexPair { input: String },
}

/// The mathematical value of a [`ParseColorError`].
pub ghost enum ParseColorErrorModel {
    MissingHash { input: Seq<char> },
    MissingHexPair { input: Seq<char> },
}

impl View for ParseColorError {
    type V = ParseColorErrorModel;

    open spec fn view(&self) -> ParseColorErrorModel {
        match self {
            ParseColorError::MissingHash { input } => ParseColorErrorModel::MissingHash {
                input: input@,
            },
            ParseColorError::MissingHexPair { input } => ParseColorErrorModel::MissingHexPair {
                input: input@,
            },
        }
    }
}

/// `c` is one of `0`-`9`, `a`-`f`, `A`-`F`.
pub open spec fn is_hex_digit_spec(c: char) -> bool {
    ('0' <= c && c <= '9') || ('a' <= c && c <= 'f') || ('A' <= c && c <= 'F')
}

/// The number that the hexadecimal digit `c` stands for.
pub open spec fn hex_digit_value(c: char) -> nat
    recommends
        is_hex_digit_spec(c),
{
    if '0' <= c && c <= '9' {
        (c as nat - '0' as nat) as nat
    } else if 'a' <= c && c <= 'f' {
        (c as nat - 'a' as nat + 10) as nat
    } else {
        (c as nat - 'A' as nat + 10) as nat
    }
}

/// The upper-case hexadecimal digit that stands for `d`.
pub open spec fn hex_char(d: nat) -> char
    recommends
        d < 16,
{
    if d < 10 {
        digit_char(d)
    } else if d == 10 {
        'A'
    } else if d == 11 {
        'B'
    } else if d == 12 {
        'C'
    } else if d == 13 {
        'D'
    } else if d == 14 {
        'E'
    } else {
        'F'
    }
}

/// The hexadecimal digit `c` in upper case.
pub open spec fn upper_hex(c: char) -> char
    recommends
        is_hex_digit_spec(c),
{
    hex_char(hex_digit_value(c))
}

/// The two hexadecimal digits of `s` at position `at` as one byte, if there
/// are two.
pub open spec fn hex_pair(s: Seq<char>, at: int) -> Option<u8> {
    if 0 <= at && at + 2 <= s.len() && is_hex_digit_spec(s[at]) && is_hex_digit_spec(s[at + 1]) {
        Some((hex_digit_value(s[at]) * 16 + hex_digit_value(s[at + 1])) as u8)
    } else {
        None
    }
}

/// The grammar of hexadecimal colours: `#`, three pairs of hexadecimal
/// digits for red, green and blue, and optionally a fourth pair for opacity.
/// The result is the colour together with the text that follows it, or the
/// place where the text departs from the grammar.
pub open spec fn hex_color_grammar(s: Seq<char>) -> Result<
    (Seq<char>, ColorModel),
    ParseColorErrorModel,
> {
    let n = s.len() as int;
    if n == 0 || s[0] != '#' {
        Err(ParseColorErrorModel::MissingHash { input: s })
    } else if hex_pair(s, 1) is None {
        Err(ParseColorErrorModel::MissingHexPair { input: s.subrange(1, n) })
    } else if hex_pair(s, 3) is None {
        Err(ParseColorErrorModel::MissingHexPair { input: s.subrange(3, n) })
    } else if hex_pair(s, 5) is None {
        Err(ParseColorErrorModel::MissingHexPair { input: s.subrange(5, n) })
    } else if hex_pair(s, 7) is None {
        Ok(
            (
                s.subrange(7, n),
                ColorModel::Rgb {
                    r: hex_pair(s, 1)->0,
                    g: hex_pair(s, 3)->0,
                    b: hex_pair(s, 5)->0,
                },
            ),
        )
    } else {
        Ok(
            (
                s.subrange(9, n),
                ColorModel::Rgba {
                    r: hex_pair(s, 1)->0,
                    g: hex_pair(s, 3)->0,
                    b: hex_pair(s, 5)->0,
                    a: hex_pair(s, 7)->0,
                },
            ),
        )
    }
}

/// Whether `c` is a hexadecimal digit.
pub fn is_hex_digit(c: char) -> (r: bool)
    ensures
        r == is_hex_digit_spec(c),
{
    ('0' <= c && c <= '9') || ('a' <= c && c <= 'f') || ('A' <= c && c <= 'F')
}

/// The number that one hexadecimal digit stands for.
fn hex_value(c: char) -> (v: u8)
    requires
        is_hex_digit_spec(c),
    ensures
        v == hex_digit_value(c),
        v < 16,
{
    let code: u32 = c as u32;
    if '0' <= c && c <= '9' {
        (code - 0x30) as u8
    } else if 'a' <= c && c <= 'f' {
        (code - 0x61 + 10) as u8
    } else {
        (code - 0x41 + 10) as u8
    }
}

/// The byte that two hexadecimal digits stand for.
pub fn from_hex(high: char, low: char) -> (v: u8)
    requires
        is_hex_digit_spec(high),
        is_hex_digit_spec(low),
    ensures
        v == hex_digit_value(high) * 16 + hex_digit_value(low),
{
    hex_value(high) * 16 + hex_value(low)
}

/// Reads two hexadecimal digits at position `at` of `s`.
fn hex_primary(s: &Vec<char>, at: usize) -> (r: Option<u8>)
    requires
        at <= s.len(),
    ensures
        r == hex_pair(s@, at as int),
{
    if s.len() - at >= 2 && is_hex_digit(s[at]) && is_hex_digit(s[at + 1]) {
        Some(from_hex(s[at], s[at + 1]))
    } else {
        None
    }
}

/// Reads a hexadecimal colour from the start of `color` and returns it with
/// the text that follows it.
pub fn parse_hex_color(color: &str) -> (r: Result<(String, Color), ParseColorError>)
    ensures
        match hex_color_grammar(color@) {
            Ok((rest, c)) => r matches Ok((text, found)) && text@ == rest && found@ == c,
            Err(e) => r matches Err(x) && x@ == e,
        },
{
    let s = to_chars(color);
    let n = s.len();
    if n == 0 || s[0] != '#' {
        return Err(ParseColorError::MissingHash { input: from_chars(&s) });
    }
    let r = match hex_primary(&s, 1) {
        Some(v) => v,
        None => {
            let rest = crate::utils::text::tail_from(&s, 1);
            return Err(ParseColorError::MissingHexPair { input: from_chars(&rest) });
        },
    };
    let g = match hex_primary(&s, 3) {
        Some(v) => v,
        None => {
            let rest = crate::utils::text::tail_from(&s, 3);
            return Err(ParseColorError::MissingHexPair { input: from_chars(&rest) });
        },
    };
    let b = match hex_primary(&s, 5) {
        Some(v) => v,
        None => {
            let rest = crate::utils::text::tail_from(&s, 5);
            return Err(ParseColorError::MissingHexPair { input: from_chars(&rest) });
        },
    };
    match hex_primary(&s, 7) {
        None => {
            let rest = crate::utils::text::tail_from(&s, 7);
            Ok((from_chars(&rest), Color::Rgb { r, g, b }))
        },
        Some(a) => {
            let rest = crate::utils::text::tail_from(&s, 9);
            Ok((from_chars(&rest), Color::Rgba { r, g, b, a }))
        },
    }
}

/// Reads a colour from the start of `color`. The only notation it knows is
/// the hexadecimal one.
pub fn parse_color(color: &str) -> (r: Result<(String, Color), ParseColorError>)
    ensures
        match hex_color_grammar(color@) {
            Ok((rest, c)) => r matches Ok((text, found)) && text@ == rest && found@ == c,
            Err(e) => r matches Err(x) && x@ == e,
        },
{
    parse_hex_color(color)
}

/// The red, green and blue parts of a hexadecimal colour number.
pub open spec fn rgb_of_hex(value: u32) -> (u8, u8, u8) {
    (((value / 0x1_0000) % 0x100) as u8, ((value / 0x100) % 0x100) as u8, (value % 0x100) as u8)
}

/// Splits a hexadecimal colour number into red, green and blue.
pub fn u32_to_rgb(value: u32) -> (r: [u8; 3])
    ensures
        (r[0], r[1], r[2]) == rgb_of_hex(value),
{
    let r: u32 = (value / 0x1_0000) % 0x100;
    let g: u32 = (value / 0x100) % 0x100;
    let b: u32 = value % 0x100;
    [r as u8, g as u8, b as u8]
}

/// The two upper-case hexadecimal digits of a byte.
pub open spec fn hex2(b: u8) -> Seq<char> {
    seq![hex_char((b / 16) as nat), hex_char((b % 16) as nat)]
}

/// The last `width` upper-case hexadecimal digits of `n`, with leading zeros.
pub open spec fn hex_fixed(n: nat, width: nat) -> Seq<char>
    decreases width,
{
    if width == 0 {
        Seq::empty()
    } else {
        hex_fixed(n / 16, (width - 1) as nat).push(hex_char(n % 16))
    }
}

/// The upper-case hexadecimal numeral of `n`, with leading zeros up to six
/// digits.
pub open spec fn hex_six(n: u32) -> Seq<char> {
    if n < 0x100_0000 {
        hex_fixed(n as nat, 6)
    } else if n < 0x1000_0000 {
        hex_fixed(n as nat, 7)
    } else {
        hex_fixed(n as nat, 8)
    }
}

/// An opacity in percent as a fraction of one with two decimals: `50` is
/// `0.50`, `5` is `0.05`.
pub open spec fn percent_fraction_text(a: u8) -> Seq<char> {
    decimal_text((a / 100) as nat) + seq!['.', digit_char(((a % 100) / 10) as nat), digit_char((a % 10) as nat)]
}

/// The text of a colour as CSS reads it.
///
/// `Rgb`, and `Rgba` with full opacity (255), are six hexadecimal digits;
/// other `Rgba` are eight. `Hsl`, and `Hsla` with full opacity (100), are
/// `hsla(h, s%, l%)`; other `Hsla` carry the opacity as a fourth argument. A
/// bare hexadecimal number is printed without opacity. A variable is
/// `var(name)` or `var(name, fallback)`.
pub open spec fn color_text(c: ColorModel) -> Seq<char>
    decreases c,
{
    match c {
        ColorModel::CSSLiteral(n) => n,
        ColorModel::Hex(v) => "#"@ + hex_six(v),
        ColorModel::Rgb { r, g, b } => "#"@ + hex2(r) + hex2(g) + hex2(b),
        ColorModel::Rgba { r, g, b, a } => if a == 255 {
            "#"@ + hex2(r) + hex2(g) + hex2(b)
        } else {
            "#"@ + hex2(r) + hex2(g) + hex2(b) + hex2(a)
        },
        ColorModel::Hsl { h, s, l } => hsl_text(h, s, l),
        ColorModel::Hsla { h, s, l, a } => if a == 100 {
            hsl_text(h, s, l)
        } else {
            "hsla("@ + decimal_text(h as nat) + ", "@ + decimal_text(s as nat) + "%, "@
                + decimal_text(l as nat) + "%, "@ + percent_fraction_text(a) + ")"@
        },
        ColorModel::Var { var, fallback } => match fallback {
            None => "var("@ + var + ")"@,
            Some(inner) => "var("@ + var + ", "@ + color_text(*inner) + ")"@,
        },
    }
}

/// `hsla(h, s%, l%)`.
pub open spec fn hsl_text(h: u16, s: u8, l: u8) -> Seq<char> {
    "hsla("@ + decimal_text(h as nat) + ", "@ + decimal_text(s as nat) + "%, "@ + decimal_text(
        l as nat,
    ) + "%)"@
}

/// The upper-case hexadecimal digit of `d`.
fn hex_digit_char(d: u8) -> (c: char)
    requires
        d < 16,
    ensures
        c == hex_char(d as nat),
{
    if d < 10 {
        digit_to_char(d)
    } else if d == 10 {
        'A'
    } else if d == 11 {
        'B'
    } else if d == 12 {
        'C'
    } else if d == 13 {
        'D'
    } else if d == 14 {
        'E'
    } else {
        'F'
    }
}

/// Appends the two hexadecimal digits of `b`.
fn push_hex2(out: &mut Vec<char>, b: u8)
    ensures
        final(out)@ == old(out)@ + hex2(b),
{
    out.push(hex_digit_char(b / 16));
    out.push(hex_digit_char(b % 16));
    assert(out@ =~= old(out)@ + hex2(b));
}

/// The last `width` hexadecimal digits of `n`.
fn hex_fixed_chars(n: u32, width: u8) -> (r: Vec<char>)
    ensures
        r@ == hex_fixed(n as nat, width as nat),
    decreases width,
{
    if width == 0 {
        Vec::new()
    } else {
        let mut r = hex_fixed_chars(n / 16, width - 1);
        r.push(hex_digit_char((n % 16) as u8));
        r
    }
}

/// Appends `hsla(h, s%, l%` without the closing bracket.
fn push_hsl_head(out: &mut Vec<char>, h: u16, s: u8, l: u8)
    ensures
        final(out)@ == old(out)@ + "hsla("@ + decimal_text(h as nat) + ", "@ + decimal_text(
            s as nat,
        ) + "%, "@ + decimal_text(l as nat),
{
    push_str(out, "hsla(");
    push_decimal(out, h as u64);
    push_str(out, ", ");
    push_decimal(out, s as u64);
    push_str(out, "%, ");
    push_decimal(out, l as u64);
}

/// Appends `#` and the hexadecimal numeral of `v`.
fn push_hex_number(out: &mut Vec<char>, v: u32)
    ensures
        final(out)@ == old(out)@ + color_text(ColorModel::Hex(v)),
{
    push_str(out, "#");
    let digits = if v < 0x100_0000 {
        hex_fixed_chars(v, 6)
    } else if v < 0x1000_0000 {
        hex_fixed_chars(v, 7)
    } else {
        hex_fixed_chars(v, 8)
    };
    push_all(out, &digits);
    assert(out@ =~= old(out)@ + ("#"@ + hex_six(v)));
}

/// Appends `#` and the hexadecimal digits of red, green and blue.
fn push_rgb(out: &mut Vec<char>, r: u8, g: u8, b: u8)
    ensures
        final(out)@ == old(out)@ + ("#"@ + hex2(r) + hex2(g) + hex2(b)),
{
    push_str(out, "#");
    push_hex2(out, r);
    push_hex2(out, g);
    push_hex2(out, b);
    assert(out@ =~= old(out)@ + ("#"@ + hex2(r) + hex2(g) + hex2(b)));
}

/// Appends an `hsla(..)` colour without opacity.
fn push_hsl(out: &mut Vec<char>, h: u16, s: u8, l: u8)
    ensures
        final(out)@ == old(out)@ + hsl_text(h, s, l),
{
    push_hsl_head(out, h, s, l);
    push_str(out, "%)");
    assert(out@ =~= old(out)@ + hsl_text(h, s, l));
}

/// Appends an `hsla(..)` colour with its opacity as a fourth argument.
fn push_hsla(out: &mut Vec<char>, h: u16, s: u8, l: u8, a: u8)
    ensures
        final(out)@ == old(out)@ + ("hsla("@ + decimal_text(h as nat) + ", "@ + decimal_text(
            s as nat,
        ) + "%, "@ + decimal_text(l as nat) + "%, "@ + percent_fraction_text(a) + ")"@),
{
    push_hsl_head(out, h, s, l);
    push_str(out, "%, ");
    let mut opacity: Vec<char> = Vec::new();
    push_decimal(&mut opacity, (a / 100) as u64);
    opacity.push('.');
    opacity.push(digit_to_char((a % 100) / 10));
    opacity.push(digit_to_char(a % 10));
    assert(opacity@ =~= percent_fraction_text(a));
    push_all(out, &opacity);
    push_str(out, ")");
    assert(out@ =~= old(out)@ + ("hsla("@ + decimal_text(h as nat) + ", "@ + decimal_text(
        s as nat,
    ) + "%, "@ + decimal_text(l as nat) + "%, "@ + percent_fraction_text(a) + ")"@));
}

impl Color {
    /// Appends the text of the colour to `out`.
    pub fn write_text(&self, out: &mut Vec<char>)
        ensures
            final(out)@ == old(out)@ + color_text(self@),
        decreases self,
    {
        match self {
            Color::CSSLiteral(n) => {
                push_str(out, n.as_str());
            },
            Color::Hex(v) => {
                push_hex_number(out, *v);
            },
            Color::Rgb { r, g, b } => {
                push_rgb(out, *r, *g, *b);
            },
            Color::Rgba { r, g, b, a } => {
                push_rgb(out, *r, *g, *b);
                if *a != 255 {
                    push_hex2(out, *a);
                    assert(out@ =~= old(out)@ + ("#"@ + hex2(*r) + hex2(*g) + hex2(*b) + hex2(
                        *a,
                    )));
                }
            },
            Color::Hsl { h, s, l } => {
                push_hsl(out, *h, *s, *l);
            },
            Color::Hsla { h, s, l, a } => {
                if *a == 100 {
                    push_hsl(out, *h, *s, *l);
                } else {
                    push_hsla(out, *h, *s, *l, *a);
                }
            },
            Color::Var { var, fallback } => {
                push_str(out, "var(");
                push_str(out, var.as_str());
                match fallback {
                    None => {
                        push_str(out, ")");
                        assert(out@ =~= old(out)@ + ("var("@ + var@ + ")"@));
                    },
                    Some(inner) => {
                        push_str(out, ", ");
                        (**inner).write_text(out);
                        push_str(out, ")");
                        assert(out@ =~= old(out)@ + ("var("@ + var@ + ", "@ + color_text(
                            (**inner)@,
                        ) + ")"@));
                    },
                }
            },
        }
    }

    /// The text of the colour as CSS reads it.
    pub fn to_string(&self) -> (s: String)
        ensures
            s@ == color_text(self@),
    {
        let mut out: Vec<char> = Vec::new();
        self.write_text(&mut out);
        assert(out@ =~= color_text(self@));
        from_chars(&out)
    }

    /// Reads a colour in hexadecimal notation. Text that follows the colour
    /// is ignored.
    pub fn from_str(s: &str) -> (r: Result<Color, ParseColorError>)
        ensures
            match hex_color_grammar(s@) {
                Ok((_, c)) => r matches Ok(found) && found@ == c,
                Err(e) => r matches Err(x) && x@ == e,
            },
    {
        match parse_color(s) {
            Ok((_, c)) => Ok(c),
            Err(e) => Err(e),
        }
    }
}

/// Every character of `s` is a hexadecimal digit.
pub open spec fn all_hex_digits(s: Seq<char>) -> bool {
    forall|i: int| 0 <= i < s.len() ==> is_hex_digit_spec(#[trigger] s[i])
}

/// The number that the hexadecimal numeral `s` stands for.
pub open spec fn hex_number(s: Seq<char>) -> nat
    decreases s.len(),
{
    if s.len() == 0 {
        0
    } else {
        hex_number(s.drop_last()) * 16 + hex_digit_value(s.last())
    }
}

/// The hexadecimal numeral `s` with every digit in upper case.
pub open spec fn upper_hex_text(s: Seq<char>) -> Seq<char> {
    Seq::new(s.len(), |i: int| upper_hex(s[i]))
}

/// Sixteen to the power of `w`.
pub open spec fn pow16(w: nat) -> nat
    decreases w,
{
    if w == 0 {
        1
    } else {
        16 * pow16((w - 1) as nat)
    }
}

/// Printing the number of a hexadecimal numeral with as many digits as the
/// numeral has gives the numeral back in upper case.
pub proof fn lemma_hex_fixed_of_number(s: Seq<char>)
    requires
        all_hex_digits(s),
    ensures
        hex_fixed(hex_number(s), s.len()) == upper_hex_text(s),
        hex_number(s) < pow16(s.len()),
    decreases s.len(),
{
    if s.len() == 0 {
        assert(hex_fixed(hex_number(s), s.len()) =~= upper_hex_text(s));
    } else {
        let init = s.drop_last();
        let last = s.last();
        assert(is_hex_digit_spec(s[s.len() - 1]));
        assert forall|i: int| 0 <= i < init.len() implies is_hex_digit_spec(
            #[trigger] init[i],
        ) by {
            assert(init[i] == s[i]);
        }
        lemma_hex_fixed_of_number(init);
        let v = hex_digit_value(last);
        assert(v < 16);
        let n = hex_number(s);
        assert(n == hex_number(init) * 16 + v);
        assert(n / 16 == hex_number(init) && n % 16 == v);
        assert(hex_fixed(n, s.len()) == hex_fixed(n / 16, (s.len() - 1) as nat).push(
            hex_char(n % 16),
        ));
        assert(hex_fixed(n, s.len()) =~= upper_hex_text(s)) by {
            assert forall|i: int| 0 <= i < s.len() implies hex_fixed(n, s.len())[i]
                == upper_hex_text(s)[i] by {
                if i < s.len() - 1 {
                    assert(upper_hex_text(init)[i] == upper_hex(init[i]));
                    assert(init[i] == s[i]);
                }
            }
        }
    }
}

/// A colour written as `#` and six hexadecimal digits is read as the three
/// bytes that the digits spell, with nothing left over, and is printed as the
/// same text in upper case. The same holds of the colour that carries the six
/// digits as one hexadecimal number.
pub proof fn lemma_hex_text_round_trip(digits: Seq<char>)
    requires
        digits.len() == 6,
        all_hex_digits(digits),
    ensures
        hex_color_grammar("#"@ + digits) matches Ok((rest, c)) && rest.len() == 0 && color_text(c)
            == "#"@ + upper_hex_text(digits),
        hex_number(digits) < 0x100_0000,
        color_text(ColorModel::Hex(hex_number(digits) as u32)) == "#"@ + upper_hex_text(digits),
{
    reveal_strlit("#");
    let s = "#"@ + digits;
    assert(s.len() == 7);
    assert(s[0] == '#');
    assert forall|i: int| 1 <= i < 7 implies is_hex_digit_spec(#[trigger] s[i]) by {
        assert(s[i] == digits[i - 1]);
    }
    assert forall|i: int| 0 <= i < 6 implies hex_digit_value(#[trigger] digits[i]) < 16 by {
        assert(is_hex_digit_spec(digits[i]));
    }
    assert(hex_pair(s, 1) is Some);
    assert(hex_pair(s, 3) is Some);
    assert(hex_pair(s, 5) is Some);
    assert(hex_pair(s, 7) is None);
    let r = hex_pair(s, 1)->0;
    let g = hex_pair(s, 3)->0;
    let b = hex_pair(s, 5)->0;
    assert(s[1] == digits[0] && s[2] == digits[1] && s[3] == digits[2] && s[4] == digits[3]
        && s[5] == digits[4] && s[6] == digits[5]);
    assert(hex2(r) =~= seq![upper_hex(digits[0]), upper_hex(digits[1])]);
    assert(hex2(g) =~= seq![upper_hex(digits[2]), upper_hex(digits[3])]);
    assert(hex2(b) =~= seq![upper_hex(digits[4]), upper_hex(digits[5])]);
    assert(hex2(r) + hex2(g) + hex2(b) =~= upper_hex_text(digits));
    assert("#"@ + hex2(r) + hex2(g) + hex2(b) =~= "#"@ + upper_hex_text(digits));
    assert(s.subrange(7, 7).len() == 0);
    lemma_hex_fixed_of_number(digits);
    assert(pow16(6) == 0x100_0000) by {
        reveal_with_fuel(pow16, 7);
    }
}

/// A colour reduced to one of two normal forms.
#[derive(Debug, Clone, Copy, PartialEq, Eq)]
pub enum SimpleColor {
    /// Red, green, blue and opacity, each from 0 to 255.
    Rgba(u8, u8, u8, u8),
    /// Hue, saturation, lightness and opacity, each a fraction of one: the
    /// hue is held as its numerator over 360, the others as numerators over
    /// 100. A colour without opacity of its own is fully opaque.
    Hsla(u16, u8, u8, u8),
}

/// Why a colour cannot be converted.
#[derive(Debug, PartialEq, Eq)]
pub enum TransformColorError {
    /// The colour has no red, green and blue or hue, saturation and
    /// lightness that could be read off: it is a literal other than a
    /// hexadecimal one, a variable, or lies outside the ranges of its
    /// notation.
    NonEligibleColor(Color),
}

/// A fraction from zero to one, both included.
pub open spec fn in_unit(f: Fraction) -> bool {
    f.den > 0 && 0 <= f.num <= f.den
}

/// The normal form of a colour that is not a literal, if it has one.
///
/// A bare hexadecimal number has opacity 0 here, although it is printed as
/// an opaque colour.
pub open spec fn simple_of_plain(c: ColorModel) -> Option<SimpleColor> {
    match c {
        ColorModel::Hex(v) => Some(
            SimpleColor::Rgba(rgb_of_hex(v).0, rgb_of_hex(v).1, rgb_of_hex(v).2, 0),
        ),
        ColorModel::Rgb { r, g, b } => Some(SimpleColor::Rgba(r, g, b, 255)),
        ColorModel::Rgba { r, g, b, a } => Some(SimpleColor::Rgba(r, g, b, a)),
        ColorModel::Hsl { h, s, l } => if h <= 360 && s <= 100 && l <= 100 {
            Some(SimpleColor::Hsla(h, s, l, 100))
        } else {
            None
        },
        ColorModel::Hsla { h, s, l, a } => if h <= 360 && s <= 100 && l <= 100 && a <= 100 {
            Some(SimpleColor::Hsla(h, s, l, a))
        } else {
            None
        },
        _ => None,
    }
}

/// The normal form of a colour, if it has one. A literal has the normal
/// form of the hexadecimal colour that it spells, if it spells one.
pub open spec fn simple_of(c: ColorModel) -> Option<SimpleColor> {
    match c {
        ColorModel::CSSLiteral(text) => match hex_color_grammar(text) {
            Ok((_, parsed)) => simple_of_plain(parsed),
            Err(_) => None,
        },
        other => simple_of_plain(other),
    }
}

/// The greatest of three numbers.
pub open spec fn max3(a: int, b: int, c: int) -> int {
    if a >= b && a >= c {
        a
    } else if b >= c {
        b
    } else {
        c
    }
}

/// The least of three numbers.
pub open spec fn min3(a: int, b: int, c: int) -> int {
    if a <= b && a <= c {
        a
    } else if b <= c {
        b
    } else {
        c
    }
}

/// Hue, saturation and lightness of a colour given by red, green and blue,
/// each as an exact fraction of one.
///
/// With `hi` and `lo` the greatest and least of the three parts and `d`
/// their difference: lightness is `(hi + lo) / 2`; a grey (`d` zero) has hue
/// and saturation zero; otherwise saturation is `d / (hi + lo)` for dark
/// colours and `d / (2 - hi - lo)` for light ones, and the hue is a sixth of
/// the position of the colour on the colour wheel.
pub open spec fn rgb_to_hsl_spec(r: u8, g: u8, b: u8) -> (Fraction, Fraction, Fraction) {
    let hi = max3(r as int, g as int, b as int);
    let lo = min3(r as int, g as int, b as int);
    let d = hi - lo;
    let l = Fraction { num: (hi + lo) as i64, den: 510 };
    if d == 0 {
        (Fraction { num: 0, den: 1 }, Fraction { num: 0, den: 1 }, l)
    } else {
        let s = if hi + lo > 255 {
            Fraction { num: d as i64, den: (510 - hi - lo) as u32 }
        } else {
            Fraction { num: d as i64, den: (hi + lo) as u32 }
        };
        let h = if hi == r {
            Fraction { num: ((g - b) + (if g < b { 6 * d } else { 0 })) as i64, den: (6 * d) as u32 }
        } else if hi == g {
            Fraction { num: ((b - r) + 2 * d) as i64, den: (6 * d) as u32 }
        } else {
            Fraction { num: ((r - g) + 4 * d) as i64, den: (6 * d) as u32 }
        };
        (h, s, l)
    }
}

/// Hue, saturation and lightness of the colour with the given red, green and
/// blue, each as an exact fraction of one.
pub fn rgb_to_hsl(r: u8, g: u8, b: u8) -> (hsl: [Fraction; 3])
    ensures
        (hsl[0], hsl[1], hsl[2]) == rgb_to_hsl_spec(r, g, b),
        in_unit(hsl[0]),
        in_unit(hsl[1]),
        in_unit(hsl[2]),
{
    let rw: i64 = r as i64;
    let gw: i64 = g as i64;
    let bw: i64 = b as i64;
    let hi: i64 = if rw >= gw && rw >= bw {
        rw
    } else if gw >= bw {
        gw
    } else {
        bw
    };
    let lo: i64 = if rw <= gw && rw <= bw {
        rw
    } else if gw <= bw {
        gw
    } else {
        bw
    };
    let d: i64 = hi - lo;
    let l = Fraction { num: hi + lo, den: 510 };
    if d == 0 {
        return [Fraction { num: 0, den: 1 }, Fraction { num: 0, den: 1 }, l];
    }
    let s = if hi + lo > 255 {
        Fraction { num: d, den: (510 - hi - lo) as u32 }
    } else {
        Fraction { num: d, den: (hi + lo) as u32 }
    };
    let h = if hi == rw {
        let turn: i64 = if gw < bw {
            6 * d
        } else {
            0
        };
        Fraction { num: (gw - bw) + turn, den: (6 * d) as u32 }
    } else if hi == gw {
        Fraction { num: (bw - rw) + 2 * d, den: (6 * d) as u32 }
    } else {
        Fraction { num: (rw - gw) + 4 * d, den: (6 * d) as u32 }
    };
    [h, s, l]
}

/// `n / d` rounded to the nearest whole number, halves away from zero, and
/// held to the range from 0 to `top`. It is zero for negative `n`.
pub open spec fn round_clamped(n: int, d: int, top: int) -> int
    recommends
        d > 0,
{
    if n <= 0 {
        0
    } else if (2 * n + d) / (2 * d) > top {
        top
    } else {
        (2 * n + d) / (2 * d)
    }
}

/// `n / d` without its fractional part, held to the range from 0 to `top`.
pub open spec fn floor_clamped(n: int, d: int, top: int) -> int
    recommends
        d > 0,
{
    if n <= 0 {
        0
    } else if n / d > top {
        top
    } else {
        n / d
    }
}

/// One colour channel for the hue position `t / td`, given the two levels
/// `p` and `q` between which every channel lies. The result is the numerator
/// of the channel over the denominator of the levels times `td`.
///
/// The position is first brought into the range from zero to one. In the
/// first sixth of the wheel the channel rises from `p` to `q`, up to the
/// half it stays at `q`, up to two thirds it falls back to `p`, and after
/// that it stays at `p`.
pub open spec fn hue_channel(p: int, q: int, t: int, td: int) -> int {
    let t1 = if t < 0 {
        t + td
    } else {
        t
    };
    let t2 = if t1 > td {
        t1 - td
    } else {
        t1
    };
    if 6 * t2 < td {
        p * td + (q - p) * 6 * t2
    } else if 2 * t2 < td {
        q * td
    } else if 3 * t2 < 2 * td {
        p * td + (q - p) * (4 * td - 6 * t2)
    } else {
        p * td
    }
}

/// The upper level `q` of the channels, as a numerator over
/// `s.den * l.den`: `l * (1 + s)` for dark colours, `l + s - l * s` for light
/// ones.
pub open spec fn upper_level(s: Fraction, l: Fraction) -> int {
    if 2 * l.num < l.den {
        l.num * (s.den + s.num)
    } else {
        l.num * s.den + s.num * l.den - l.num * s.num
    }
}

/// The lower level `p = 2 * l - q` of the channels, as a numerator over
/// `s.den * l.den`.
pub open spec fn lower_level(s: Fraction, l: Fraction) -> int {
    2 * l.num * s.den - upper_level(s, l)
}

/// Red, green and blue, from 0 to 255, of the colour with hue `h`,
/// saturation `s` and lightness `l`, each a fraction of one.
///
/// Without saturation all three are the lightness. Otherwise red, green and
/// blue are the channels a third of the wheel ahead of the hue, at the hue,
/// and a third behind it.
pub open spec fn hsl_to_rgb_spec(h: Fraction, s: Fraction, l: Fraction) -> (u8, u8, u8) {
    if s.num == 0 {
        let v = round_clamped(255 * l.num, l.den as int, 255) as u8;
        (v, v, v)
    } else {
        let d = s.den * l.den;
        let q = upper_level(s, l);
        let p = lower_level(s, l);
        let td = 3 * h.den;
        (
            round_clamped(255 * hue_channel(p, q, 3 * h.num + h.den, td), d * td, 255) as u8,
            round_clamped(255 * hue_channel(p, q, 3 * h.num, td), d * td, 255) as u8,
            round_clamped(255 * hue_channel(p, q, 3 * h.num - h.den, td), d * td, 255) as u8,
        )
    }
}

/// The product of two bounded numbers is bounded by the product of the
/// bounds.
pub proof fn lemma_mul_bound(a: int, b: int, ba: int, bb: int)
    requires
        -ba <= a <= ba,
        -bb <= b <= bb,
    ensures
        -(ba * bb) <= a * b <= ba * bb,
{
    assert(-(ba * bb) <= a * b <= ba * bb) by (nonlinear_arith)
        requires
            -ba <= a <= ba,
            -bb <= b <= bb,
    ;
}

/// The product of two numbers whose sizes are known.
pub(crate) fn mul_within(a: i128, b: i128, Ghost(ba): Ghost<int>, Ghost(bb): Ghost<int>) -> (r: i128)
    requires
        -ba <= a <= ba,
        -bb <= b <= bb,
        ba * bb <= 0x4000_0000_0000_0000_0000_0000_0000_0000,
    ensures
        r == a * b,
        -(ba * bb) <= r <= ba * bb,
{
    proof {
        lemma_mul_bound(a as int, b as int, ba, bb);
    }
    a * b
}

/// `n / d` rounded to the nearest whole number and held to 0..=`top`.
pub(crate) fn round_to(n: i128, d: i128, top: u16) -> (r: u16)
    requires
        0 < d <= 0x1_0000_0000_0000_0000_0000_0000_0000,
        -0x100_0000_0000_0000_0000_0000_0000_0000 <= n
            <= 0x100_0000_0000_0000_0000_0000_0000_0000,
    ensures
        r == round_clamped(n as int, d as int, top as int),
{
    if n <= 0 {
        0
    } else {
        let v: i128 = (2 * n + d) / (2 * d);
        if v > top as i128 {
            top
        } else {
            v as u16
        }
    }
}

/// The channel for the hue position `t / td`.
fn hue_to_rgb(p: i128, q: i128, t: i128, td: i128) -> (v: i128)
    requires
        -0x4_0000_0000_0000_0000 <= p <= 0x4_0000_0000_0000_0000,
        -0x4_0000_0000_0000_0000 <= q <= 0x4_0000_0000_0000_0000,
        0 < td <= 0x4_0000_0000,
        -td <= t <= 2 * td,
    ensures
        v == hue_channel(p as int, q as int, t as int, td as int),
        -0x1000_0000_0000_0000_0000_0000_0000 <= v <= 0x1000_0000_0000_0000_0000_0000_0000,
{
    let t1: i128 = if t < 0 {
        t + td
    } else {
        t
    };
    let t2: i128 = if t1 > td {
        t1 - td
    } else {
        t1
    };
    let base = mul_within(p, td, Ghost(0x4_0000_0000_0000_0000), Ghost(0x4_0000_0000));
    if 6 * t2 < td {
        let rise = mul_within(
            q - p,
            6 * t2,
            Ghost(0x8_0000_0000_0000_0000),
            Ghost(0x4_0000_0000),
        );
        assert((q - p) * (6 * t2) == (q - p) * 6 * t2) by (nonlinear_arith);
        base + rise
    } else if 2 * t2 < td {
        mul_within(q, td, Ghost(0x4_0000_0000_0000_0000), Ghost(0x4_0000_0000))
    } else if 3 * t2 < 2 * td {
        let fall = mul_within(
            q - p,
            4 * td - 6 * t2,
            Ghost(0x8_0000_0000_0000_0000),
            Ghost(0x10_0000_0000),
        );
        base + fall
    } else {
        base
    }
}

/// Red, green and blue of the colour with hue `h`, saturation `s` and
/// lightness `l`, each a fraction from zero to one.
pub fn hsl_to_rgb(h: Fraction, s: Fraction, l: Fraction) -> (rgb: [u8; 3])
    requires
        in_unit(h),
        in_unit(s),
        in_unit(l),
    ensures
        (rgb[0], rgb[1], rgb[2]) == hsl_to_rgb_spec(h, s, l),
{
    let ln: i128 = l.num as i128;
    let ld: i128 = l.den as i128;
    if s.num == 0 {
        let v = round_to(255 * ln, ld, 255) as u8;
        return [v, v, v];
    }
    let sn: i128 = s.num as i128;
    let sd: i128 = s.den as i128;
    let hn: i128 = h.num as i128;
    let hd: i128 = h.den as i128;
    let d = mul_within(sd, ld, Ghost(0x1_0000_0000), Ghost(0x1_0000_0000));
    let q: i128 = if 2 * ln < ld {
        mul_within(ln, sd + sn, Ghost(0x1_0000_0000), Ghost(0x2_0000_0000))
    } else {
        let a = mul_within(ln, sd, Ghost(0x1_0000_0000), Ghost(0x1_0000_0000));
        let b = mul_within(sn, ld, Ghost(0x1_0000_0000), Ghost(0x1_0000_0000));
        let c = mul_within(ln, sn, Ghost(0x1_0000_0000), Ghost(0x1_0000_0000));
        a + b - c
    };
    let twice = mul_within(2 * ln, sd, Ghost(0x2_0000_0000), Ghost(0x1_0000_0000));
    assert((2 * ln) * sd == 2 * ln * sd) by (nonlinear_arith);
    let p: i128 = twice - q;
    let td: i128 = 3 * hd;
    let scale = mul_within(d, td, Ghost(0x1_0000_0000_0000_0000), Ghost(0x4_0000_0000));
    assert(scale > 0) by (nonlinear_arith)
        requires
            scale == d * td,
            d == sd * ld,
            sd > 0,
            ld > 0,
            td > 0,
    ;
    let r = hue_to_rgb(p, q, 3 * hn + hd, td);
    let g = hue_to_rgb(p, q, 3 * hn, td);
    let b = hue_to_rgb(p, q, 3 * hn - hd, td);
    [
        round_to(255 * r, scale, 255) as u8,
        round_to(255 * g, scale, 255) as u8,
        round_to(255 * b, scale, 255) as u8,
    ]
}

/// Red, green, blue and opacity, from 0 to 255, of a colour in normal form.
/// The opacity of a colour given by hue keeps only the whole part of its
/// 255-fold.
pub open spec fn rgba_of(c: SimpleColor) -> (u8, u8, u8, u8) {
    match c {
        SimpleColor::Rgba(r, g, b, a) => (r, g, b, a),
        SimpleColor::Hsla(h, s, l, a) => (
            hsl_to_rgb_spec(hsla_of(c).0, hsla_of(c).1, hsla_of(c).2).0,
            hsl_to_rgb_spec(hsla_of(c).0, hsla_of(c).1, hsla_of(c).2).1,
            hsl_to_rgb_spec(hsla_of(c).0, hsla_of(c).1, hsla_of(c).2).2,
            floor_clamped(255 * a, 100, 255) as u8,
        ),
    }
}

/// Hue, saturation, lightness and opacity, as fractions of one, of a colour
/// in normal form.
pub open spec fn hsla_of(c: SimpleColor) -> (Fraction, Fraction, Fraction, Fraction) {
    match c {
        SimpleColor::Rgba(r, g, b, a) => (
            rgb_to_hsl_spec(r, g, b).0,
            rgb_to_hsl_spec(r, g, b).1,
            rgb_to_hsl_spec(r, g, b).2,
            Fraction { num: a as i64, den: 255 },
        ),
        SimpleColor::Hsla(h, s, l, a) => (
            Fraction { num: h as i64, den: 360 },
            Fraction { num: s as i64, den: 100 },
            Fraction { num: l as i64, den: 100 },
            Fraction { num: a as i64, den: 100 },
        ),
    }
}

/// The `Hsla` colour nearest to the given fractions: hue in whole degrees,
/// the others in whole percent.
pub open spec fn hsla_color_of(h: Fraction, s: Fraction, l: Fraction, a: Fraction) -> ColorModel {
    ColorModel::Hsla {
        h: round_clamped(360 * h.num, h.den as int, 0xFFFF) as u16,
        s: round_clamped(100 * s.num, s.den as int, 255) as u8,
        l: round_clamped(100 * l.num, l.den as int, 255) as u8,
        a: round_clamped(100 * a.num, a.den as int, 255) as u8,
    }
}

/// The components of a colour in normal form are fractions of one.
pub open spec fn simple_in_unit(c: SimpleColor) -> bool {
    match c {
        SimpleColor::Rgba(_, _, _, _) => true,
        SimpleColor::Hsla(h, s, l, a) => h <= 360 && s <= 100 && l <= 100 && a <= 100,
    }
}

impl Color {
    /// The normal form of a colour that is not a literal.
    fn to_simple_plain(&self) -> (r: Option<SimpleColor>)
        ensures
            r == simple_of_plain(self@),
            r matches Some(c) ==> simple_in_unit(c),
    {
        match self {
            Color::Hex(v) => {
                let rgb = u32_to_rgb(*v);
                Some(SimpleColor::Rgba(rgb[0], rgb[1], rgb[2], 0))
            },
            Color::Rgb { r, g, b } => Some(SimpleColor::Rgba(*r, *g, *b, 255)),
            Color::Rgba { r, g, b, a } => Some(SimpleColor::Rgba(*r, *g, *b, *a)),
            Color::Hsl { h, s, l } => {
                if *h <= 360 && *s <= 100 && *l <= 100 {
                    Some(SimpleColor::Hsla(*h, *s, *l, 100))
                } else {
                    None
                }
            },
            Color::Hsla { h, s, l, a } => {
                if *h <= 360 && *s <= 100 && *l <= 100 && *a <= 100 {
                    Some(SimpleColor::Hsla(*h, *s, *l, *a))
                } else {
                    None
                }
            },
            _ => None,
        }
    }

    /// The normal form of the colour. Colours without one are handed back
    /// in the error.
    pub fn to_simple(&self) -> (r: Result<SimpleColor, TransformColorError>)
        ensures
            match simple_of(self@) {
                Some(c) => r matches Ok(found) && found == c && simple_in_unit(c),
                None => r matches Err(TransformColorError::NonEligibleColor(given)) && given@
                    == self@,
            },
    {
        let found = match self {
            Color::CSSLiteral(text) => match Color::from_str(text.as_str()) {
                Ok(parsed) => parsed.to_simple_plain(),
                Err(_) => None,
            },
            other => other.to_simple_plain(),
        };
        match found {
            Some(c) => Ok(c),
            None => Err(TransformColorError::NonEligibleColor(self.clone())),
        }
    }

    /// Hue, saturation, lightness and opacity of the colour, each as a
    /// fraction of one.
    pub fn to_hsla(&self) -> (r: Result<[Fraction; 4], TransformColorError>)
        ensures
            match simple_of(self@) {
                Some(c) => r matches Ok(f) && (f[0], f[1], f[2], f[3]) == hsla_of(c) && in_unit(
                    f[0],
                ) && in_unit(f[1]) && in_unit(f[2]) && in_unit(f[3]),
                None => r matches Err(TransformColorError::NonEligibleColor(given)) && given@
                    == self@,
            },
    {
        match self.to_simple() {
            Err(e) => Err(e),
            Ok(SimpleColor::Rgba(r, g, b, a)) => {
                let hsl = rgb_to_hsl(r, g, b);
                Ok([hsl[0], hsl[1], hsl[2], Fraction { num: a as i64, den: 255 }])
            },
            Ok(SimpleColor::Hsla(h, s, l, a)) => Ok(
                [
                    Fraction { num: h as i64, den: 360 },
                    Fraction { num: s as i64, den: 100 },
                    Fraction { num: l as i64, den: 100 },
                    Fraction { num: a as i64, den: 100 },
                ],
            ),
        }
    }

    /// The colour in `Hsla` notation, with hue in whole degrees and the
    /// others in whole percent.
    pub fn to_hsla_color(&self) -> (r: Result<Color, TransformColorError>)
        ensures
            match simple_of(self@) {
                Some(c) => r matches Ok(found) && found@ == hsla_color_of(
                    hsla_of(c).0,
                    hsla_of(c).1,
                    hsla_of(c).2,
                    hsla_of(c).3,
                ),
                None => r matches Err(TransformColorError::NonEligibleColor(given)) && given@
                    == self@,
            },
    {
        match self.to_hsla() {
            Err(e) => Err(e),
            Ok(f) => Ok(nearest_hsla(f[0], f[1], f[2], f[3])),
        }
    }

    /// Red, green, blue and opacity of the colour, each from 0 to 255.
    pub fn to_rgba(&self) -> (r: Result<[u8; 4], TransformColorError>)
        ensures
            match simple_of(self@) {
                Some(c) => r matches Ok(v) && (v[0], v[1], v[2], v[3]) == rgba_of(c),
                None => r matches Err(TransformColorError::NonEligibleColor(given)) && given@
                    == self@,
            },
    {
        match self.to_simple() {
            Err(e) => Err(e),
            Ok(SimpleColor::Rgba(r, g, b, a)) => Ok([r, g, b, a]),
            Ok(SimpleColor::Hsla(h, s, l, a)) => {
                let rgb = hsl_to_rgb(
                    Fraction { num: h as i64, den: 360 },
                    Fraction { num: s as i64, den: 100 },
                    Fraction { num: l as i64, den: 100 },
                );
                let scaled: u32 = 255 * (a as u32);
                let opacity: u8 = if scaled == 0 {
                    0
                } else if scaled / 100 > 255 {
                    255
                } else {
                    (scaled / 100) as u8
                };
                Ok([rgb[0], rgb[1], rgb[2], opacity])
            },
        }
    }

    /// The colour in `Rgba` notation.
    pub fn to_rgba_color(&self) -> (r: Result<Color, TransformColorError>)
        ensures
            match simple_of(self@) {
                Some(c) => r matches Ok(found) && found@ == (ColorModel::Rgba {
                    r: rgba_of(c).0,
                    g: rgba_of(c).1,
                    b: rgba_of(c).2,
                    a: rgba_of(c).3,
                }),
                None => r matches Err(TransformColorError::NonEligibleColor(given)) && given@
                    == self@,
            },
    {
        match self.to_rgba() {
            Err(e) => Err(e),
            Ok(v) => Ok(Color::Rgba { r: v[0], g: v[1], b: v[2], a: v[3] }),
        }
    }
}

/// The `Hsla` colour nearest to the given fractions.
pub fn nearest_hsla(h: Fraction, s: Fraction, l: Fraction, a: Fraction) -> (c: Color)
    requires
        h.den > 0,
        s.den > 0,
        l.den > 0,
        a.den > 0,
    ensures
        c@ == hsla_color_of(h, s, l, a),
{
    let hn: i128 = h.num as i128;
    let sn: i128 = s.num as i128;
    let ln: i128 = l.num as i128;
    let an: i128 = a.num as i128;
    Color::Hsla {
        h: round_to(360 * hn, h.den as i128, 0xFFFF),
        s: round_to(100 * sn, s.den as i128, 255) as u8,
        l: round_to(100 * ln, l.den as i128, 255) as u8,
        a: round_to(100 * an, a.den as i128, 255) as u8,
    }
}

/// The channel at the position `u` on a colour wheel of six sectors of the
/// width `d`, between the levels `lo` and `lo + d`: it rises through the
/// first sector, stays up through the next two, falls through the fourth and
/// stays down through the last two.
pub open spec fn wheel_channel(lo: int, d: int, u: int) -> int {
    if u < d {
        lo + u
    } else if u < 3 * d {
        lo + d
    } else if u < 4 * d {
        lo + 4 * d - u
    } else {
        lo
    }
}

/// A position on the wheel brought into the range of one turn.
pub open spec fn wheel_position(d: int, u: int) -> int {
    let u1 = if u < 0 {
        u + 6 * d
    } else {
        u
    };
    if u1 > 6 * d {
        u1 - 6 * d
    } else {
        u1
    }
}

/// Where the two levels are `lo / 255` and `(lo + d) / 255`, the channel at
/// the hue position `u / (6 * d)` is the channel of the wheel divided by
/// 255.
pub proof fn lemma_hue_channel_on_wheel(p: int, q: int, scale: int, lo: int, d: int, u: int)
    requires
        d > 0,
        scale > 0,
        255 * p == lo * scale,
        255 * q == (lo + d) * scale,
    ensures
        255 * hue_channel(p, q, 3 * u, 18 * d) == wheel_channel(lo, d, wheel_position(d, u)) * (
        scale * (18 * d)),
{
    let td = 18 * d;
    let t = 3 * u;
    let u2 = wheel_position(d, u);
    let t1 = if t < 0 {
        t + td
    } else {
        t
    };
    let t2 = if t1 > td {
        t1 - td
    } else {
        t1
    };
    assert(t2 == 3 * u2);
    assert(255 * (q - p) == d * scale) by (nonlinear_arith)
        requires
            255 * p == lo * scale,
            255 * q == (lo + d) * scale,
    ;
    if 6 * t2 < td {
        assert(u2 < d);
        assert(255 * (p * td + (q - p) * 6 * t2) == (lo + u2) * (scale * (18 * d)))
            by (nonlinear_arith)
            requires
                255 * p == lo * scale,
                255 * (q - p) == d * scale,
                td == 18 * d,
                t2 == 3 * u2,
        ;
    } else if 2 * t2 < td {
        assert(255 * (q * td) == (lo + d) * (scale * (18 * d))) by (nonlinear_arith)
            requires
                255 * q == (lo + d) * scale,
                td == 18 * d,
        ;
    } else if 3 * t2 < 2 * td {
        assert(255 * (p * td + (q - p) * (4 * td - 6 * t2)) == (lo + 4 * d - u2) * (scale * (18
            * d))) by (nonlinear_arith)
            requires
                255 * p == lo * scale,
                255 * (q - p) == d * scale,
                td == 18 * d,
                t2 == 3 * u2,
        ;
    } else {
        assert(255 * (p * td) == lo * (scale * (18 * d))) by (nonlinear_arith)
            requires
                255 * p == lo * scale,
                td == 18 * d,
        ;
    }
}

/// A whole number of parts, divided by the size of a part and rounded, is
/// that number.
pub proof fn lemma_round_of_multiple(c: int, x: int)
    requires
        0 <= c <= 255,
        x > 0,
    ensures
        round_clamped(c * x, x, 255) == c,
{
    if c == 0 {
        assert(c * x == 0) by (nonlinear_arith)
            requires
                c == 0,
        ;
    } else {
        assert(c * x > 0) by (nonlinear_arith)
            requires
                c > 0,
                x > 0,
        ;
        assert((2 * (c * x) + x) / (2 * x) == c) by (nonlinear_arith)
            requires
                x > 0,
                c >= 0,
        ;
    }
}

/// The two levels between which the channels of a colour lie are its least
/// and its greatest part, divided by 255.
pub proof fn lemma_levels(hi: int, lo: int)
    requires
        0 <= lo < hi <= 255,
    ensures
        ({
            let d = hi - lo;
            let l = Fraction { num: (hi + lo) as i64, den: 510 };
            let s = if hi + lo > 255 {
                Fraction { num: d as i64, den: (510 - hi - lo) as u32 }
            } else {
                Fraction { num: d as i64, den: (hi + lo) as u32 }
            };
            &&& s.den * l.den > 0
            &&& 255 * lower_level(s, l) == lo * (s.den * l.den)
            &&& 255 * upper_level(s, l) == hi * (s.den * l.den)
        }),
{
    let d = hi - lo;
    let sum = hi + lo;
    if sum > 255 {
        let sd = 510 - sum;
        assert(255 * (sum * sd + d * 510 - sum * d) == hi * (sd * 510)) by (nonlinear_arith)
            requires
                sum == hi + lo,
                d == hi - lo,
                sd == 510 - sum,
        ;
        assert(255 * (2 * sum * sd - (sum * sd + d * 510 - sum * d)) == lo * (sd * 510))
            by (nonlinear_arith)
            requires
                sum == hi + lo,
                d == hi - lo,
                sd == 510 - sum,
        ;
        assert(sd * 510 > 0) by (nonlinear_arith)
            requires
                sd > 0,
        ;
    } else {
        assert(sum * 510 > 0) by (nonlinear_arith)
            requires
                sum > 0,
        ;
        if 2 * sum < 510 {
            assert(255 * (sum * (sum + d)) == hi * (sum * 510)) by (nonlinear_arith)
                requires
                    sum == hi + lo,
                    d == hi - lo,
            ;
            assert(255 * (2 * sum * sum - sum * (sum + d)) == lo * (sum * 510))
                by (nonlinear_arith)
                requires
                    sum == hi + lo,
                    d == hi - lo,
            ;
        } else {
            assert(255 * (sum * sum + d * 510 - sum * d) == hi * (sum * 510)) by (nonlinear_arith)
                requires
                    sum == hi + lo,
                    d == hi - lo,
                    sum == 255,
            ;
            assert(255 * (2 * sum * sum - (sum * sum + d * 510 - sum * d)) == lo * (sum * 510))
                by (nonlinear_arith)
                requires
                    sum == hi + lo,
                    d == hi - lo,
                    sum == 255,
            ;
        }
    }
}

/// A colour given by red, green and blue, taken to hue, saturation and
/// lightness and back, is the colour that it was: the two conversions are
/// exact inverses in this direction.
pub proof fn lemma_rgb_hsl_round_trip(r: u8, g: u8, b: u8)
    ensures
        in_unit(rgb_to_hsl_spec(r, g, b).0),
        in_unit(rgb_to_hsl_spec(r, g, b).1),
        in_unit(rgb_to_hsl_spec(r, g, b).2),
        hsl_to_rgb_spec(
            rgb_to_hsl_spec(r, g, b).0,
            rgb_to_hsl_spec(r, g, b).1,
            rgb_to_hsl_spec(r, g, b).2,
        ) == (r, g, b),
{
    let hi = max3(r as int, g as int, b as int);
    let lo = min3(r as int, g as int, b as int);
    let d = hi - lo;
    let (h, s, l) = rgb_to_hsl_spec(r, g, b);
    if d == 0 {
        assert(255 * l.num == hi * 510);
        lemma_round_of_multiple(hi, 510);
    } else {
        lemma_levels(hi, lo);
        let scale = s.den * l.den;
        let p = lower_level(s, l);
        let q = upper_level(s, l);
        let hn = h.num as int;
        assert(h.den == 6 * d);
        assert(0 <= hn < 6 * d);
        let x = scale * (18 * d);
        assert(x > 0) by (nonlinear_arith)
            requires
                scale > 0,
                d > 0,
                x == scale * (18 * d),
        ;
        lemma_hue_channel_on_wheel(p, q, scale, lo, d, hn + 2 * d);
        lemma_hue_channel_on_wheel(p, q, scale, lo, d, hn);
        lemma_hue_channel_on_wheel(p, q, scale, lo, d, hn - 2 * d);
        assert(3 * h.num + h.den == 3 * (hn + 2 * d));
        assert(3 * h.num - h.den == 3 * (hn - 2 * d));
        assert(3 * h.den == 18 * d);
        assert(wheel_channel(lo, d, wheel_position(d, hn + 2 * d)) == r);
        assert(wheel_channel(lo, d, wheel_position(d, hn)) == g);
        assert(wheel_channel(lo, d, wheel_position(d, hn - 2 * d)) == b);
        lemma_round_of_multiple(r as int, x);
        lemma_round_of_multiple(g as int, x);
        lemma_round_of_multiple(b as int, x);
        assert(s.den * l.den * (3 * h.den) == x) by (nonlinear_arith)
            requires
                x == scale * (18 * d),
                scale == s.den * l.den,
                3 * h.den == 18 * d,
        ;
    }
}

/// The two levels between which the channels of a colour lie are in order,
/// and neither is less than zero or more than one.
pub proof fn lemma_levels_in_order(s: Fraction, l: Fraction)
    requires
        in_unit(s),
        in_unit(l),
    ensures
        0 <= lower_level(s, l) <= upper_level(s, l) <= s.den * l.den,
        lower_level(s, l) + upper_level(s, l) == 2 * l.num * s.den,
{
    let (sn, sd, ln, ld) = (s.num as int, s.den as int, l.num as int, l.den as int);
    if 2 * ln < ld {
        assert(ln * (sd + sn) == ln * sd + ln * sn) by (nonlinear_arith);
        assert(0 <= ln * sn <= ln * sd) by (nonlinear_arith)
            requires
                0 <= sn <= sd,
                0 <= ln,
        ;
        assert(2 * (ln * sd) <= ld * sd) by (nonlinear_arith)
            requires
                2 * ln < ld,
                sd > 0,
        ;
        assert(2 * ln * sd == 2 * (ln * sd)) by (nonlinear_arith);
        assert(sd * ld == ld * sd) by (nonlinear_arith);
    } else {
        let rest = ld - ln;
        assert(0 <= sn * rest <= sd * rest) by (nonlinear_arith)
            requires
                0 <= sn <= sd,
                0 <= rest,
        ;
        assert(sn * rest <= sd * ln) by (nonlinear_arith)
            requires
                0 <= sn <= sd,
                0 <= rest <= ln,
        ;
        assert(sn * rest == sn * ld - ln * sn) by (nonlinear_arith)
            requires
                rest == ld - ln,
        ;
        assert(sd * rest == sd * ld - ln * sd) by (nonlinear_arith)
            requires
                rest == ld - ln,
        ;
        assert(sd * ln == ln * sd) by (nonlinear_arith);
        assert(2 * ln * sd == 2 * (ln * sd)) by (nonlinear_arith);
    }
}

/// Every channel lies between the two levels.
pub proof fn lemma_channel_between(p: int, q: int, t: int, td: int)
    requires
        p <= q,
        td > 0,
        -td <= t <= 2 * td,
    ensures
        p * td <= hue_channel(p, q, t, td) <= q * td,
{
    let t1 = if t < 0 {
        t + td
    } else {
        t
    };
    let t2 = if t1 > td {
        t1 - td
    } else {
        t1
    };
    let c = q - p;
    assert(q * td == p * td + c * td) by (nonlinear_arith)
        requires
            c == q - p,
    ;
    if 6 * t2 < td {
        assert(0 <= c * 6 * t2 <= c * td) by (nonlinear_arith)
            requires
                0 <= c,
                0 <= 6 * t2 < td,
        ;
    } else if 2 * t2 < td {
    } else if 3 * t2 < 2 * td {
        let w = 4 * td - 6 * t2;
        assert(0 <= c * w <= c * td) by (nonlinear_arith)
            requires
                0 <= c,
                0 <= w <= td,
        ;
    } else {
        assert(0 <= c * td) by (nonlinear_arith)
            requires
                0 <= c,
                td > 0,
        ;
    }
}

/// Of the three channels, a third of the wheel apart, the greatest is the
/// upper level and the least is the lower level.
pub proof fn lemma_levels_are_reached(p: int, q: int, hn: int, hd: int)
    requires
        p <= q,
        hd > 0,
        0 <= hn <= hd,
    ensures
        max3(
            hue_channel(p, q, 3 * hn + hd, 3 * hd),
            hue_channel(p, q, 3 * hn, 3 * hd),
            hue_channel(p, q, 3 * hn - hd, 3 * hd),
        ) == q * (3 * hd),
        min3(
            hue_channel(p, q, 3 * hn + hd, 3 * hd),
            hue_channel(p, q, 3 * hn, 3 * hd),
            hue_channel(p, q, 3 * hn - hd, 3 * hd),
        ) == p * (3 * hd),
{
    let td = 3 * hd;
    lemma_channel_between(p, q, 3 * hn + hd, td);
    lemma_channel_between(p, q, 3 * hn, td);
    lemma_channel_between(p, q, 3 * hn - hd, td);
    let red = hue_channel(p, q, 3 * hn + hd, td);
    let green = hue_channel(p, q, 3 * hn, td);
    let blue = hue_channel(p, q, 3 * hn - hd, td);
    if 6 * hn < hd {
        assert(red == q * td);
    } else if 2 * hn < hd {
        assert(green == q * td);
    } else if 6 * hn < 5 * hd {
        assert(blue == q * td);
    } else {
        assert(red == q * td);
    }
    if 3 * hn < hd {
        assert(blue == p * td);
    } else if 3 * hn <= 2 * hd {
        assert(red == p * td);
    } else {
        assert(green == p * td);
    }
}

/// Rounding keeps the order of what is rounded.
pub proof fn lemma_round_keeps_order(a: int, b: int, x: int)
    requires
        a <= b,
        x > 0,
    ensures
        0 <= round_clamped(a, x, 255) <= round_clamped(b, x, 255) <= 255,
{
    vstd::arithmetic::div_mod::lemma_div_is_ordered(2 * a + x, 2 * b + x, 2 * x);
    if a > 0 {
        vstd::arithmetic::div_mod::lemma_div_is_ordered(0, 2 * a + x, 2 * x);
    }
    if b > 0 {
        vstd::arithmetic::div_mod::lemma_div_is_ordered(0, 2 * b + x, 2 * x);
    }
    assert(0int / (2 * x) == 0) by (nonlinear_arith)
        requires
            x > 0,
    ;
}

/// A number of parts from none to 255, rounded to a whole number, is off
/// by half a part at most.
pub proof fn lemma_round_is_near(n: int, x: int)
    requires
        x > 0,
        0 <= n <= 255 * x,
    ensures
        0 <= round_clamped(n, x, 255) <= 255,
        -x <= 2 * (round_clamped(n, x, 255) * x) - 2 * n <= x,
{
    if n > 0 {
        let k = (2 * n + x) / (2 * x);
        assert(k * (2 * x) <= 2 * n + x < (k + 1) * (2 * x) && 0 <= k <= 255)
            by (nonlinear_arith)
            requires
                k == (2 * n + x) / (2 * x),
                x > 0,
                0 < n <= 255 * x,
        ;
        assert(k * (2 * x) == 2 * (k * x)) by (nonlinear_arith);
        assert((k + 1) * (2 * x) == 2 * (k * x) + 2 * x) by (nonlinear_arith);
    } else {
        assert(0 * x == 0) by (nonlinear_arith);
    }
}

/// The greatest and the least of red, green and blue of a colour given by
/// hue, saturation and lightness are its two levels, times 255 and rounded.
pub proof fn lemma_rounded_levels(h: Fraction, s: Fraction, l: Fraction)
    requires
        in_unit(h),
        in_unit(s),
        in_unit(l),
        s.num != 0,
    ensures
        ({
            let (r, g, b) = hsl_to_rgb_spec(h, s, l);
            let x = s.den * l.den * (3 * h.den);
            &&& x > 0
            &&& max3(r as int, g as int, b as int) == round_clamped(
                255 * (upper_level(s, l) * (3 * h.den)),
                x,
                255,
            )
            &&& min3(r as int, g as int, b as int) == round_clamped(
                255 * (lower_level(s, l) * (3 * h.den)),
                x,
                255,
            )
        }),
{
    let d = s.den * l.den;
    let td = 3 * h.den;
    let x = d * td;
    let p = lower_level(s, l);
    let q = upper_level(s, l);
    let (hn, hd) = (h.num as int, h.den as int);
    lemma_levels_in_order(s, l);
    assert(d > 0 && x > 0) by (nonlinear_arith)
        requires
            d == s.den * l.den,
            x == d * td,
            s.den > 0,
            l.den > 0,
            td > 0,
    ;
    lemma_levels_are_reached(p, q, hn, hd);
    lemma_channel_between(p, q, 3 * hn + hd, td);
    lemma_channel_between(p, q, 3 * hn, td);
    lemma_channel_between(p, q, 3 * hn - hd, td);
    let vr = hue_channel(p, q, 3 * hn + hd, td);
    let vg = hue_channel(p, q, 3 * hn, td);
    let vb = hue_channel(p, q, 3 * hn - hd, td);
    lemma_round_keeps_order(255 * (p * td), 255 * vr, x);
    lemma_round_keeps_order(255 * (p * td), 255 * vg, x);
    lemma_round_keeps_order(255 * (p * td), 255 * vb, x);
    lemma_round_keeps_order(255 * vr, 255 * (q * td), x);
    lemma_round_keeps_order(255 * vg, 255 * (q * td), x);
    lemma_round_keeps_order(255 * vb, 255 * (q * td), x);
}

/// The lightness of a colour survives the way to red, green and blue and
/// back, but for what is lost when red, green and blue are rounded to whole
/// numbers: the lightness that comes back differs from the lightness given
/// by no more than one part in 510.
pub proof fn lemma_lightness_survives(h: Fraction, s: Fraction, l: Fraction)
    requires
        in_unit(h),
        in_unit(s),
        in_unit(l),
    ensures
        ({
            let (r, g, b) = hsl_to_rgb_spec(h, s, l);
            let back = rgb_to_hsl_spec(r, g, b).2;
            &&& back.den == 510
            &&& -l.den <= back.num * l.den - l.num * back.den <= l.den
        }),
{
    let (r, g, b) = hsl_to_rgb_spec(h, s, l);
    let hi = max3(r as int, g as int, b as int);
    let lo = min3(r as int, g as int, b as int);
    let (ln, ld) = (l.num as int, l.den as int);
    if s.num == 0 {
        lemma_round_is_near(255 * ln, ld);
        let v = round_clamped(255 * ln, ld, 255);
        assert(hi == v && lo == v);
        assert((v + v) * ld == 2 * (v * ld)) by (nonlinear_arith);
    } else {
        lemma_rounded_levels(h, s, l);
        lemma_levels_in_order(s, l);
        let td = 3 * h.den;
        let w = s.den * td;
        let x = s.den * l.den * td;
        let p = lower_level(s, l);
        let q = upper_level(s, l);
        assert(w > 0) by (nonlinear_arith)
            requires
                w == s.den * td,
                s.den > 0,
                td > 0,
        ;
        assert(x == ld * w) by (nonlinear_arith)
            requires
                x == s.den * l.den * td,
                w == s.den * td,
                ld == l.den,
        ;
        assert(0 <= 255 * (p * td) <= 255 * x && 0 <= 255 * (q * td) <= 255 * x)
            by (nonlinear_arith)
            requires
                0 <= p <= q <= s.den * l.den,
                td > 0,
                x == s.den * l.den * td,
        ;
        lemma_round_is_near(255 * (q * td), x);
        lemma_round_is_near(255 * (p * td), x);
        let sum = hi + lo;
        assert(255 * (p * td) + 255 * (q * td) == 510 * ln * w) by (nonlinear_arith)
            requires
                p + q == 2 * ln * s.den,
                w == s.den * td,
        ;
        assert(2 * (hi * x) + 2 * (lo * x) == 2 * (sum * ld) * w) by (nonlinear_arith)
            requires
                sum == hi + lo,
                x == ld * w,
        ;
        let y = sum * ld - 510 * ln;
        assert(2 * (sum * ld) * w - 2 * (510 * ln * w) == 2 * y * w) by (nonlinear_arith)
            requires
                y == sum * ld - 510 * ln,
        ;
        assert(-(2 * ld * w) <= 2 * y * w <= 2 * ld * w) by (nonlinear_arith)
            requires
                -x <= 2 * (hi * x) - 2 * (255 * (q * td)) <= x,
                -x <= 2 * (lo * x) - 2 * (255 * (p * td)) <= x,
                2 * (hi * x) + 2 * (lo * x) == 2 * (sum * ld) * w,
                255 * (p * td) + 255 * (q * td) == 510 * ln * w,
                2 * (sum * ld) * w - 2 * (510 * ln * w) == 2 * y * w,
                x == ld * w,
        ;
        assert(-ld <= y <= ld) by (nonlinear_arith)
            requires
                -(2 * ld * w) <= 2 * y * w <= 2 * ld * w,
                w > 0,
        ;
    }
}

/// The saturation of a colour whose lightness lies between a quarter and
/// three quarters survives the way to red, green and blue and back, but for
/// what is lost when red, green and blue are rounded to whole numbers: the
/// saturation that comes back differs from the saturation given by no more
/// than one part in fifty.
pub proof fn lemma_saturation_survives(h: Fraction, s: Fraction, l: Fraction)
    requires
        in_unit(h),
        in_unit(s),
        in_unit(l),
        l.den <= 4 * l.num,
        4 * l.num <= 3 * l.den,
    ensures
        ({
            let (r, g, b) = hsl_to_rgb_spec(h, s, l);
            let back = rgb_to_hsl_spec(r, g, b).1;
            &&& back.den > 0
            &&& -(back.den * s.den) <= 50 * (back.num * s.den - s.num * back.den) <= back.den
                * s.den
        }),
{
    let (r, g, b) = hsl_to_rgb_spec(h, s, l);
    let back = rgb_to_hsl_spec(r, g, b).1;
    let hi = max3(r as int, g as int, b as int);
    let lo = min3(r as int, g as int, b as int);
    let (sn, sd, ln, ld) = (s.num as int, s.den as int, l.num as int, l.den as int);
    if s.num == 0 {
        assert(hi == lo);
        assert(back.num == 0 && back.den == 1);
        assert(0 * sd == 0) by (nonlinear_arith);
        assert(sn * 1 == 0) by (nonlinear_arith)
            requires
                sn == 0,
        ;
        assert(1 * sd == sd) by (nonlinear_arith);
    } else {
        lemma_rounded_levels(h, s, l);
        lemma_levels_in_order(s, l);
        let td = 3 * h.den;
        let w = sd * td;
        let x = s.den * l.den * td;
        let p = lower_level(s, l);
        let q = upper_level(s, l);
        assert(w > 0) by (nonlinear_arith)
            requires
                w == sd * td,
                sd > 0,
                td > 0,
        ;
        assert(x == ld * w && x > 0) by (nonlinear_arith)
            requires
                x == s.den * l.den * td,
                w == sd * td,
                sd == s.den,
                ld == l.den,
                ld > 0,
                w > 0,
        ;
        assert(0 <= 255 * (p * td) <= 255 * x && 0 <= 255 * (q * td) <= 255 * x)
            by (nonlinear_arith)
            requires
                0 <= p <= q <= s.den * l.den,
                td > 0,
                x == s.den * l.den * td,
        ;
        lemma_round_is_near(255 * (q * td), x);
        lemma_round_is_near(255 * (p * td), x);
        let d2 = hi - lo;
        let n = hi + lo;
        let m = if n > 255 {
            510 - n
        } else {
            n
        };
        // twice the chroma and twice the sum of the levels, in parts of 1/255
        let a2 = 2 * (255 * (q * td)) - 2 * (255 * (p * td));
        let n2 = 2 * (255 * (q * td)) + 2 * (255 * (p * td));
        assert(2 * (d2 * x) == 2 * (hi * x) - 2 * (lo * x) && 2 * (n * x) == 2 * (hi * x) + 2 * (
        lo * x)) by (nonlinear_arith)
            requires
                d2 == hi - lo,
                n == hi + lo,
        ;
        assert(-(2 * x) <= 2 * (d2 * x) - a2 <= 2 * x);
        assert(-(2 * x) <= 2 * (n * x) - n2 <= 2 * x);
        assert(n2 == 1020 * (ln * w)) by (nonlinear_arith)
            requires
                n2 == 2 * (255 * (q * td)) + 2 * (255 * (p * td)),
                p + q == 2 * ln * sd,
                w == sd * td,
        ;
        assert(255 * x <= n2 <= 765 * x) by (nonlinear_arith)
            requires
                n2 == 1020 * (ln * w),
                x == ld * w,
                ld <= 4 * ln,
                4 * ln <= 3 * ld,
                w > 0,
        ;
        assert(127 <= n <= 383) by (nonlinear_arith)
            requires
                -(2 * x) <= 2 * (n * x) - n2 <= 2 * x,
                255 * x <= n2 <= 765 * x,
                x > 0,
        ;
        assert(127 <= m <= 255);
        // the lightness that the saturation is taken of, in the same parts
        let m2 = if 2 * ln < ld {
            n2
        } else {
            1020 * x - n2
        };
        assert(sd * a2 == sn * m2) by {
            if 2 * ln < ld {
                assert(q - p == 2 * (ln * sn)) by (nonlinear_arith)
                    requires
                        q == ln * (sd + sn),
                        p == 2 * ln * sd - q,
                ;
                assert(sd * a2 == sn * n2) by (nonlinear_arith)
                    requires
                        a2 == 2 * (255 * (q * td)) - 2 * (255 * (p * td)),
                        n2 == 1020 * (ln * w),
                        w == sd * td,
                        q - p == 2 * (ln * sn),
                ;
            } else {
                assert(q - p == 2 * (sn * (ld - ln))) by (nonlinear_arith)
                    requires
                        q == ln * sd + sn * ld - ln * sn,
                        p == 2 * ln * sd - q,
                ;
                assert(sd * a2 == sn * (1020 * x - n2)) by (nonlinear_arith)
                    requires
                        a2 == 2 * (255 * (q * td)) - 2 * (255 * (p * td)),
                        n2 == 1020 * (ln * w),
                        x == ld * w,
                        w == sd * td,
                        q - p == 2 * (sn * (ld - ln)),
                ;
            }
        }
        assert(2 * ln < ld <==> n2 < 510 * x) by (nonlinear_arith)
            requires
                n2 == 1020 * (ln * w),
                x == ld * w,
                w > 0,
        ;
        assert(2 * (m * x) == if n > 255 {
            1020 * x - 2 * (n * x)
        } else {
            2 * (n * x)
        }) by (nonlinear_arith)
            requires
                m == if n > 255 {
                    510 - n
                } else {
                    n
                },
        ;
        assert(n > 255 ==> 2 * (n * x) >= 512 * x) by (nonlinear_arith)
            requires
                x > 0,
        ;
        assert(n <= 255 ==> 2 * (n * x) <= 510 * x) by (nonlinear_arith)
            requires
                x > 0,
        ;
        assert(-(2 * x) <= m2 - 2 * (m * x) <= 2 * x);
        // the error of the saturation, in parts of x
        let e = d2 * sd - sn * m;
        assert(2 * (e * x) == sd * (2 * (d2 * x) - a2) + sn * (m2 - 2 * (m * x)))
            by (nonlinear_arith)
            requires
                e == d2 * sd - sn * m,
                sd * a2 == sn * m2,
        ;
        assert(-(2 * ((sd + sn) * x)) <= 2 * (e * x) <= 2 * ((sd + sn) * x)) by (nonlinear_arith)
            requires
                2 * (e * x) == sd * (2 * (d2 * x) - a2) + sn * (m2 - 2 * (m * x)),
                -(2 * x) <= 2 * (d2 * x) - a2 <= 2 * x,
                -(2 * x) <= m2 - 2 * (m * x) <= 2 * x,
                sd > 0,
                sn >= 0,
        ;
        assert(-(sd + sn) <= e <= sd + sn) by (nonlinear_arith)
            requires
                -(2 * ((sd + sn) * x)) <= 2 * (e * x) <= 2 * ((sd + sn) * x),
                x > 0,
        ;
        if d2 == 0 {
            assert(back.num == 0 && back.den == 1);
            assert(d2 * sd == 0) by (nonlinear_arith)
                requires
                    d2 == 0,
            ;
            assert(126 * sn <= sn * (m - 1)) by (nonlinear_arith)
                requires
                    m >= 127,
                    sn >= 0,
            ;
            assert(sn * (m - 1) == sn * m - sn) by (nonlinear_arith);
            assert(0 * sd == 0 && sn * 1 == sn && 1 * sd == sd) by (nonlinear_arith);
        } else {
            assert(back.num == d2 && back.den == m);
            assert(100 * sd <= m * sd) by (nonlinear_arith)
                requires
                    m >= 127,
                    sd > 0,
            ;
        }
    }
}

/// How far a channel has risen from the lower level towards the upper one
/// at the hue position `t / td`, in parts of `td`: the channel is the lower
/// level plus this share of the way.
pub open spec fn wheel_rise(t: int, td: int) -> int {
    let t1 = if t < 0 {
        t + td
    } else {
        t
    };
    let t2 = if t1 > td {
        t1 - td
    } else {
        t1
    };
    if 6 * t2 < td {
        6 * t2
    } else if 2 * t2 < td {
        td
    } else if 3 * t2 < 2 * td {
        4 * td - 6 * t2
    } else {
        0
    }
}

/// A channel is the lower level plus its rise towards the upper level.
pub proof fn lemma_channel_rises(p: int, q: int, t: int, td: int)
    ensures
        hue_channel(p, q, t, td) == p * td + (q - p) * wheel_rise(t, td),
{
    let w = wheel_rise(t, td);
    let c = q - p;
    assert(q * td == p * td + c * td) by (nonlinear_arith)
        requires
            c == q - p,
    ;
    assert(c * 0 == 0) by (nonlinear_arith);
    let t1 = if t < 0 {
        t + td
    } else {
        t
    };
    let t2 = if t1 > td {
        t1 - td
    } else {
        t1
    };
    assert(c * 6 * t2 == c * (6 * t2)) by (nonlinear_arith);
}

/// Where the channel of one colour is all but at the upper level, the other
/// two channels tell the hue, but for as much as that channel is short of
/// the upper level.
pub proof fn lemma_wheel_tells_hue(hn: int, hd: int)
    requires
        hd > 0,
        0 <= hn <= hd,
    ensures
        ({
            let td = 3 * hd;
            let wr = wheel_rise(3 * hn + hd, td);
            let wg = wheel_rise(3 * hn, td);
            let wb = wheel_rise(3 * hn - hd, td);
            let turn = if 2 * hn <= hd {
                0int
            } else {
                18 * hd
            };
            &&& 0 <= wr <= td && 0 <= wg <= td && 0 <= wb <= td
            &&& wr == td || wg == td || wb == td
            &&& 2 * (td - wr) <= hd ==> -(td - wr) <= wg - wb - 18 * hn + turn <= td - wr
            &&& 2 * (td - wg) <= hd ==> -(td - wg) <= wb - wr + 2 * td - 18 * hn <= td - wg
            &&& 2 * (td - wb) <= hd ==> -(td - wb) <= wr - wg + 4 * td - 18 * hn <= td - wb
        }),
{
}

/// The algebra of the error of a hue that is read off rounded channels.
///
/// `a` and `b` are the two rounded channels that the hue is read off, `d2`
/// is the rounded chroma, `o` is the sixth of the wheel that the reading
/// starts at, and `jp` is the number of whole turns between the reading and
/// the hue. `k` is the true chroma in parts of `x / td`, `wa` and `wb` are
/// the rises of the two channels, and `err` and `eps` are what rounding
/// added.
pub proof fn lemma_hue_error(
    k: int,
    x: int,
    hn: int,
    hd: int,
    wa: int,
    wb: int,
    err: int,
    eps: int,
    a: int,
    b: int,
    d2: int,
    o: int,
    jp: int,
    tau: int,
)
    requires
        k >= 0,
        x > 0,
        hd > 0,
        (a - b) * x == k * (wa - wb) + err,
        d2 * x == k * (3 * hd) + eps,
        -x <= err <= x,
        -x <= eps <= x,
        wa - wb + 3 * (o * hd) == 18 * hn + 18 * (hd * jp) + tau,
        -x <= k * tau <= x,
        -(3 * hd) <= wa - wb <= 3 * hd,
        -(3 * hd) <= 31 * tau <= 3 * hd,
        d2 >= 26,
    ensures
        -(6 * (d2 * hd)) <= 50 * ((a - b + o * d2) * hd - 6 * (d2 * hn) - 6 * (d2 * (hd * jp)))
            <= 6 * (d2 * hd),
{
    let e = (a - b + o * d2) * hd - 6 * (d2 * hn) - 6 * (d2 * (hd * jp));
    let lam = o * hd - 6 * hn - 6 * (hd * jp);
    let ax = (a - b) * x;
    let dx = d2 * x;
    assert(3 * lam == tau - (wa - wb));
    let m = a - b;
    let od = o * d2;
    let oh = o * hd;
    let hj = hd * jp;
    assert((m + od) * hd == m * hd + od * hd) by (nonlinear_arith);
    assert(od * hd == d2 * oh) by (nonlinear_arith)
        requires
            od == o * d2,
            oh == o * hd,
    ;
    assert(d2 * (oh - 6 * hn - 6 * hj) == d2 * oh - 6 * (d2 * hn) - 6 * (d2 * hj))
        by (nonlinear_arith);
    let first = m * hd;
    let second = d2 * lam;
    assert(e == first + second);
    assert((first + second) * x == first * x + second * x) by (nonlinear_arith);
    assert(first * x == hd * ax) by (nonlinear_arith)
        requires
            first == m * hd,
            ax == m * x,
    ;
    assert(second * x == lam * dx) by (nonlinear_arith)
        requires
            second == d2 * lam,
            dx == d2 * x,
    ;
    assert(e * x == hd * ax + lam * dx);
    assert(hd * ax == hd * (k * (wa - wb)) + hd * err) by (nonlinear_arith)
        requires
            ax == k * (wa - wb) + err,
    ;
    assert(lam * dx == 3 * (hd * (k * lam)) + eps * lam) by (nonlinear_arith)
        requires
            dx == k * (3 * hd) + eps,
    ;
    assert(k * (wa - wb) + 3 * (k * lam) == k * tau) by (nonlinear_arith)
        requires
            3 * lam == tau - (wa - wb),
    ;
    let kw = k * (wa - wb);
    let kl = k * lam;
    let kt = k * tau;
    assert(hd * kw + 3 * (hd * kl) == hd * kt) by (nonlinear_arith)
        requires
            kw + 3 * kl == kt,
    ;
    assert(e * x == hd * kt + hd * err + eps * lam);
    assert(-(hd * x) <= hd * kt <= hd * x) by (nonlinear_arith)
        requires
            hd > 0,
            -x <= kt <= x,
    ;
    assert(-(hd * x) <= hd * err <= hd * x) by (nonlinear_arith)
        requires
            hd > 0,
            -x <= err <= x,
    ;
    assert(-(96 * hd) <= 93 * lam <= 96 * hd);
    assert(-(96 * (hd * x)) <= 93 * (eps * lam) <= 96 * (hd * x)) by (nonlinear_arith)
        requires
            -(96 * hd) <= 93 * lam <= 96 * hd,
            -x <= eps <= x,
            x > 0,
            hd > 0,
    ;
    assert(-(282 * (hd * x)) <= 93 * (e * x) <= 282 * (hd * x));
    assert(-(282 * hd) <= 93 * e <= 282 * hd) by (nonlinear_arith)
        requires
            -(282 * (hd * x)) <= 93 * (e * x) <= 282 * (hd * x),
            x > 0,
    ;
    assert(156 * hd <= 6 * (d2 * hd)) by (nonlinear_arith)
        requires
            d2 >= 26,
            hd > 0,
    ;
}

/// A hue read off rounded channels is near the hue that the channels were
/// made of.
///
/// `top` is the greatest of the three rounded channels, and `a` and `b` are
/// the two that the hue is read off; `wt`, `wa` and `wb` are their rises,
/// `low` is the lower level, `et`, `ea` and `eb` are what rounding added.
/// The other names are those of `lemma_hue_error`.
pub proof fn lemma_hue_read_off(
    k: int,
    x: int,
    hn: int,
    hd: int,
    low: int,
    tops: (int, int, int),
    firsts: (int, int, int),
    seconds: (int, int, int),
    eps: int,
    d2: int,
    o: int,
    jp: int,
    tau: int,
)
    requires
        k >= 0,
        x > 0,
        hd > 0,
        tops.0 * x == low + k * tops.1 + tops.2,
        firsts.0 * x == low + k * firsts.1 + firsts.2,
        seconds.0 * x == low + k * seconds.1 + seconds.2,
        -x <= 2 * tops.2 <= x,
        -x <= 2 * firsts.2 <= x,
        -x <= 2 * seconds.2 <= x,
        tops.0 >= firsts.0,
        tops.0 >= seconds.0,
        0 <= tops.1 <= 3 * hd,
        0 <= firsts.1 <= 3 * hd,
        0 <= seconds.1 <= 3 * hd,
        tops.1 == 3 * hd || firsts.1 == 3 * hd || seconds.1 == 3 * hd,
        d2 * x == k * (3 * hd) + eps,
        -x <= eps <= x,
        255 * x <= 8 * (k * (3 * hd)),
        d2 >= 26,
        2 * (3 * hd - tops.1) <= hd ==> -(3 * hd - tops.1) <= tau <= 3 * hd - tops.1,
        firsts.1 - seconds.1 + 3 * (o * hd) == 18 * hn + 18 * (hd * jp) + tau,
    ensures
        -(6 * (d2 * hd)) <= 50 * ((firsts.0 - seconds.0 + o * d2) * hd - 6 * (d2 * hn) - 6 * (d2
            * (hd * jp))) <= 6 * (d2 * hd),
{
    let (top, wt, et) = tops;
    let (a, wa, ea) = firsts;
    let (b, wb, eb) = seconds;
    let short = 3 * hd - wt;
    assert((a - top) * x == k * (wa - wt) + (ea - et)) by (nonlinear_arith)
        requires
            top * x == low + k * wt + et,
            a * x == low + k * wa + ea,
    ;
    assert((b - top) * x == k * (wb - wt) + (eb - et)) by (nonlinear_arith)
        requires
            top * x == low + k * wt + et,
            b * x == low + k * wb + eb,
    ;
    assert((a - b) * x == k * (wa - wb) + (ea - eb)) by (nonlinear_arith)
        requires
            a * x == low + k * wa + ea,
            b * x == low + k * wb + eb,
    ;
    assert((a - top) * x <= 0 && (b - top) * x <= 0) by (nonlinear_arith)
        requires
            a <= top,
            b <= top,
            x > 0,
    ;
    assert(k * 0 == 0) by (nonlinear_arith);
    assert(k * short <= x);
    assert(255 * short <= 24 * hd) by (nonlinear_arith)
        requires
            k * short <= x,
            255 * x <= 8 * (k * (3 * hd)),
            x > 0,
            k >= 0,
    ;
    assert(-x <= k * tau <= x) by (nonlinear_arith)
        requires
            -short <= tau <= short,
            k * short <= x,
            k >= 0,
    ;
    lemma_hue_error(k, x, hn, hd, wa, wb, ea - eb, eps, a, b, d2, o, jp, tau);
}

/// Whether two hues are within one part in `parts` of each other on the
/// wheel, on which a whole turn brings a hue back to itself.
pub open spec fn hues_within(a: Fraction, b: Fraction, parts: int) -> bool {
    let whole = a.den * b.den;
    let apart = a.num * b.den - b.num * a.den;
    ||| -whole <= parts * apart <= whole
    ||| -whole <= parts * (apart + whole) <= whole
    ||| -whole <= parts * (apart - whole) <= whole
}

/// The hue of a colour whose saturation is a quarter at least, and whose
/// lightness lies between a quarter and three quarters, survives the way to
/// red, green and blue and back, but for what is lost when red, green and
/// blue are rounded to whole numbers: the hue that comes back is within one
/// part in fifty of the hue given, on the wheel.
pub proof fn lemma_hue_survives(h: Fraction, s: Fraction, l: Fraction)
    requires
        in_unit(h),
        in_unit(s),
        in_unit(l),
        s.den <= 4 * s.num,
        l.den <= 4 * l.num,
        4 * l.num <= 3 * l.den,
    ensures
        ({
            let (r, g, b) = hsl_to_rgb_spec(h, s, l);
            let back = rgb_to_hsl_spec(r, g, b).0;
            back.den > 0 && hues_within(back, h, 50)
        }),
{
    let (r, g, b) = hsl_to_rgb_spec(h, s, l);
    let back = rgb_to_hsl_spec(r, g, b).0;
    let hi = max3(r as int, g as int, b as int);
    let lo = min3(r as int, g as int, b as int);
    let (hn, hd) = (h.num as int, h.den as int);
    let (sn, sd, ln, ld) = (s.num as int, s.den as int, l.num as int, l.den as int);
    let d = s.den * l.den;
    let td = 3 * h.den;
    let x = d * td;
    let p = lower_level(s, l);
    let q = upper_level(s, l);
    let c = q - p;
    let k = 255 * c;
    let low = 255 * (p * td);
    lemma_rounded_levels(h, s, l);
    lemma_levels_in_order(s, l);
    // The chroma is an eighth at least.
    if 2 * ln < ld {
        assert(c == 2 * (ln * sn)) by (nonlinear_arith)
            requires
                c == ln * (sd + sn) - (2 * ln * sd - ln * (sd + sn)),
        ;
        assert(16 * (ln * sn) >= ld * sd) by (nonlinear_arith)
            requires
                ld <= 4 * ln,
                sd <= 4 * sn,
                ld > 0,
                sd > 0,
        ;
    } else {
        assert(c == 2 * (sn * (ld - ln))) by (nonlinear_arith)
            requires
                c == (ln * sd + sn * ld - ln * sn) - (2 * ln * sd - (ln * sd + sn * ld - ln
                    * sn)),
        ;
        assert(16 * (sn * (ld - ln)) >= sd * ld) by (nonlinear_arith)
            requires
                4 * ln <= 3 * ld,
                sd <= 4 * sn,
                ld > 0,
                sd > 0,
        ;
    }
    assert(d == sd * ld);
    assert(8 * c >= d) by (nonlinear_arith)
        requires
            d == sd * ld,
            (c == 2 * (ln * sn) && 16 * (ln * sn) >= ld * sd) || (c == 2 * (sn * (ld - ln)) && 16
                * (sn * (ld - ln)) >= sd * ld),
    ;
    assert(k * td == 255 * (q * td) - low && 255 * x <= 8 * (k * td) && 0 <= low <= 255 * (q
        * td) <= 255 * x) by (nonlinear_arith)
        requires
            k == 255 * c,
            c == q - p,
            low == 255 * (p * td),
            x == d * td,
            8 * c >= d,
            0 <= p <= q <= d,
            td > 0,
    ;
    // The two levels, rounded.
    lemma_round_is_near(255 * (q * td), x);
    lemma_round_is_near(low, x);
    let eps = (hi - lo) * x - k * td;
    let d2 = hi - lo;
    assert(d2 * x == hi * x - lo * x) by (nonlinear_arith)
        requires
            d2 == hi - lo,
    ;
    assert(-x <= eps <= x);
    assert(d2 >= 26) by (nonlinear_arith)
        requires
            d2 * x == k * td + eps,
            -x <= eps,
            255 * x <= 8 * (k * td),
            x > 0,
    ;
    // The three channels, rounded.
    let wr = wheel_rise(3 * hn + hd, td);
    let wg = wheel_rise(3 * hn, td);
    let wb = wheel_rise(3 * hn - hd, td);
    let vr = hue_channel(p, q, 3 * hn + hd, td);
    let vg = hue_channel(p, q, 3 * hn, td);
    let vb = hue_channel(p, q, 3 * hn - hd, td);
    lemma_channel_rises(p, q, 3 * hn + hd, td);
    lemma_channel_rises(p, q, 3 * hn, td);
    lemma_channel_rises(p, q, 3 * hn - hd, td);
    lemma_channel_between(p, q, 3 * hn + hd, td);
    lemma_channel_between(p, q, 3 * hn, td);
    lemma_channel_between(p, q, 3 * hn - hd, td);
    lemma_round_is_near(255 * vr, x);
    lemma_round_is_near(255 * vg, x);
    lemma_round_is_near(255 * vb, x);
    assert(255 * vr == low + k * wr && 255 * vg == low + k * wg && 255 * vb == low + k * wb)
        by (nonlinear_arith)
        requires
            vr == p * td + c * wr,
            vg == p * td + c * wg,
            vb == p * td + c * wb,
            low == 255 * (p * td),
            k == 255 * c,
    ;
    let er = r * x - 255 * vr;
    let eg = g * x - 255 * vg;
    let eb = b * x - 255 * vb;
    lemma_wheel_tells_hue(hn, hd);
    let turn = if 2 * hn <= hd {
        0int
    } else {
        18 * hd
    };
    let dh = d2 * hd;
    let dn = d2 * hn;
    assert(back.den == 6 * d2);
    assert(back.den * hd == 6 * dh && hn * back.den == 6 * dn) by (nonlinear_arith)
        requires
            back.den == 6 * d2,
            dh == d2 * hd,
            dn == d2 * hn,
    ;
    if hi == r {
        let tau = wg - wb - 18 * hn + turn;
        let m = g - b;
        assert(0 * hd == 0 && 0 * d2 == 0 && hd * 0 == 0 && hd * (-1) == -hd && d2 * 0 == 0 && d2
            * (-hd) == -dh && (m + 6 * d2) * hd == m * hd + 6 * dh) by (nonlinear_arith)
            requires
                dh == d2 * hd,
        ;
        if 2 * hn <= hd {
            lemma_hue_read_off(
                k,
                x,
                hn,
                hd,
                low,
                (r as int, wr, er),
                (g as int, wg, eg),
                (b as int, wb, eb),
                eps,
                d2,
                0,
                0,
                tau,
            );
        } else {
            lemma_hue_read_off(
                k,
                x,
                hn,
                hd,
                low,
                (r as int, wr, er),
                (g as int, wg, eg),
                (b as int, wb, eb),
                eps,
                d2,
                0,
                -1,
                tau,
            );
        }
    } else if hi == g {
        let tau = wb - wr + 2 * td - 18 * hn;
        let m = b - r;
        assert(hd * 0 == 0 && d2 * 0 == 0 && 2 * hd == 2 * hd && (m + 2 * d2) * hd == m * hd + 2
            * dh) by (nonlinear_arith)
            requires
                dh == d2 * hd,
        ;
        lemma_hue_read_off(
            k,
            x,
            hn,
            hd,
            low,
            (g as int, wg, eg),
            (b as int, wb, eb),
            (r as int, wr, er),
            eps,
            d2,
            2,
            0,
            tau,
        );
    } else {
        let tau = wr - wg + 4 * td - 18 * hn;
        let m = r - g;
        assert(hd * 0 == 0 && d2 * 0 == 0 && (m + 4 * d2) * hd == m * hd + 4 * dh)
            by (nonlinear_arith)
            requires
                dh == d2 * hd,
        ;
        lemma_hue_read_off(
            k,
            x,
            hn,
            hd,
            low,
            (b as int, wb, eb),
            (r as int, wr, er),
            (g as int, wg, eg),
            eps,
            d2,
            4,
            0,
            tau,
        );
    }
}

} // verus!
