//! Reading style values from text.
//!
//! The text is cut into tokens by the CSS tokenizer of `cssparser`. What the
//! tokens mean as a style value is decided here.

use vstd::prelude::*;
use cssparser::Token;
use crate::theme::color::{all_hex_digits, hex_digit_value, hex_number, is_hex_digit, is_hex_digit_spec, Color, ColorModel};
use crate::theme::sx::sx_value::{decimal_of_text, narrowed, Decimal, SxValue, SxValueModel};
use crate::utils::text::{from_chars, slice_of, to_chars};

verus! {

/// What kind of token a token is, with what it holds.
#[derive(Debug, PartialEq, Eq)]
pub enum CssTokenKind {
    /// An identifier.
    Ident(String),
    /// `#` followed by a name that is no identifier.
    Hash(String),
    /// `#` followed by a name that is an identifier.
    IdHash(String),
    /// Text in quotes, without the quotes.
    QuotedString(String),
    /// A number: its whole value if it is written as a whole number, and
    /// its value in decimal notation.
    Number(Option<i32>, String),
    /// A percentage: its whole value if it is written as a whole number, and
    /// the hundredth part of its value in decimal notation.
    Percentage(Option<i32>, String),
    /// A number with a unit: its whole value if it is written as a whole
    /// number, its value in decimal notation, and the unit.
    Dimension(Option<i32>, String, String),
    /// A single character that is no token of another kind.
    Delim(char),
    /// Any other token.
    Other,
}

/// A token of CSS: its kind and its text as CSS writes it.
#[derive(Debug, PartialEq, Eq)]
pub struct CssToken {
    pub kind: CssTokenKind,
    pub css: String,
}

/// The mathematical value of a [`CssTokenKind`].
pub ghost enum CssTokenKindModel {
    Ident(Seq<char>),
    Hash(Seq<char>),
    IdHash(Seq<char>),
    QuotedString(Seq<char>),
    Number(Option<i32>, Seq<char>),
    Percentage(Option<i32>, Seq<char>),
    Dimension(Option<i32>, Seq<char>, Seq<char>),
    Delim(char),
    Other,
}

/// The mathematical value of a [`CssToken`].
pub ghost struct CssTokenModel {
    pub kind: CssTokenKindModel,
    pub css: Seq<char>,
}

impl View for CssTokenKind {
    type V = CssTokenKindModel;

    open spec fn view(&self) -> CssTokenKindModel {
        match self {
            CssTokenKind::Ident(s) => CssTokenKindModel::Ident(s@),
            CssTokenKind::Hash(s) => CssTokenKindModel::Hash(s@),
            CssTokenKind::IdHash(s) => CssTokenKindModel::IdHash(s@),
            CssTokenKind::QuotedString(s) => CssTokenKindModel::QuotedString(s@),
            CssTokenKind::Number(int_value, value) => CssTokenKindModel::Number(
                *int_value,
                value@,
            ),
            CssTokenKind::Percentage(int_value, unit_value) => CssTokenKindModel::Percentage(
                *int_value,
                unit_value@,
            ),
            CssTokenKind::Dimension(int_value, value, unit) => CssTokenKindModel::Dimension(
                *int_value,
                value@,
                unit@,
            ),
            CssTokenKind::Delim(c) => CssTokenKindModel::Delim(*c),
            CssTokenKind::Other => CssTokenKindModel::Other,
        }
    }
}

impl View for CssToken {
    type V = CssTokenModel;

    open spec fn view(&self) -> CssTokenModel {
        CssTokenModel { kind: self.kind@, css: self.css@ }
    }
}

/// Why a text is not a style value.
#[derive(Debug, PartialEq, Eq)]
pub enum ParseSxValueError {
    /// A token that has no place where it stands, as CSS writes it.
    UnexpectedToken(String),
    /// The text ends where a token is expected.
    CssParseError,
    /// The name behind `#` is not a hexadecimal number of 32 bits.
    ParseIntError(IntErrorKind),
}

/// Why a text is not a hexadecimal number of 32 bits.
#[derive(Debug, Clone, Copy, PartialEq, Eq)]
pub enum IntErrorKind {
    /// The text is empty.
    Empty,
    /// A character of the text is no hexadecimal digit.
    InvalidDigit,
    /// The number does not fit in 32 bits.
    PosOverflow,
}

/// The mathematical value of a [`ParseSxValueError`].
pub ghost enum ParseSxValueErrorModel {
    UnexpectedToken(Seq<char>),
    CssParseError,
    ParseIntError(IntErrorKind),
}

impl View for ParseSxValueError {
    type V = ParseSxValueErrorModel;

    open spec fn view(&self) -> ParseSxValueErrorModel {
        match self {
            ParseSxValueError::UnexpectedToken(s) => ParseSxValueErrorModel::UnexpectedToken(s@),
            ParseSxValueError::CssParseError => ParseSxValueErrorModel::CssParseError,
            ParseSxValueError::ParseIntError(k) => ParseSxValueErrorModel::ParseIntError(*k),
        }
    }
}

/// The kind of the first token of a text as `cssparser` reads it, leaving
/// out white space and comments before it: each kind that a style value can
/// begin with as `cssparser` tells it from the others, and every other kind
/// as one. There is none where the text holds no token.
pub uninterp spec fn css_token_kind(input: Seq<char>) -> Option<CssTokenKindModel>;

/// The first token of a text as `cssparser` writes it, if the text holds a
/// token.
pub uninterp spec fn css_token_text(input: Seq<char>) -> Option<Seq<char>>;

/// What follows the first token of a text; the end of the text where it
/// holds no token.
pub uninterp spec fn css_token_rest(input: Seq<char>) -> Seq<char>;

/// The red, green and blue of the colour that `cssparser` knows by a name,
/// whatever the case of its letters. There is none for other names.
pub uninterp spec fn css_named_color(name: Seq<char>) -> Option<(u8, u8, u8)>;

/// The first token of a text with the text that follows it, if the text
/// holds a token.
pub open spec fn css_next_token(input: Seq<char>) -> Option<(CssTokenModel, Seq<char>)> {
    match (css_token_kind(input), css_token_text(input)) {
        (Some(kind), Some(css)) => Some((CssTokenModel { kind, css }, css_token_rest(input))),
        _ => None,
    }
}

/// Calls `cssparser::Parser::next` on a parser for `input` and writes the
/// token over in plain values. Numbers come as the decimal notation of their
/// value. The contract names the result and claims nothing else of it.
#[verifier::external_body]
fn token_kind(input: &str) -> (r: Option<CssTokenKind>)
    ensures
        match css_token_kind(input@) {
            Some(kind) => r matches Some(found) && found@ == kind,
            None => r is None,
        },
{
    Some(match cssparser::Parser::new(input).next().ok()? {
        Token::Ident(s) => CssTokenKind::Ident(s.to_string()),
        Token::Hash(s) => CssTokenKind::Hash(s.to_string()),
        Token::IDHash(s) => CssTokenKind::IdHash(s.to_string()),
        Token::QuotedString(s) => CssTokenKind::QuotedString(s.to_string()),
        Token::Number { value, int_value, .. } => CssTokenKind::Number(*int_value, value.to_string()),
        Token::Percentage { unit_value, int_value, .. } => CssTokenKind::Percentage(*int_value, unit_value.to_string()),
        Token::Dimension { value, int_value, unit, .. } => CssTokenKind::Dimension(*int_value, value.to_string(), unit.to_string()),
        Token::Delim(c) => CssTokenKind::Delim(*c),
        _ => CssTokenKind::Other,
    })
}

/// Calls `cssparser::ToCss::to_css_string` on the first token of `input`.
/// The contract names the result and claims nothing else of it.
#[verifier::external_body]
fn token_text(input: &str) -> (r: Option<String>)
    ensures
        match css_token_text(input@) {
            Some(css) => r matches Some(found) && found@ == css,
            None => r is None,
        },
{
    Some(cssparser::ToCss::to_css_string(cssparser::Parser::new(input).next().ok()?))
}

/// Calls `cssparser::Parser::position` behind the first token of `input`
/// and hands back the input from there on. The contract names the result and
/// claims nothing else of it.
#[verifier::external_body]
fn token_rest(input: &str) -> (r: String)
    ensures
        r@ == css_token_rest(input@),
{
    let mut parser = cssparser::Parser::new(input);
    let _ = parser.next();
    input[parser.position().byte_index()..].to_string()
}

/// The first token of `input` with the text that follows it.
fn next_token(input: &str) -> (r: Option<(CssToken, String)>)
    ensures
        match css_next_token(input@) {
            Some((token, rest)) => r matches Some(found) && found.0@ == token && found.1@ == rest,
            None => r is None,
        },
{
    match (token_kind(input), token_text(input)) {
        (Some(kind), Some(css)) => Some((CssToken { kind, css }, token_rest(input))),
        _ => None,
    }
}

/// Calls `cssparser::color::parse_named_color`. The contract names the
/// result and claims nothing else of it.
#[verifier::external_body]
fn named_color(name: &str) -> (r: Option<(u8, u8, u8)>)
    ensures
        r == css_named_color(name@),
{
    cssparser::color::parse_named_color(name).ok()
}

/// `c` is an upper-case letter of the Latin alphabet.
pub open spec fn is_ascii_upper(c: char) -> bool {
    'A' <= c && c <= 'Z'
}

/// Some character of `s` is an upper-case letter of the Latin alphabet.
pub open spec fn has_ascii_upper(s: Seq<char>) -> bool {
    exists|i: int| 0 <= i < s.len() && is_ascii_upper(#[trigger] s[i])
}

/// `name` is one of the colour names of CSS, written in lower case.
pub open spec fn is_color_name(name: Seq<char>) -> bool {
    css_named_color(name) is Some && !has_ascii_upper(name)
}

/// The index of the first full stop of `s` from `from` on, or the length of
/// `s`.
pub open spec fn first_dot(s: Seq<char>, from: int) -> int
    decreases s.len() - from,
{
    if from < 0 || from >= s.len() {
        s.len() as int
    } else if s[from] == '.' {
        from
    } else {
        first_dot(s, from + 1)
    }
}

/// The two parts of a text that holds exactly one full stop.
pub open spec fn split_at_single_dot(s: Seq<char>) -> Option<(Seq<char>, Seq<char>)> {
    let at = first_dot(s, 0);
    if at < s.len() && first_dot(s, at + 1) >= s.len() {
        Some((s.subrange(0, at), s.subrange(at + 1, s.len() as int)))
    } else {
        None
    }
}

/// The number that a hexadecimal numeral stands for, or why it stands for
/// none of 32 bits. A plus sign may stand before the digits.
pub open spec fn hex_u32(s: Seq<char>) -> Result<u32, IntErrorKind> {
    let digits = if s.len() > 0 && s[0] == '+' {
        s.subrange(1, s.len() as int)
    } else {
        s
    };
    if s.len() == 0 {
        Err(IntErrorKind::Empty)
    } else if digits.len() == 0 || !all_hex_digits(digits) {
        Err(IntErrorKind::InvalidDigit)
    } else if hex_number(digits) > u32::MAX {
        Err(IntErrorKind::PosOverflow)
    } else {
        Ok(hex_number(digits) as u32)
    }
}

/// The decimal number that a token gives in decimal notation, or the token
/// as an error where the notation is none that fits.
pub open spec fn decimal_or_unexpected(text: Seq<char>, css: Seq<char>) -> Result<
    Decimal,
    ParseSxValueErrorModel,
> {
    match narrowed(decimal_of_text(text)) {
        Some(d) => Ok(d),
        None => Err(ParseSxValueErrorModel::UnexpectedToken(css)),
    }
}

/// The style value that a single token stands for.
///
/// An identifier is a colour if it is a colour name of CSS, else a literal.
/// `#` with a hexadecimal number is a colour, whether the name behind `#`
/// is an identifier or not. Where the name is no hexadecimal number of 32
/// bits, a name that is no identifier is reported as the number that it
/// fails to be, and a name that is an identifier as an unexpected token.
/// Quoted text with exactly one
/// full stop is a reference to a colour of a palette, other quoted text is a
/// string. A number is an integer or a float. A percentage is the hundredth
/// part of its value. A number with a unit is a dimension with that unit.
/// Any other token is unexpected.
pub open spec fn token_value(token: CssTokenModel) -> Result<SxValueModel, ParseSxValueErrorModel> {
    match token.kind {
        CssTokenKindModel::Ident(name) => if is_color_name(name) {
            Ok(SxValueModel::Color(ColorModel::CSSLiteral(name)))
        } else {
            Ok(SxValueModel::CssLiteral(name))
        },
        CssTokenKindModel::Hash(name) => match hex_u32(name) {
            Ok(v) => Ok(SxValueModel::Color(ColorModel::Hex(v))),
            Err(k) => Err(ParseSxValueErrorModel::ParseIntError(k)),
        },
        CssTokenKindModel::IdHash(name) => match hex_u32(name) {
            Ok(v) => Ok(SxValueModel::Color(ColorModel::Hex(v))),
            Err(_) => Err(ParseSxValueErrorModel::UnexpectedToken(token.css)),
        },
        CssTokenKindModel::QuotedString(text) => match split_at_single_dot(text) {
            Some((palette, selector)) => Ok(SxValueModel::ThemeToken { palette, selector }),
            None => Ok(SxValueModel::String(text)),
        },
        CssTokenKindModel::Number(int_value, value) => match int_value {
            Some(i) => Ok(SxValueModel::Integer(i)),
            None => match decimal_or_unexpected(value, token.css) {
                Ok(d) => Ok(SxValueModel::Float(d)),
                Err(e) => Err(e),
            },
        },
        CssTokenKindModel::Percentage(int_value, unit_value) => match int_value {
            Some(i) => Ok(SxValueModel::Percent(Decimal { unscaled: i as i128, scale: 2 })),
            None => match decimal_or_unexpected(unit_value, token.css) {
                Ok(d) => Ok(SxValueModel::Percent(d)),
                Err(e) => Err(e),
            },
        },
        CssTokenKindModel::Dimension(int_value, value, unit) => match int_value {
            Some(i) => Ok(SxValueModel::Dimension { value: i, unit }),
            None => match decimal_or_unexpected(value, token.css) {
                Ok(d) => Ok(SxValueModel::FloatDimension { value: d, unit }),
                Err(e) => Err(e),
            },
        },
        _ => Err(ParseSxValueErrorModel::UnexpectedToken(token.css)),
    }
}

/// The style value that up to three tokens stand for.
///
/// It is the value of the first token, with one exception: a literal that is
/// followed by a full stop and an identifier is a reference to a colour of a
/// palette. After a literal and a full stop anything but an identifier is an
/// error. Whatever else follows the first token is ignored.
pub open spec fn tokens_value(
    first: Option<CssTokenModel>,
    second: Option<CssTokenModel>,
    third: Option<CssTokenModel>,
) -> Result<SxValueModel, ParseSxValueErrorModel> {
    match first {
        None => Err(ParseSxValueErrorModel::CssParseError),
        Some(token) => match token_value(token) {
            Err(e) => Err(e),
            Ok(value) => match (value, second) {
                (SxValueModel::CssLiteral(literal), Some(dot)) => if dot.kind
                    == CssTokenKindModel::Delim('.') {
                    match third {
                        None => Err(ParseSxValueErrorModel::CssParseError),
                        Some(last) => match last.kind {
                            CssTokenKindModel::Ident(name) => Ok(
                                SxValueModel::ThemeToken { palette: literal, selector: name },
                            ),
                            _ => Err(ParseSxValueErrorModel::UnexpectedToken(last.css)),
                        },
                    }
                } else {
                    Ok(value)
                },
                _ => Ok(value),
            },
        },
    }
}

/// The first three tokens of a text, each with the text behind it cut off.
pub open spec fn first_tokens(input: Seq<char>) -> (
    Option<CssTokenModel>,
    Option<CssTokenModel>,
    Option<CssTokenModel>,
) {
    match css_next_token(input) {
        None => (None, None, None),
        Some((first, rest)) => match css_next_token(rest) {
            None => (Some(first), None, None),
            Some((second, rest2)) => match css_next_token(rest2) {
                None => (Some(first), Some(second), None),
                Some((third, _)) => (Some(first), Some(second), Some(third)),
            },
        },
    }
}

/// The style value that a text stands for.
pub open spec fn text_value(input: Seq<char>) -> Result<SxValueModel, ParseSxValueErrorModel> {
    tokens_value(first_tokens(input).0, first_tokens(input).1, first_tokens(input).2)
}

/// Whether some character of `s` is an upper-case letter of the Latin
/// alphabet.
fn any_ascii_upper(s: &Vec<char>) -> (r: bool)
    ensures
        r == has_ascii_upper(s@),
{
    let mut i: usize = 0;
    while i < s.len()
        invariant
            i <= s.len(),
            forall|j: int| 0 <= j < i ==> !is_ascii_upper(#[trigger] s@[j]),
        decreases s.len() - i,
    {
        if 'A' <= s[i] && s[i] <= 'Z' {
            return true;
        }
        i += 1;
    }
    false
}

/// Whether `name` is a colour name of CSS in lower case.
pub fn color_name(name: &str) -> (r: bool)
    ensures
        r == is_color_name(name@),
{
    let chars = to_chars(name);
    named_color(name).is_some() && !any_ascii_upper(&chars)
}

/// The two parts of a text that holds exactly one full stop.
fn split_single_dot(s: &Vec<char>) -> (r: Option<(Vec<char>, Vec<char>)>)
    ensures
        match split_at_single_dot(s@) {
            Some((a, b)) => r matches Some(found) && found.0@ == a && found.1@ == b,
            None => r is None,
        },
{
    let mut at: usize = 0;
    while at < s.len() && s[at] != '.'
        invariant
            at <= s.len(),
            first_dot(s@, 0) == first_dot(s@, at as int),
        decreases s.len() - at,
    {
        at += 1;
    }
    if at >= s.len() {
        return None;
    }
    let mut next: usize = at + 1;
    while next < s.len() && s[next] != '.'
        invariant
            at < next <= s.len(),
            first_dot(s@, at + 1) == first_dot(s@, next as int),
        decreases s.len() - next,
    {
        next += 1;
    }
    if next < s.len() {
        return None;
    }
    Some((slice_of(s, 0, at), slice_of(s, at + 1, s.len())))
}

/// The value of one hexadecimal digit.
fn digit_value(c: char) -> (v: u32)
    requires
        is_hex_digit_spec(c),
    ensures
        v == hex_digit_value(c),
        v < 16,
{
    let code: u32 = c as u32;
    if '0' <= c && c <= '9' {
        code - 0x30
    } else if 'a' <= c && c <= 'f' {
        code - 0x61 + 10
    } else {
        code - 0x41 + 10
    }
}

/// A longer numeral stands for a number that is at least as great.
pub proof fn lemma_hex_number_grows(s: Seq<char>, n: int)
    requires
        0 <= n <= s.len(),
    ensures
        hex_number(s.subrange(0, n)) <= hex_number(s),
    decreases s.len() - n,
{
    if n < s.len() {
        let longer = s.subrange(0, n + 1);
        assert(longer.drop_last() =~= s.subrange(0, n));
        lemma_hex_number_grows(s, n + 1);
    } else {
        assert(s.subrange(0, n) =~= s);
    }
}

/// Reads a hexadecimal number of 32 bits.
pub fn parse_hex_u32(text: &str) -> (r: Result<u32, IntErrorKind>)
    ensures
        r == hex_u32(text@),
{
    let s = to_chars(text);
    if s.len() == 0 {
        return Err(IntErrorKind::Empty);
    }
    let start: usize = if s[0] == '+' {
        1
    } else {
        0
    };
    let digits = slice_of(&s, start, s.len());
    proof {
        if start == 0 {
            assert(digits@ =~= s@);
        }
    }
    if digits.len() == 0 {
        return Err(IntErrorKind::InvalidDigit);
    }
    assert(hex_u32(text@) == if !all_hex_digits(digits@) {
        Err::<u32, IntErrorKind>(IntErrorKind::InvalidDigit)
    } else if hex_number(digits@) > u32::MAX {
        Err(IntErrorKind::PosOverflow)
    } else {
        Ok(hex_number(digits@) as u32)
    });
    let mut i: usize = 0;
    while i < digits.len()
        invariant
            i <= digits.len(),
            !all_hex_digits(digits@) ==> hex_u32(text@) == Err::<u32, IntErrorKind>(
                IntErrorKind::InvalidDigit,
            ),
            forall|j: int| 0 <= j < i ==> is_hex_digit_spec(#[trigger] digits@[j]),
        decreases digits.len() - i,
    {
        if !is_hex_digit(digits[i]) {
            assert(!is_hex_digit_spec(digits@[i as int]));
            assert(!all_hex_digits(digits@));
            return Err(IntErrorKind::InvalidDigit);
        }
        i += 1;
    }
    let mut value: u64 = 0;
    let mut k: usize = 0;
    while k < digits.len()
        invariant
            k <= digits.len(),
            all_hex_digits(digits@),
            hex_u32(text@) == if hex_number(digits@) > u32::MAX {
                Err::<u32, IntErrorKind>(IntErrorKind::PosOverflow)
            } else {
                Ok(hex_number(digits@) as u32)
            },
            value == hex_number(digits@.subrange(0, k as int)),
            value <= u32::MAX,
        decreases digits.len() - k,
    {
        let ghost prefix = digits@.subrange(0, k + 1);
        assert(prefix.drop_last() =~= digits@.subrange(0, k as int));
        assert(prefix.last() == digits@[k as int]);
        let d = digit_value(digits[k]);
        value = value * 16 + d as u64;
        k += 1;
        assert(value == hex_number(prefix));
        if value > 0xFFFF_FFFF {
            proof {
                lemma_hex_number_grows(digits@, k as int);
            }
            return Err(IntErrorKind::PosOverflow);
        }
    }
    assert(digits@.subrange(0, digits.len() as int) =~= digits@);
    Ok(value as u32)
}

/// Reads the decimal notation that a token gives for its number.
fn decimal_of_token(text: &str, css: &str) -> (r: Result<Decimal, ParseSxValueError>)
    ensures
        match decimal_or_unexpected(text@, css@) {
            Ok(d) => r == Ok::<Decimal, ParseSxValueError>(d),
            Err(e) => r matches Err(x) && x@ == e,
        },
{
    match Decimal::parse(text) {
        Some(d) => Ok(d),
        None => Err(ParseSxValueError::UnexpectedToken(css.to_owned())),
    }
}

/// The style value that a single token stands for.
pub fn parse(token: &CssToken) -> (r: Result<SxValue, ParseSxValueError>)
    ensures
        match token_value(token@) {
            Ok(v) => r matches Ok(found) && found@ == v,
            Err(e) => r matches Err(x) && x@ == e,
        },
{
    match &token.kind {
        CssTokenKind::Ident(name) => {
            if color_name(name.as_str()) {
                Ok(SxValue::Color(Color::CSSLiteral(name.clone())))
            } else {
                Ok(SxValue::CssLiteral(name.clone()))
            }
        },
        CssTokenKind::Hash(name) => match parse_hex_u32(name.as_str()) {
            Ok(v) => Ok(SxValue::Color(Color::hex_code(v))),
            Err(k) => Err(ParseSxValueError::ParseIntError(k)),
        },
        CssTokenKind::IdHash(name) => match parse_hex_u32(name.as_str()) {
            Ok(v) => Ok(SxValue::Color(Color::hex_code(v))),
            Err(_) => Err(ParseSxValueError::UnexpectedToken(token.css.clone())),
        },
        CssTokenKind::QuotedString(text) => {
            let chars = to_chars(text.as_str());
            match split_single_dot(&chars) {
                Some((palette, selector)) => Ok(
                    SxValue::ThemeToken {
                        palette: from_chars(&palette),
                        selector: from_chars(&selector),
                    },
                ),
                None => Ok(SxValue::String(text.clone())),
            }
        },
        CssTokenKind::Number(int_value, value) => match int_value {
            Some(i) => Ok(SxValue::Integer(*i)),
            None => match decimal_of_token(value.as_str(), token.css.as_str()) {
                Ok(d) => Ok(SxValue::Float(d)),
                Err(e) => Err(e),
            },
        },
        CssTokenKind::Percentage(int_value, unit_value) => match int_value {
            Some(i) => Ok(SxValue::Percent(Decimal::hundredths(*i))),
            None => match decimal_of_token(unit_value.as_str(), token.css.as_str()) {
                Ok(d) => Ok(SxValue::Percent(d)),
                Err(e) => Err(e),
            },
        },
        CssTokenKind::Dimension(int_value, value, unit) => match int_value {
            Some(i) => Ok(SxValue::Dimension { value: *i, unit: unit.clone() }),
            None => match decimal_of_token(value.as_str(), token.css.as_str()) {
                Ok(d) => Ok(SxValue::FloatDimension { value: d, unit: unit.clone() }),
                Err(e) => Err(e),
            },
        },
        _ => Err(ParseSxValueError::UnexpectedToken(token.css.clone())),
    }
}

/// The style value that up to three tokens stand for.
pub fn parse_tokens(
    first: Option<&CssToken>,
    second: Option<&CssToken>,
    third: Option<&CssToken>,
) -> (r: Result<SxValue, ParseSxValueError>)
    ensures
        match tokens_value(
            match first {
                Some(t) => Some(t@),
                None => None,
            },
            match second {
                Some(t) => Some(t@),
                None => None,
            },
            match third {
                Some(t) => Some(t@),
                None => None,
            },
        ) {
            Ok(v) => r matches Ok(found) && found@ == v,
            Err(e) => r matches Err(x) && x@ == e,
        },
{
    let token = match first {
        Some(t) => t,
        None => {
            return Err(ParseSxValueError::CssParseError);
        },
    };
    let value = match parse(token) {
        Ok(v) => v,
        Err(e) => {
            return Err(e);
        },
    };
    match (value, second) {
        (SxValue::CssLiteral(literal), Some(dot)) => {
            let is_dot = match &dot.kind {
                CssTokenKind::Delim(c) => *c == '.',
                _ => false,
            };
            if is_dot {
                match third {
                    None => Err(ParseSxValueError::CssParseError),
                    Some(last) => match &last.kind {
                        CssTokenKind::Ident(name) => Ok(
                            SxValue::ThemeToken { palette: literal, selector: name.clone() },
                        ),
                        _ => Err(ParseSxValueError::UnexpectedToken(last.css.clone())),
                    },
                }
            } else {
                Ok(SxValue::CssLiteral(literal))
            }
        },
        (value, _) => Ok(value),
    }
}

/// The style value that the text `input` stands for.
pub fn parse_sx_value(input: &str) -> (r: Result<SxValue, ParseSxValueError>)
    ensures
        match text_value(input@) {
            Ok(v) => r matches Ok(found) && found@ == v,
            Err(e) => r matches Err(x) && x@ == e,
        },
{
    let (first, rest) = match next_token(input) {
        Some(found) => found,
        None => {
            return parse_tokens(None, None, None);
        },
    };
    let (second, rest2) = match next_token(rest.as_str()) {
        Some(found) => found,
        None => {
            return parse_tokens(Some(&first), None, None);
        },
    };
    match next_token(rest2.as_str()) {
        Some((third, _)) => parse_tokens(Some(&first), Some(&second), Some(&third)),
        None => parse_tokens(Some(&first), Some(&second), None),
    }
}

/// What `regex` finds in `text` for the two named groups `first` and
/// `second` of `pattern`: the texts of the two groups where the pattern
/// matches and both groups took part in the match; nothing where it does not
/// match, where a group is missing, or where `pattern` is no pattern.
pub uninterp spec fn regex_two_groups(
    pattern: Seq<char>,
    text: Seq<char>,
    first: Seq<char>,
    second: Seq<char>,
) -> Option<(Seq<char>, Seq<char>)>;

/// `c` is white space: one of the characters that Unicode gives the
/// property `White_Space`. These are the control characters from tab to
/// carriage return, the space, the next-line character, the no-break space,
/// the Ogham space mark, the spaces of fixed width from the en quad to the
/// hair space, the line and the paragraph separator, the narrow no-break
/// space, the medium mathematical space and the ideographic space.
pub open spec fn is_white_space(c: char) -> bool {
    let n = c as u32;
    (0x09 <= n && n <= 0x0D) || n == 0x20 || n == 0x85 || n == 0xA0 || n == 0x1680 || (0x2000
        <= n && n <= 0x200A) || n == 0x2028 || n == 0x2029 || n == 0x202F || n == 0x205F || n
        == 0x3000
}

/// Calls `regex::Regex::new` on `pattern`, then `Regex::captures` on
/// `text`, and reads the two groups with `Captures::name`. The contract
/// names the result and claims nothing else of it.
#[verifier::external_body]
pub(crate) fn capture_two(pattern: &str, text: &str, first: &str, second: &str) -> (r: Option<
    (String, String),
>)
    ensures
        match regex_two_groups(pattern@, text@, first@, second@) {
            Some((a, b)) => r matches Some(found) && found.0@ == a && found.1@ == b,
            None => r is None,
        },
{
    let found = regex::Regex::new(pattern).ok()?;
    let groups = found.captures(text)?;
    Some((groups.name(first)?.as_str().to_string(), groups.name(second)?.as_str().to_string()))
}

/// `char::is_whitespace` of the standard library says whether a character
/// has the property `White_Space` of Unicode.
pub assume_specification[ char::is_whitespace ](c: char) -> (r: bool)
    ensures
        r == is_white_space(c),
;

/// The pattern of a reference to a colour of a palette: a name, a full
/// stop, and a name. The first name begins with a letter or an underscore.
pub open spec fn palette_selector_pattern() -> Seq<char> {
    "^(?<palette>[a-zA-Z_]\\w*)\\.(?<selector>\\w+)$"@
}

/// The palette and the selector that a text refers to, if it is a reference
/// to a colour of a palette.
pub open spec fn palette_selector(text: Seq<char>) -> Option<(Seq<char>, Seq<char>)> {
    regex_two_groups(palette_selector_pattern(), text, "palette"@, "selector"@)
}

/// Some character of `s` is white space.
pub open spec fn has_white_space(s: Seq<char>) -> bool {
    exists|i: int| 0 <= i < s.len() && is_white_space(#[trigger] s[i])
}

/// The style value that a text given in a program stands for.
///
/// A text of the form `palette.selector` is a reference to a colour of a
/// palette. Any other text that holds white space is a literal. What is left
/// is read as a single style value.
pub open spec fn program_text_value(text: Seq<char>) -> Result<SxValueModel, ParseSxValueErrorModel> {
    match palette_selector(text) {
        Some((palette, selector)) => Ok(SxValueModel::ThemeToken { palette, selector }),
        None => if has_white_space(text) {
            Ok(SxValueModel::CssLiteral(text))
        } else {
            text_value(text)
        },
    }
}

/// The palette and the selector that `text` refers to, if it is a reference
/// to a colour of a palette.
pub fn palette_selector_of(text: &str) -> (r: Option<(String, String)>)
    ensures
        match palette_selector(text@) {
            Some((a, b)) => r matches Some(found) && found.0@ == a && found.1@ == b,
            None => r is None,
        },
{
    capture_two("^(?<palette>[a-zA-Z_]\\w*)\\.(?<selector>\\w+)$", text, "palette", "selector")
}

/// Whether some character of `s` is white space.
fn any_white_space(s: &Vec<char>) -> (r: bool)
    ensures
        r == has_white_space(s@),
{
    let mut i: usize = 0;
    while i < s.len()
        invariant
            i <= s.len(),
            forall|j: int| 0 <= j < i ==> !is_white_space(#[trigger] s@[j]),
        decreases s.len() - i,
    {
        if s[i].is_whitespace() {
            return true;
        }
        i += 1;
    }
    false
}

impl SxValue {
    /// The style value that a text given in a program stands for.
    pub fn from_text(text: &str) -> (r: Result<SxValue, ParseSxValueError>)
        ensures
            match program_text_value(text@) {
                Ok(v) => r matches Ok(found) && found@ == v,
                Err(e) => r matches Err(x) && x@ == e,
            },
    {
        match palette_selector_of(text) {
            Some((palette, selector)) => Ok(SxValue::ThemeToken { palette, selector }),
            None => {
                let chars = to_chars(text);
                if any_white_space(&chars) {
                    Ok(SxValue::CssLiteral(text.to_owned()))
                } else {
                    parse_sx_value(text)
                }
            },
        }
    }

    /// The style value that `text` stands for.
    pub fn from_str(text: &str) -> (r: Result<SxValue, ParseSxValueError>)
        ensures
            match text_value(text@) {
                Ok(v) => r matches Ok(found) && found@ == v,
                Err(e) => r matches Err(x) && x@ == e,
            },
    {
        parse_sx_value(text)
    }
}

} // verus!
