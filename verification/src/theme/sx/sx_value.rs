//! Style values: what a property of a style can hold.

use vstd::prelude::*;
use vstd::std_specs::convert::FromSpecImpl;
use crate::theme::color::{color_text, Color, ColorModel};
use crate::theme::sx::Sx;
use crate::utils::text::{decimal_text, from_chars, push_decimal, push_str};

verus! {

/// A decimal number: `unscaled` divided by ten to the power of `scale`.
#[derive(Debug, Clone, Copy, PartialEq, Eq)]
pub struct Decimal {
    pub unscaled: i128,
    pub scale: i16,
}

/// A value that is computed from the theme when the style is compiled.
///
/// The value stands for a function that the embedding program holds. Two
/// such values are equal when they have the same identity, whatever the
/// functions behind them do.
#[derive(Debug, Clone, Copy, PartialEq, Eq)]
pub struct FnSxValue {
    id: u64,
}

impl FnSxValue {
    /// The identity of the value.
    pub closed spec fn identity(&self) -> u64 {
        self.id
    }

    /// The identity of the value.
    pub fn id(&self) -> (r: u64)
        ensures
            r == self.identity(),
    {
        self.id
    }
}

/// A style value.
#[derive(Debug, PartialEq)]
#[allow(inconsistent_fields)]
pub enum SxValue {
    /// A whole number.
    Integer(i32),
    /// A number with a fractional part.
    Float(Decimal),
    /// A percentage, held as a fraction: 15% is 0.15.
    Percent(Decimal),
    /// A fractional number with a unit.
    FloatDimension { value: Decimal, unit: String },
    /// A whole number with a unit.
    Dimension { value: i32, unit: String },
    /// Text that is handed to CSS as it stands.
    CssLiteral(String),
    /// Text that is handed to CSS in quotes.
    String(String),
    /// A colour.
    Color(Color),
    /// A reference to a colour of a palette of the theme.
    ThemeToken { palette: String, selector: String },
    /// A reference to a variable of a class, with an optional value to fall
    /// back on.
    ClassVar { class: String, var: String, fallback: Option<Box<SxValue>> },
    /// A value that is computed from the theme.
    Callback(FnSxValue),
    /// A nested rule.
    Nested(Sx),
}

/// The mathematical value of an [`SxValue`].
#[allow(inconsistent_fields)]
pub ghost enum SxValueModel {
    Integer(i32),
    Float(Decimal),
    Percent(Decimal),
    FloatDimension { value: Decimal, unit: Seq<char> },
    Dimension { value: i32, unit: Seq<char> },
    CssLiteral(Seq<char>),
    String(Seq<char>),
    Color(ColorModel),
    ThemeToken { palette: Seq<char>, selector: Seq<char> },
    ClassVar { class: Seq<char>, var: Seq<char>, fallback: Option<Box<SxValueModel>> },
    Callback(u64),
    Nested(Seq<(Seq<char>, SxValueModel)>),
}

impl SxValue {
    /// The mathematical value of the style value.
    pub open spec fn model(&self) -> SxValueModel
        decreases self,
    {
        match self {
            SxValue::Integer(i) => SxValueModel::Integer(*i),
            SxValue::Float(d) => SxValueModel::Float(*d),
            SxValue::Percent(d) => SxValueModel::Percent(*d),
            SxValue::FloatDimension { value, unit } => SxValueModel::FloatDimension {
                value: *value,
                unit: unit@,
            },
            SxValue::Dimension { value, unit } => SxValueModel::Dimension {
                value: *value,
                unit: unit@,
            },
            SxValue::CssLiteral(s) => SxValueModel::CssLiteral(s@),
            SxValue::String(s) => SxValueModel::String(s@),
            SxValue::Color(c) => SxValueModel::Color(c@),
            SxValue::ThemeToken { palette, selector } => SxValueModel::ThemeToken {
                palette: palette@,
                selector: selector@,
            },
            SxValue::ClassVar { class, var, fallback } => SxValueModel::ClassVar {
                class: class@,
                var: var@,
                fallback: match fallback {
                    Some(inner) => Some(Box::new((**inner).model())),
                    None => None,
                },
            },
            SxValue::Callback(f) => SxValueModel::Callback(f.identity()),
            SxValue::Nested(sx) => SxValueModel::Nested(sx.model()),
        }
    }
}

impl View for SxValue {
    type V = SxValueModel;

    open spec fn view(&self) -> SxValueModel {
        self.model()
    }
}

/// What `bigdecimal` reads a text as: the digits of the number as a whole
/// number, and how many of them stand behind the decimal point. There is
/// none where the text is not a decimal number.
pub uninterp spec fn decimal_of_text(text: Seq<char>) -> Option<(int, int)>;

/// What `bigdecimal` prints a decimal number as in plain notation, that is
/// without an exponent.
pub uninterp spec fn decimal_plain_text(unscaled: int, scale: int) -> Seq<char>;

/// A decimal number as this crate holds it, if its digits and its scale fit.
pub open spec fn narrowed(d: Option<(int, int)>) -> Option<Decimal> {
    match d {
        Some((unscaled, scale)) => if i128::MIN <= unscaled <= i128::MAX && i16::MIN <= scale
            <= i16::MAX {
            Some(Decimal { unscaled: unscaled as i128, scale: scale as i16 })
        } else {
            None
        },
        None => None,
    }
}

/// Reads a decimal number with `BigDecimal::from_str` of `bigdecimal` and
/// takes it apart with `BigDecimal::into_bigint_and_exponent`. The contract
/// names what is read and claims that the result is that number, or nothing
/// where the text is no number or the number does not fit.
#[verifier::external_body]
fn read_decimal(text: &str) -> (r: Option<Decimal>)
    ensures
        r == narrowed(decimal_of_text(text@)),
{
    let parsed: bigdecimal::BigDecimal = text.parse().ok()?;
    let (digits, scale) = parsed.into_bigint_and_exponent();
    let unscaled = bigdecimal::ToPrimitive::to_i128(&digits)?;
    Some(Decimal { unscaled, scale: i16::try_from(scale).ok()? })
}

/// Prints a decimal number with `BigDecimal::to_plain_string` of
/// `bigdecimal`. The contract names the text and claims nothing else of it.
/// The scale is bounded because the text has as many digits as the scale
/// says.
#[verifier::external_body]
fn print_decimal(unscaled: i128, scale: i32) -> (r: String)
    requires
        -40000 <= scale <= 40000,
    ensures
        r@ == decimal_plain_text(unscaled as int, scale as int),
{
    bigdecimal::BigDecimal::new(bigdecimal::num_bigint::BigInt::from(unscaled), scale as i64)
        .to_plain_string()
}

/// Calls `rand::random` for a number that serves as an identity. Nothing is
/// claimed of the number.
#[verifier::external_body]
fn random_id() -> u64 {
    rand::random()
}

impl Decimal {
    /// The decimal number that `text` spells, if it spells one that fits.
    pub fn parse(text: &str) -> (r: Option<Decimal>)
        ensures
            r == narrowed(decimal_of_text(text@)),
    {
        read_decimal(text)
    }

    /// The whole number `n` as a decimal number.
    pub fn whole(n: i32) -> (r: Decimal)
        ensures
            r == (Decimal { unscaled: n as i128, scale: 0 }),
    {
        Decimal { unscaled: n as i128, scale: 0 }
    }

    /// The hundredth part of the whole number `n`.
    pub fn hundredths(n: i32) -> (r: Decimal)
        ensures
            r == (Decimal { unscaled: n as i128, scale: 2 }),
    {
        Decimal { unscaled: n as i128, scale: 2 }
    }

    /// The number in plain decimal notation.
    pub fn to_string(&self) -> (r: String)
        ensures
            r@ == decimal_plain_text(self.unscaled as int, self.scale as int),
    {
        print_decimal(self.unscaled, self.scale as i32)
    }

    /// A hundred times the number, in plain decimal notation.
    pub fn to_percent_string(&self) -> (r: String)
        ensures
            r@ == decimal_plain_text(self.unscaled as int, self.scale - 2),
    {
        print_decimal(self.unscaled, self.scale as i32 - 2)
    }
}

impl FnSxValue {
    /// A value with an identity of its own.
    pub fn new() -> (r: FnSxValue) {
        FnSxValue { id: random_id() }
    }

    /// The value with the identity `id`.
    pub fn with_id(id: u64) -> (r: FnSxValue)
        ensures
            r.identity() == id,
    {
        FnSxValue { id }
    }

    /// Whether two values have the same identity.
    pub fn same(&self, other: &FnSxValue) -> (r: bool)
        ensures
            r == (self.identity() == other.identity()),
    {
        self.id == other.id
    }

    /// What the function behind the value gave, if `results` holds it.
    /// `results` lists identities with what their functions gave for the
    /// theme at hand; the first entry with the identity of the value counts.
    pub fn apply(&self, results: &Vec<(u64, SxValue)>) -> (r: Option<SxValue>)
        ensures
            match result_of(results_model(results@), self.identity(), 0) {
                Some(v) => r matches Some(found) && found@ == v,
                None => r is None,
            },
    {
        let ghost m = results_model(results@);
        let mut i: usize = 0;
        while i < results.len()
            invariant
                i <= results.len(),
                m == results_model(results@),
                result_of(m, self.identity(), 0) == result_of(m, self.identity(), i as int),
            decreases results.len() - i,
        {
            assert(m[i as int] == (results@[i as int].0, results@[i as int].1@));
            if results[i].0 == self.id {
                return Some(results[i].1.clone());
            }
            i += 1;
        }
        None
    }
}

/// What the functions behind computed values gave, as identities and values.
pub open spec fn results_model(results: Seq<(u64, SxValue)>) -> Seq<(u64, SxValueModel)> {
    Seq::new(results.len(), |i: int| (results[i].0, results[i].1@))
}

/// What the function with the identity `id` gave: the value of the first
/// entry of `results` from `from` on with that identity.
pub open spec fn result_of(results: Seq<(u64, SxValueModel)>, id: u64, from: int) -> Option<
    SxValueModel,
>
    decreases results.len() - from,
{
    if from < 0 || from >= results.len() {
        None
    } else if results[from].0 == id {
        Some(results[from].1)
    } else {
        result_of(results, id, from + 1)
    }
}

/// The numeral of a whole number, with a minus sign if it is negative.
pub open spec fn int_text(i: int) -> Seq<char> {
    if i < 0 {
        seq!['-'] + decimal_text((-i) as nat)
    } else {
        decimal_text(i as nat)
    }
}

/// The text of a value as CSS reads it, for the values that have one:
/// numbers, percentages, dimensions, literals, quoted text and colours.
/// References, computed values and nested rules have none.
pub open spec fn css_text(v: SxValueModel) -> Option<Seq<char>> {
    match v {
        SxValueModel::Integer(i) => Some(int_text(i as int)),
        SxValueModel::Float(d) => Some(decimal_plain_text(d.unscaled as int, d.scale as int)),
        SxValueModel::Percent(d) => Some(
            decimal_plain_text(d.unscaled as int, d.scale - 2) + seq!['%'],
        ),
        SxValueModel::FloatDimension { value, unit } => Some(
            decimal_plain_text(value.unscaled as int, value.scale as int) + unit,
        ),
        SxValueModel::Dimension { value, unit } => Some(int_text(value as int) + unit),
        SxValueModel::CssLiteral(s) => Some(s),
        SxValueModel::String(s) => Some(seq!['"'] + s + seq!['"']),
        SxValueModel::Color(c) => Some(color_text(c)),
        _ => None,
    }
}

/// Appends the numeral of a whole number.
fn push_int(out: &mut Vec<char>, i: i32)
    ensures
        final(out)@ == old(out)@ + int_text(i as int),
{
    if i < 0 {
        out.push('-');
        push_decimal(out, (-(i as i64)) as u64);
        assert(out@ =~= old(out)@ + (seq!['-'] + decimal_text((-i) as nat)));
    } else {
        push_decimal(out, i as u64);
    }
}

impl From<i32> for SxValue {
    /// A whole number as a style value.
    fn from(value: i32) -> (r: SxValue) {
        SxValue::Integer(value)
    }
}

impl FromSpecImpl<i32> for SxValue {
    open spec fn obeys_from_spec() -> bool {
        true
    }

    open spec fn from_spec(value: i32) -> SxValue {
        SxValue::Integer(value)
    }
}

impl From<Sx> for SxValue {
    /// A style as a nested rule.
    fn from(value: Sx) -> (r: SxValue) {
        SxValue::Nested(value)
    }
}

impl FromSpecImpl<Sx> for SxValue {
    open spec fn obeys_from_spec() -> bool {
        true
    }

    open spec fn from_spec(value: Sx) -> SxValue {
        SxValue::Nested(value)
    }
}

impl From<Color> for SxValue {
    /// A colour as a style value.
    fn from(value: Color) -> (r: SxValue) {
        SxValue::Color(value)
    }
}

impl FromSpecImpl<Color> for SxValue {
    open spec fn obeys_from_spec() -> bool {
        true
    }

    open spec fn from_spec(value: Color) -> SxValue {
        SxValue::Color(value)
    }
}

impl Clone for SxValue {
    fn clone(&self) -> (r: SxValue)
        ensures
            r@ == self@,
        decreases self,
    {
        match self {
            SxValue::Integer(i) => SxValue::Integer(*i),
            SxValue::Float(d) => SxValue::Float(*d),
            SxValue::Percent(d) => SxValue::Percent(*d),
            SxValue::FloatDimension { value, unit } => SxValue::FloatDimension {
                value: *value,
                unit: unit.clone(),
            },
            SxValue::Dimension { value, unit } => SxValue::Dimension {
                value: *value,
                unit: unit.clone(),
            },
            SxValue::CssLiteral(s) => SxValue::CssLiteral(s.clone()),
            SxValue::String(s) => SxValue::String(s.clone()),
            SxValue::Color(c) => SxValue::Color(c.clone()),
            SxValue::ThemeToken { palette, selector } => SxValue::ThemeToken {
                palette: palette.clone(),
                selector: selector.clone(),
            },
            SxValue::ClassVar { class, var, fallback } => {
                let copy = match fallback {
                    Some(inner) => Some(Box::new((**inner).clone())),
                    None => None,
                };
                SxValue::ClassVar { class: class.clone(), var: var.clone(), fallback: copy }
            },
            SxValue::Callback(f) => SxValue::Callback(*f),
            SxValue::Nested(sx) => SxValue::Nested(sx.clone()),
        }
    }
}

impl SxValue {
    /// A reference to the variable `var` of the class `class`.
    pub fn var(class: &str, var: &str, fallback: Option<SxValue>) -> (r: SxValue)
        ensures
            r@ == (SxValueModel::ClassVar {
                class: class@,
                var: var@,
                fallback: match fallback {
                    Some(v) => Some(Box::new(v@)),
                    None => None,
                },
            }),
    {
        let boxed = match fallback {
            Some(v) => Some(Box::new(v)),
            None => None,
        };
        SxValue::ClassVar { class: class.to_owned(), var: var.to_owned(), fallback: boxed }
    }

    /// The text of the value as CSS reads it, if it has one.
    pub fn to_css(&self) -> (r: Option<String>)
        ensures
            match css_text(self@) {
                Some(text) => r matches Some(found) && found@ == text,
                None => r is None,
            },
    {
        let mut out: Vec<char> = Vec::new();
        match self {
            SxValue::Integer(i) => {
                push_int(&mut out, *i);
            },
            SxValue::Float(d) => {
                let text = d.to_string();
                push_str(&mut out, text.as_str());
            },
            SxValue::Percent(d) => {
                let text = d.to_percent_string();
                push_str(&mut out, text.as_str());
                out.push('%');
            },
            SxValue::FloatDimension { value, unit } => {
                let text = value.to_string();
                push_str(&mut out, text.as_str());
                push_str(&mut out, unit.as_str());
            },
            SxValue::Dimension { value, unit } => {
                push_int(&mut out, *value);
                push_str(&mut out, unit.as_str());
            },
            SxValue::CssLiteral(s) => {
                push_str(&mut out, s.as_str());
            },
            SxValue::String(s) => {
                out.push('"');
                push_str(&mut out, s.as_str());
                out.push('"');
            },
            SxValue::Color(c) => {
                c.write_text(&mut out);
            },
            _ => {
                return None;
            },
        }
        assert(out@ =~= css_text(self@)->0);
        Some(from_chars(&out))
    }
}

} // verus!
