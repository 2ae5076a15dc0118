//! Themes from their definitions.
//!
//! A definition gives the prefix of a theme, its palettes and its
//! typography as plain data, the way a file would. This module makes the
//! theme of it.

use vstd::prelude::*;
use crate::theme::breakpoint::default_points;
use crate::theme::color::{Color, ColorModel, TransformColorError};
use crate::theme::gradient::{color_at, converted_points, first_unconverted, Gradient};
use crate::theme::palette::{with_selector, ColorByModeModel, Palette};
use crate::theme::sx::sx_value::{Decimal, SxValue, SxValueModel};
use crate::theme::sx::sx_value_parsing::{palette_selector, palette_selector_of};
use crate::theme::sx::{with_entry, Sx};
use crate::theme::typography::{with_level, LevelScale, TypographyLevel, TypographyLevelModel};
use crate::theme::{palette_var_name, with_palette, Theme};
use crate::utils::bounded_float::{BoundedFloat, Fraction};
use crate::utils::text::{digit_char, digit_to_char, from_chars};

verus! {

/// The colour space in which the colours of a gradient are held.
#[derive(Debug, Clone, Copy, PartialEq, Eq, Structural)]
pub enum GradientMode {
    Hsl,
    Rgb,
}

/// The definition of the gradient of a palette.
#[derive(Debug, PartialEq)]
pub struct GradientJson {
    pub points: Gradient,
    pub mode: Option<GradientMode>,
}

/// The definition of one colour of a palette.
#[derive(Debug, PartialEq, Eq)]
pub enum SelectorJson {
    Const(Color),
    DarkLight { dark: Color, light: Color },
}

/// The definition of a palette: a gradient, from which eleven colours are
/// taken, and colours of their own names.
#[derive(Debug, PartialEq)]
pub struct PaletteJson {
    pub gradient: Option<GradientJson>,
    pub selectors: Option<Vec<(String, SelectorJson)>>,
}

/// A value in the definition of a style.
#[derive(Debug, PartialEq, Eq)]
pub enum SxJsonValue {
    String(String),
    Boolean(bool),
    Int(i32),
    Float(Decimal),
    Nested(SxJson),
}

/// The definition of a style.
#[derive(Debug, PartialEq, Eq)]
pub struct SxJson {
    pub mapping: Vec<(String, SxJsonValue)>,
}

/// The definition of a theme.
#[derive(Debug, PartialEq)]
pub struct ThemeJson {
    pub prefix: Option<String>,
    pub palettes: Vec<(String, PaletteJson)>,
    pub typography: Option<Vec<(TypographyLevel, SxJson)>>,
}

/// Why a definition gives no theme.
#[derive(Debug, PartialEq, Eq)]
pub enum ThemeError {
    /// A colour of the gradient of the palette cannot be brought into the
    /// colour space that the gradient asks for.
    Color { palette: String, color: Color },
    /// The gradient of the palette has no colour at the step `step` of ten:
    /// the colours on either side cannot be interpolated.
    NoColor { palette: String, step: u8 },
}

/// The mathematical value of a [`ThemeError`].
pub ghost enum ThemeErrorModel {
    Color { palette: Seq<char>, color: ColorModel },
    NoColor { palette: Seq<char>, step: u8 },
}

impl View for ThemeError {
    type V = ThemeErrorModel;

    open spec fn view(&self) -> ThemeErrorModel {
        match self {
            ThemeError::Color { palette, color } => ThemeErrorModel::Color {
                palette: palette@,
                color: color@,
            },
            ThemeError::NoColor { palette, step } => ThemeErrorModel::NoColor {
                palette: palette@,
                step: *step,
            },
        }
    }
}

/// The mathematical value of an [`SxJsonValue`].
pub ghost enum SxJsonValueModel {
    String(Seq<char>),
    Boolean(bool),
    Int(i32),
    Float(Decimal),
    Nested(Seq<(Seq<char>, SxJsonValueModel)>),
}

impl SxJsonValue {
    /// The mathematical value of the value.
    pub open spec fn model(&self) -> SxJsonValueModel
        decreases self,
    {
        match self {
            SxJsonValue::String(s) => SxJsonValueModel::String(s@),
            SxJsonValue::Boolean(b) => SxJsonValueModel::Boolean(*b),
            SxJsonValue::Int(i) => SxJsonValueModel::Int(*i),
            SxJsonValue::Float(d) => SxJsonValueModel::Float(*d),
            SxJsonValue::Nested(n) => SxJsonValueModel::Nested(n.model()),
        }
    }
}

impl SxJson {
    /// The mathematical value of the definition: its entries in order.
    pub open spec fn model(&self) -> Seq<(Seq<char>, SxJsonValueModel)>
        decreases self,
    {
        Seq::new(
            self.mapping@.len(),
            |i: int|
                if 0 <= i < self.mapping@.len() {
                    (self.mapping@[i].0@, self.mapping@[i].1.model())
                } else {
                    (Seq::empty(), SxJsonValueModel::Boolean(false))
                },
        )
    }
}

/// The style value that a value of a definition stands for: text and truth
/// values are literals, numbers are numbers, and a nested definition is a
/// nested rule.
pub open spec fn value_of(v: SxJsonValueModel) -> SxValueModel
    decreases v, 0nat,
{
    match v {
        SxJsonValueModel::String(s) => SxValueModel::CssLiteral(s),
        SxJsonValueModel::Boolean(b) => SxValueModel::CssLiteral(
            if b {
                "true"@
            } else {
                "false"@
            },
        ),
        SxJsonValueModel::Int(i) => SxValueModel::Integer(i),
        SxJsonValueModel::Float(d) => SxValueModel::Float(d),
        SxJsonValueModel::Nested(n) => SxValueModel::Nested(style_from(n, Seq::empty(), 0)),
    }
}

/// The style `acc` with the entries of a definition from `from` on put in,
/// one after the other.
pub open spec fn style_from(
    mapping: Seq<(Seq<char>, SxJsonValueModel)>,
    acc: Seq<(Seq<char>, SxValueModel)>,
    from: int,
) -> Seq<(Seq<char>, SxValueModel)>
    decreases mapping, mapping.len() - from,
{
    if from < 0 || from >= mapping.len() {
        acc
    } else {
        style_from(
            mapping,
            with_entry(acc, mapping[from].0, value_of(mapping[from].1)),
            from + 1,
        )
    }
}

impl SxJson {
    /// The style that the definition stands for.
    pub fn to_sx(&self) -> (r: Sx)
        ensures
            r@ == style_from(self.model(), Seq::empty(), 0),
        decreases self,
    {
        let ghost m = self.model();
        let mut sx = Sx::new();
        let mut i: usize = 0;
        while i < self.mapping.len()
            invariant
                i <= self.mapping.len(),
                m == self.model(),
                style_from(m, Seq::empty(), 0) == style_from(m, sx@, i as int),
            decreases self.mapping.len() - i,
        {
            assert(m[i as int] == (self.mapping@[i as int].0@, self.mapping@[i as int].1.model()));
            let value = match &self.mapping[i].1 {
                SxJsonValue::String(s) => SxValue::CssLiteral(s.clone()),
                SxJsonValue::Boolean(b) => SxValue::CssLiteral(
                    if *b {
                        "true".to_owned()
                    } else {
                        "false".to_owned()
                    },
                ),
                SxJsonValue::Int(n) => SxValue::Integer(*n),
                SxJsonValue::Float(d) => SxValue::Float(*d),
                SxJsonValue::Nested(n) => SxValue::Nested(n.to_sx()),
            };
            assert(value@ == value_of(m[i as int].1));
            sx.insert(self.mapping[i].0.as_str(), value);
            i += 1;
        }
        sx
    }
}

/// A colour of a definition as the theme holds it: a variable whose name is
/// a reference to a colour of a palette becomes the variable of that colour.
/// Every other colour stays as it is.
pub open spec fn adjusted(c: ColorModel, prefix: Seq<char>) -> ColorModel {
    match c {
        ColorModel::Var { var, fallback } => match palette_selector(var) {
            Some((palette, selector)) => ColorModel::Var {
                var: palette_var_name(prefix, palette, selector),
                fallback,
            },
            None => c,
        },
        _ => c,
    }
}

/// The colour `color` as the theme holds it.
pub fn adjust_color(color: Color, theme: &Theme) -> (r: Color)
    ensures
        r@ == adjusted(color@, theme.prefix_spec()),
{
    match color {
        Color::Var { var, fallback } => match palette_selector_of(var.as_str()) {
            Some((palette, selector)) => Color::Var {
                var: theme.palette_var(palette.as_str(), selector.as_str()),
                fallback,
            },
            None => Color::Var { var, fallback },
        },
        other => other,
    }
}

/// The name of the colour that is taken from a gradient at the step `step`
/// of ten: ten times the step, in three digits.
pub open spec fn step_name(step: int) -> Seq<char> {
    seq![digit_char((step / 10) as nat), digit_char((step % 10) as nat), '0']
}

/// The entries `acc` with the colours of a gradient at the steps from
/// `step` to ten of ten added, each as a colour for every mode under the
/// name of its step.
pub open spec fn with_steps(
    acc: Seq<(Seq<char>, ColorByModeModel)>,
    points: Seq<(Fraction, ColorModel)>,
    palette: Seq<char>,
    step: int,
) -> Result<Seq<(Seq<char>, ColorByModeModel)>, ThemeErrorModel>
    decreases 11 - step,
{
    if step < 0 || step > 10 {
        Ok(acc)
    } else {
        match color_at(points, Fraction { num: step as i64, den: 10 }) {
            None => Err(ThemeErrorModel::NoColor { palette, step: step as u8 }),
            Some(c) => with_steps(
                with_selector(acc, step_name(step), ColorByModeModel::Constant(c)),
                points,
                palette,
                step + 1,
            ),
        }
    }
}

/// The definition of one colour as the theme holds it.
pub open spec fn selector_value(def: SelectorJson, prefix: Seq<char>) -> ColorByModeModel {
    match def {
        SelectorJson::Const(c) => ColorByModeModel::Constant(adjusted(c@, prefix)),
        SelectorJson::DarkLight { dark, light } => ColorByModeModel::ModeBased {
            dark: adjusted(dark@, prefix),
            light: adjusted(light@, prefix),
        },
    }
}

/// The entries `acc` with the colours of a definition from `from` on set.
pub open spec fn with_selectors(
    acc: Seq<(Seq<char>, ColorByModeModel)>,
    selectors: Seq<(String, SelectorJson)>,
    prefix: Seq<char>,
    from: int,
) -> Seq<(Seq<char>, ColorByModeModel)>
    decreases selectors.len() - from,
{
    if from < 0 || from >= selectors.len() {
        acc
    } else {
        with_selectors(
            with_selector(acc, selectors[from].0@, selector_value(selectors[from].1, prefix)),
            selectors,
            prefix,
            from + 1,
        )
    }
}

/// The colours that the gradient of a definition gives: none without a
/// gradient; else the colours at the eleven steps from zero to one, taken
/// after the gradient has been brought into the colour space that it asks
/// for.
pub open spec fn gradient_entries(def: &PaletteJson, palette: Seq<char>) -> Result<
    Seq<(Seq<char>, ColorByModeModel)>,
    ThemeErrorModel,
> {
    match def.gradient {
        None => Ok(Seq::empty()),
        Some(g) => match g.mode {
            None => with_steps(Seq::empty(), g.points@, palette, 0),
            Some(mode) => match first_unconverted(g.points@, 0) {
                Some(i) => Err(ThemeErrorModel::Color { palette, color: g.points@[i].1 }),
                None => with_steps(
                    Seq::empty(),
                    converted_points(g.points@, mode == GradientMode::Hsl),
                    palette,
                    0,
                ),
            },
        },
    }
}

/// The entries of the palette that a definition stands for: the colours of
/// its gradient, then the colours of their own names.
pub open spec fn palette_entries(def: &PaletteJson, palette: Seq<char>, prefix: Seq<char>) -> Result<
    Seq<(Seq<char>, ColorByModeModel)>,
    ThemeErrorModel,
> {
    match gradient_entries(def, palette) {
        Err(e) => Err(e),
        Ok(entries) => match def.selectors {
            None => Ok(entries),
            Some(selectors) => Ok(with_selectors(entries, selectors@, prefix, 0)),
        },
    }
}

/// The palettes `acc` with the palettes of the definitions from `from` on
/// set, one after the other.
pub open spec fn with_palettes(
    acc: Seq<(Seq<char>, Seq<(Seq<char>, ColorByModeModel)>)>,
    palettes: Seq<(String, PaletteJson)>,
    prefix: Seq<char>,
    from: int,
) -> Result<Seq<(Seq<char>, Seq<(Seq<char>, ColorByModeModel)>)>, ThemeErrorModel>
    decreases palettes.len() - from,
{
    if from < 0 || from >= palettes.len() {
        Ok(acc)
    } else {
        match palette_entries(&palettes[from].1, palettes[from].0@, prefix) {
            Err(e) => Err(e),
            Ok(entries) => with_palettes(
                with_palette(acc, palettes[from].0@, entries),
                palettes,
                prefix,
                from + 1,
            ),
        }
    }
}

/// The levels `acc` with the levels of a definition from `from` on set.
pub open spec fn with_typography(
    acc: Seq<(TypographyLevelModel, Seq<(Seq<char>, SxValueModel)>)>,
    levels: Seq<(TypographyLevel, SxJson)>,
    from: int,
) -> Seq<(TypographyLevelModel, Seq<(Seq<char>, SxValueModel)>)>
    decreases levels.len() - from,
{
    if from < 0 || from >= levels.len() {
        acc
    } else {
        with_typography(
            with_level(acc, levels[from].0@, style_from(levels[from].1.model(), Seq::empty(), 0)),
            levels,
            from + 1,
        )
    }
}

/// The gradients of the definition are well formed.
pub open spec fn gradients_wf(json: &ThemeJson) -> bool {
    forall|i: int|
        0 <= i < json.palettes@.len() ==> ((#[trigger] json.palettes@[i]).1.gradient matches Some(
            g,
        ) ==> g.points.wf())
}

/// The name of the colour at the step `step`.
fn step_text(step: u8) -> (r: String)
    requires
        step <= 10,
    ensures
        r@ == step_name(step as int),
{
    let mut out: Vec<char> = Vec::new();
    out.push(digit_to_char(step / 10));
    out.push(digit_to_char(step % 10));
    out.push('0');
    assert(out@ =~= step_name(step as int));
    from_chars(&out)
}

/// Adds the colours of a gradient at the eleven steps from zero to one.
fn add_steps(palette: &mut Palette, gradient: &Gradient, name: &str) -> (r: Result<(), ThemeError>)
    requires
        gradient.wf(),
    ensures
        match with_steps(old(palette)@, gradient@, name@, 0) {
            Ok(entries) => r is Ok && final(palette)@ == entries,
            Err(e) => r matches Err(x) && x@ == e,
        },
{
    let ghost start = palette@;
    let mut step: u8 = 0;
    while step <= 10
        invariant
            step <= 11,
            gradient.wf(),
            start == old(palette)@,
            with_steps(start, gradient@, name@, 0) == with_steps(
                palette@,
                gradient@,
                name@,
                step as int,
            ),
        decreases 11 - step,
    {
        let position = BoundedFloat::new(Fraction::new(step as i64, 10), 0, 1).unwrap();
        match gradient.calc_color_at(&position) {
            None => {
                return Err(ThemeError::NoColor { palette: name.to_owned(), step });
            },
            Some(color) => {
                let key = step_text(step);
                palette.insert_constant(key.as_str(), color);
            },
        }
        step += 1;
    }
    Ok(())
}

/// Sets the colours of their own names.
fn add_selectors(palette: &mut Palette, selectors: &Vec<(String, SelectorJson)>, theme: &Theme)
    ensures
        final(palette)@ == with_selectors(old(palette)@, selectors@, theme.prefix_spec(), 0),
{
    let ghost start = palette@;
    let mut i: usize = 0;
    while i < selectors.len()
        invariant
            i <= selectors.len(),
            with_selectors(start, selectors@, theme.prefix_spec(), 0) == with_selectors(
                palette@,
                selectors@,
                theme.prefix_spec(),
                i as int,
            ),
        decreases selectors.len() - i,
    {
        match &selectors[i].1 {
            SelectorJson::Const(c) => {
                let color = adjust_color(c.clone(), theme);
                palette.insert_constant(selectors[i].0.as_str(), color);
            },
            SelectorJson::DarkLight { dark, light } => {
                let dark = adjust_color(dark.clone(), theme);
                let light = adjust_color(light.clone(), theme);
                palette.insert_by_mode(selectors[i].0.as_str(), dark, light);
            },
        }
        i += 1;
    }
}

/// The palette that a definition stands for.
pub fn palette_of(def: &PaletteJson, name: &str, theme: &Theme) -> (r: Result<Palette, ThemeError>)
    requires
        def.gradient matches Some(g) ==> g.points.wf(),
    ensures
        match palette_entries(def, name@, theme.prefix_spec()) {
            Ok(entries) => r matches Ok(p) && p@ == entries,
            Err(e) => r matches Err(x) && x@ == e,
        },
{
    let mut palette = Palette::new();
    match &def.gradient {
        None => {},
        Some(g) => {
            let added = match g.mode {
                None => add_steps(&mut palette, &g.points, name),
                Some(mode) => {
                    let hsl = match mode {
                        GradientMode::Hsl => true,
                        GradientMode::Rgb => false,
                    };
                    match g.points.converted(hsl) {
                        Err(TransformColorError::NonEligibleColor(color)) => {
                            return Err(ThemeError::Color { palette: name.to_owned(), color });
                        },
                        Ok(converted) => add_steps(&mut palette, &converted, name),
                    }
                },
            };
            match added {
                Err(e) => {
                    return Err(e);
                },
                Ok(()) => {},
            }
        },
    }
    match &def.selectors {
        None => {},
        Some(selectors) => {
            add_selectors(&mut palette, selectors, theme);
        },
    }
    Ok(palette)
}

/// The prefix of the theme that a definition stands for: its own, or
/// `happy` if it has none.
pub open spec fn prefix_of(json: &ThemeJson) -> Seq<char> {
    match json.prefix {
        Some(p) => p@,
        None => "happy"@,
    }
}

/// The typography of the theme that a definition stands for.
pub open spec fn typography_of(json: &ThemeJson) -> Seq<
    (TypographyLevelModel, Seq<(Seq<char>, SxValueModel)>),
> {
    match json.typography {
        Some(levels) => with_typography(Seq::empty(), levels@, 0),
        None => Seq::empty(),
    }
}

/// The theme that a definition stands for.
///
/// The theme has the prefix of the definition, or `happy`; the breakpoints
/// that every theme starts with; the style of each level of the typography;
/// and the palettes, each with the eleven colours of its gradient under the
/// names `000`, `010` to `100` and then the colours of their own names.
pub fn from_theme_json(json: &ThemeJson) -> (r: Result<Theme, ThemeError>)
    requires
        gradients_wf(json),
    ensures
        match with_palettes(Seq::empty(), json.palettes@, prefix_of(json), 0) {
            Err(e) => r matches Err(x) && x@ == e,
            Ok(palettes) => r matches Ok(theme) && theme.wf() && theme.prefix_spec() == prefix_of(
                json,
            ) && theme.breakpoints_spec() == default_points() && theme.palettes_spec() == palettes
                && theme.typography_spec() == typography_of(json),
        },
{
    let mut theme = match &json.prefix {
        Some(prefix) => Theme::with_prefix(prefix.as_str()),
        None => Theme::new(),
    };
    assert(theme.palettes_spec() =~= Seq::empty());
    assert(theme.typography_spec() =~= Seq::empty());
    match &json.typography {
        None => {},
        Some(levels) => {
            let mut i: usize = 0;
            while i < levels.len()
                invariant
                    i <= levels.len(),
                    theme.wf(),
                    theme.prefix_spec() == prefix_of(json),
                    theme.breakpoints_spec() == default_points(),
                    theme.palettes_spec() == Seq::<
                        (Seq<char>, Seq<(Seq<char>, ColorByModeModel)>),
                    >::empty(),
                    with_typography(Seq::empty(), levels@, 0) == with_typography(
                        theme.typography_spec(),
                        levels@,
                        i as int,
                    ),
                decreases levels.len() - i,
            {
                let style = levels[i].1.to_sx();
                let scale = LevelScale::new(style);
                theme.typography_mut().insert(levels[i].0.clone(), scale);
                i += 1;
            }
        },
    }
    let mut k: usize = 0;
    while k < json.palettes.len()
        invariant
            k <= json.palettes.len(),
            gradients_wf(json),
            theme.wf(),
            theme.prefix_spec() == prefix_of(json),
            theme.breakpoints_spec() == default_points(),
            theme.typography_spec() == typography_of(json),
            with_palettes(Seq::empty(), json.palettes@, prefix_of(json), 0) == with_palettes(
                theme.palettes_spec(),
                json.palettes@,
                prefix_of(json),
                k as int,
            ),
        decreases json.palettes.len() - k,
    {
        let name = json.palettes[k].0.as_str();
        let palette = match palette_of(&json.palettes[k].1, name, &theme) {
            Ok(p) => p,
            Err(e) => {
                return Err(e);
            },
        };
        theme.insert_palette(name, palette);
        k += 1;
    }
    Ok(theme)
}

} // verus!
