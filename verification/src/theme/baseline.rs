//! The style that every page of a theme starts with.

use vstd::prelude::*;
use crate::theme::color::{rgba_of, simple_of, Color, ColorModel};
use crate::theme::palette::{color_in_mode, selector_index, selector_names, ColorByModeModel, Palette};
use crate::theme::sx::sx_value::{Decimal, SxValue, SxValueModel};
use crate::theme::sx::{merged, with_entry, Sx};
use crate::theme::theme_mode::ThemeMode;
use crate::theme::typography::{level_name, style_at, TypographyLevelModel, TypographyScale};
use crate::theme::{palette_var_name, palettes_model, system_class_name, Theme};
use crate::utils::text::{from_chars, push_str, texts};

verus! {

/// A reference to the colour `selector` of the palette `palette`.
pub open spec fn token(palette: Seq<char>, selector: Seq<char>) -> SxValueModel {
    SxValueModel::ThemeToken { palette, selector }
}

/// A whole number of pixels.
pub open spec fn pixels(n: i32) -> SxValueModel {
    SxValueModel::Dimension { value: n, unit: "px"@ }
}

/// A tenth of an `em`.
pub open spec fn tenth_em() -> SxValueModel {
    SxValueModel::FloatDimension { value: Decimal { unscaled: 1, scale: 1 }, unit: "em"@ }
}

/// The style without properties.
pub open spec fn no_entries() -> Seq<(Seq<char>, SxValueModel)> {
    Seq::empty()
}

/// The rules for the page and its text.
pub open spec fn page_rules() -> Seq<(Seq<char>, SxValueModel)> {
    let root = with_entry(
        with_entry(no_entries(), "color"@, token("text"@, "primary"@)),
        "bgcolor"@,
        token("background"@, "body"@),
    );
    let text = with_entry(
        with_entry(
            with_entry(
                with_entry(no_entries(), "margin-block-start"@, tenth_em()),
                "margin-block-end"@,
                tenth_em(),
            ),
            "margin-inline-start"@,
            pixels(0),
        ),
        "margin-inline-end"@,
        pixels(0),
    );
    let body = with_entry(no_entries(), "margin"@, SxValueModel::Integer(0));
    with_entry(
        with_entry(
            with_entry(no_entries(), ":root, html"@, SxValueModel::Nested(root)),
            "p, span, code, h1, h2, h3, h4"@,
            SxValueModel::Nested(text),
        ),
        "body"@,
        SxValueModel::Nested(body),
    )
}

/// The rules for the components of the system: what the colour `success`
/// and the variant `outlined` look like.
pub open spec fn system_rules() -> Seq<(Seq<char>, SxValueModel)> {
    let disabled = with_entry(
        with_entry(no_entries(), "borderColor"@, token("success"@, "outlinedDisabledBorder"@)),
        "color"@,
        token("success"@, "outlinedDisabledColor"@),
    );
    let outlined_success = with_entry(
        with_entry(
            with_entry(no_entries(), "borderColor"@, token("success"@, "outlinedBorder"@)),
            "color"@,
            token("success"@, "outlinedColor"@),
        ),
        "&[disabled]"@,
        SxValueModel::Nested(disabled),
    );
    let outlined = with_entry(
        with_entry(
            with_entry(
                with_entry(
                    with_entry(no_entries(), "borderWidth"@, pixels(3)),
                    "borderStyle"@,
                    SxValueModel::CssLiteral("solid"@),
                ),
                "padding"@,
                pixels(3),
            ),
            "borderColor"@,
            SxValueModel::CssLiteral("inherit"@),
        ),
        "&[color=success]"@,
        SxValueModel::Nested(outlined_success),
    );
    let success = with_entry(no_entries(), "color"@, token("success"@, "050"@));
    with_entry(
        with_entry(no_entries(), "&[color=success]"@, SxValueModel::Nested(success)),
        "&[variant=outlined]"@,
        SxValueModel::Nested(outlined),
    )
}

/// The rules that every theme shares, with those for the components of the
/// system under the class `class`.
pub open spec fn shared_rules(class: Seq<char>) -> Seq<(Seq<char>, SxValueModel)> {
    with_entry(page_rules(), class, SxValueModel::Nested(system_rules()))
}

/// The name of the rule for the text of a level: the class of the system,
/// a full stop, and the name of the level.
pub open spec fn level_rule_name(class: Seq<char>, level: TypographyLevelModel) -> Seq<char> {
    class + "."@ + level_name(level)
}

/// The style `acc` with one rule added for each level from `from` on but
/// the level `*`: the rule is named after the level and holds the style of
/// the level, merged with the style that every level shares.
pub open spec fn with_levels_from(
    acc: Seq<(Seq<char>, SxValueModel)>,
    levels: Seq<(TypographyLevelModel, Seq<(Seq<char>, SxValueModel)>)>,
    class: Seq<char>,
    from: int,
) -> Seq<(Seq<char>, SxValueModel)>
    decreases levels.len() - from,
{
    if from < 0 || from >= levels.len() {
        acc
    } else if levels[from].0 == TypographyLevelModel::Star {
        with_levels_from(acc, levels, class, from + 1)
    } else {
        match style_at(levels, levels[from].0) {
            Some(style) => with_levels_from(
                with_entry(
                    acc,
                    level_rule_name(class, levels[from].0),
                    SxValueModel::Nested(style),
                ),
                levels,
                class,
                from + 1,
            ),
            None => with_levels_from(acc, levels, class, from + 1),
        }
    }
}

/// A colour as red, green, blue and opacity where it has these, else as it
/// is.
pub open spec fn as_rgba(c: ColorModel) -> ColorModel {
    match simple_of(c) {
        Some(simple) => ColorModel::Rgba {
            r: rgba_of(simple).0,
            g: rgba_of(simple).1,
            b: rgba_of(simple).2,
            a: rgba_of(simple).3,
        },
        None => c,
    }
}

/// The style `acc` with one variable added for each of the names `names`
/// from `from` on: the variable of the colour of that name in the palette,
/// set to the colour in the mode `mode`.
pub open spec fn with_variables_from(
    acc: Seq<(Seq<char>, SxValueModel)>,
    entries: Seq<(Seq<char>, ColorByModeModel)>,
    names: Seq<Seq<char>>,
    palette: Seq<char>,
    prefix: Seq<char>,
    mode: ThemeMode,
    from: int,
) -> Seq<(Seq<char>, SxValueModel)>
    decreases names.len() - from,
{
    if from < 0 || from >= names.len() {
        acc
    } else {
        match selector_index(entries, names[from], 0) {
            Some(i) => with_variables_from(
                with_entry(
                    acc,
                    palette_var_name(prefix, palette, names[from]),
                    SxValueModel::Color(as_rgba(color_in_mode(entries[i].1, mode))),
                ),
                entries,
                names,
                palette,
                prefix,
                mode,
                from + 1,
            ),
            None => with_variables_from(acc, entries, names, palette, prefix, mode, from + 1),
        }
    }
}

/// The rule `html` that holds the variables of a palette.
pub open spec fn palette_rule(
    entries: Seq<(Seq<char>, ColorByModeModel)>,
    palette: Seq<char>,
    prefix: Seq<char>,
    mode: ThemeMode,
) -> Seq<(Seq<char>, SxValueModel)> {
    with_entry(
        no_entries(),
        "html"@,
        SxValueModel::Nested(
            with_variables_from(
                no_entries(),
                entries,
                selector_names(entries),
                palette,
                prefix,
                mode,
                0,
            ),
        ),
    )
}

/// The style `acc` merged with the rule of each palette from `from` on.
pub open spec fn with_palettes_from(
    acc: Seq<(Seq<char>, SxValueModel)>,
    palettes: Seq<(Seq<char>, Seq<(Seq<char>, ColorByModeModel)>)>,
    prefix: Seq<char>,
    mode: ThemeMode,
    from: int,
) -> Seq<(Seq<char>, SxValueModel)>
    decreases palettes.len() - from,
{
    if from < 0 || from >= palettes.len() {
        acc
    } else {
        with_palettes_from(
            merged(acc, palette_rule(palettes[from].1, palettes[from].0, prefix, mode)),
            palettes,
            prefix,
            mode,
            from + 1,
        )
    }
}

/// The style that every page of a theme starts with: a rule for the text of
/// each level, the variables of the colours of each palette, and the rules
/// that every theme shares.
pub open spec fn baseline_style(
    prefix: Seq<char>,
    levels: Seq<(TypographyLevelModel, Seq<(Seq<char>, SxValueModel)>)>,
    palettes: Seq<(Seq<char>, Seq<(Seq<char>, ColorByModeModel)>)>,
    mode: ThemeMode,
) -> Seq<(Seq<char>, SxValueModel)> {
    merged(
        with_palettes_from(
            with_levels_from(no_entries(), levels, system_class_name(prefix), 0),
            palettes,
            prefix,
            mode,
            0,
        ),
        shared_rules(system_class_name(prefix)),
    )
}

/// A reference to the colour `selector` of the palette `palette`.
fn theme_token(palette: &str, selector: &str) -> (r: SxValue)
    ensures
        r@ == token(palette@, selector@),
{
    SxValue::ThemeToken { palette: palette.to_owned(), selector: selector.to_owned() }
}

/// A whole number of pixels.
fn pixel_value(n: i32) -> (r: SxValue)
    ensures
        r@ == pixels(n),
{
    SxValue::Dimension { value: n, unit: "px".to_owned() }
}

/// A tenth of an `em`.
fn tenth_em_value() -> (r: SxValue)
    ensures
        r@ == tenth_em(),
{
    SxValue::FloatDimension { value: Decimal { unscaled: 1, scale: 1 }, unit: "em".to_owned() }
}

/// The rules for the page and its text.
fn page_style() -> (r: Sx)
    ensures
        r@ == page_rules(),
{
    let mut root = Sx::new();
    root.insert("color", theme_token("text", "primary"));
    root.insert("bgcolor", theme_token("background", "body"));
    let mut text = Sx::new();
    text.insert("margin-block-start", tenth_em_value());
    text.insert("margin-block-end", tenth_em_value());
    text.insert("margin-inline-start", pixel_value(0));
    text.insert("margin-inline-end", pixel_value(0));
    let mut body = Sx::new();
    body.insert("margin", SxValue::Integer(0));
    let mut page = Sx::new();
    page.insert(":root, html", SxValue::Nested(root));
    page.insert("p, span, code, h1, h2, h3, h4", SxValue::Nested(text));
    page.insert("body", SxValue::Nested(body));
    page
}

/// The rules for the components of the system.
fn system_style() -> (r: Sx)
    ensures
        r@ == system_rules(),
{
    let mut disabled = Sx::new();
    disabled.insert("borderColor", theme_token("success", "outlinedDisabledBorder"));
    disabled.insert("color", theme_token("success", "outlinedDisabledColor"));
    let mut outlined_success = Sx::new();
    outlined_success.insert("borderColor", theme_token("success", "outlinedBorder"));
    outlined_success.insert("color", theme_token("success", "outlinedColor"));
    outlined_success.insert("&[disabled]", SxValue::Nested(disabled));
    let mut outlined = Sx::new();
    outlined.insert("borderWidth", pixel_value(3));
    outlined.insert("borderStyle", SxValue::CssLiteral("solid".to_owned()));
    outlined.insert("padding", pixel_value(3));
    outlined.insert("borderColor", SxValue::CssLiteral("inherit".to_owned()));
    outlined.insert("&[color=success]", SxValue::Nested(outlined_success));
    let mut success = Sx::new();
    success.insert("color", theme_token("success", "050"));
    let mut system = Sx::new();
    system.insert("&[color=success]", SxValue::Nested(success));
    system.insert("&[variant=outlined]", SxValue::Nested(outlined));
    system
}

/// Adds one rule for each level of the typography but the level `*`.
fn add_levels(emit: &mut Sx, typography: &TypographyScale, class: &str)
    ensures
        final(emit)@ == with_levels_from(old(emit)@, typography@, class@, 0),
{
    let levels = typography.levels();
    let ghost m = typography@;
    let ghost start = emit@;
    let mut i: usize = 0;
    while i < levels.len()
        invariant
            i <= levels.len(),
            m == typography@,
            m.len() == levels@.len(),
            forall|j: int| 0 <= j < levels@.len() ==> (#[trigger] levels@[j]).0@ == m[j].0,
            with_levels_from(start, m, class@, 0) == with_levels_from(emit@, m, class@, i as int),
        decreases levels.len() - i,
    {
        let level = &levels[i].0;
        if !level.same(&crate::theme::typography::TypographyLevel::Star) {
            match typography.at(level) {
                Some(style) => {
                    let mut name: Vec<char> = Vec::new();
                    push_str(&mut name, class);
                    push_str(&mut name, ".");
                    let level_text = level.to_string();
                    push_str(&mut name, level_text.as_str());
                    assert(name@ =~= level_rule_name(class@, m[i as int].0));
                    let key = from_chars(&name);
                    emit.insert(key.as_str(), SxValue::Nested(style));
                },
                None => {},
            }
        }
        i += 1;
    }
}

/// The colour as red, green, blue and opacity where it has these.
fn to_rgba_if_possible(color: &Color) -> (r: Color)
    ensures
        r@ == as_rgba(color@),
{
    match color.to_rgba_color() {
        Ok(adjusted) => adjusted,
        Err(_) => color.clone(),
    }
}

/// The variables of the colours of a palette.
fn palette_variables(theme: &Theme, name: &str, palette: &Palette, mode: &ThemeMode) -> (r: Sx)
    requires
        *mode != ThemeMode::System,
    ensures
        r@ == with_variables_from(
            no_entries(),
            palette@,
            selector_names(palette@),
            name@,
            theme.prefix_spec(),
            *mode,
            0,
        ),
{
    let names = palette.selectors();
    let ghost shown = texts(names@);
    let mut vars = Sx::new();
    let mut i: usize = 0;
    while i < names.len()
        invariant
            i <= names.len(),
            shown == texts(names@),
            shown == selector_names(palette@),
            *mode != ThemeMode::System,
            with_variables_from(
                no_entries(),
                palette@,
                shown,
                name@,
                theme.prefix_spec(),
                *mode,
                0,
            ) == with_variables_from(vars@, palette@, shown, name@, theme.prefix_spec(), *mode, i as int),
        decreases names.len() - i,
    {
        assert(shown[i as int] == names@[i as int]@);
        match palette.select(names[i].as_str(), mode) {
            Some(color) => {
                let adjusted = to_rgba_if_possible(color);
                let key = theme.palette_var(name, names[i].as_str());
                vars.insert(key.as_str(), SxValue::Color(adjusted));
            },
            None => {},
        }
        i += 1;
    }
    vars
}

/// The style that every page of the theme starts with in the mode `mode`,
/// which is light or dark.
pub fn baseline(theme: &Theme, mode: &ThemeMode) -> (r: Sx)
    requires
        *mode != ThemeMode::System,
    ensures
        r@ == baseline_style(
            theme.prefix_spec(),
            theme.typography_spec(),
            theme.palettes_spec(),
            *mode,
        ),
{
    let class = theme.system_class();
    let mut emit = Sx::new();
    add_levels(&mut emit, theme.typography(), class.as_str());
    let palettes = theme.palettes();
    let ghost m = theme.palettes_spec();
    let ghost start = emit@;
    let mut i: usize = 0;
    while i < palettes.len()
        invariant
            i <= palettes.len(),
            m == theme.palettes_spec(),
            m == palettes_model(palettes@),
            *mode != ThemeMode::System,
            with_palettes_from(start, m, theme.prefix_spec(), *mode, 0) == with_palettes_from(
                emit@,
                m,
                theme.prefix_spec(),
                *mode,
                i as int,
            ),
        decreases palettes.len() - i,
    {
        assert(m[i as int] == (palettes@[i as int].0@, palettes@[i as int].1@));
        let vars = palette_variables(theme, palettes[i].0.as_str(), &palettes[i].1, mode);
        let mut rule = Sx::new();
        rule.insert("html", SxValue::Nested(vars));
        emit = emit.merge(rule);
        i += 1;
    }
    let mut shared = page_style();
    shared.insert(class.as_str(), SxValue::Nested(system_style()));
    emit.merge(shared)
}

} // verus!
