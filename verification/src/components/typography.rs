//! The elements that text of each level is set in.

use vstd::prelude::*;
use crate::style::Size;
use crate::theme::typography::{TypographyLevel, TypographyLevelModel};
use crate::utils::text::str_eq;

verus! {

/// The element that text of a level is set in, unless something else is
/// asked for. Headings have elements of their own, the smallest body text
/// is a `span`, and titles and all other body text are paragraphs. Custom
/// levels and the level `*` have none.
pub open spec fn default_component(level: TypographyLevelModel) -> Option<Seq<char>> {
    match level {
        TypographyLevelModel::H1 => Some("h1"@),
        TypographyLevelModel::H2 => Some("h2"@),
        TypographyLevelModel::H3 => Some("h3"@),
        TypographyLevelModel::H4 => Some("h4"@),
        TypographyLevelModel::Title { size } => Some("p"@),
        TypographyLevelModel::Body { size } => if size == Size::Xs {
            Some("span"@)
        } else {
            Some("p"@)
        },
        _ => None,
    }
}

/// The levels that have an element, in the order of the table.
pub open spec fn mapped_levels() -> Seq<TypographyLevelModel> {
    seq![
        TypographyLevelModel::H1,
        TypographyLevelModel::H2,
        TypographyLevelModel::H3,
        TypographyLevelModel::H4,
        TypographyLevelModel::Title { size: Size::Xs },
        TypographyLevelModel::Title { size: Size::Sm },
        TypographyLevelModel::Title { size: Size::Md },
        TypographyLevelModel::Title { size: Size::Lg },
        TypographyLevelModel::Title { size: Size::Xl },
        TypographyLevelModel::Body { size: Size::Xs },
        TypographyLevelModel::Body { size: Size::Sm },
        TypographyLevelModel::Body { size: Size::Md },
        TypographyLevelModel::Body { size: Size::Lg },
        TypographyLevelModel::Body { size: Size::Xl },
    ]
}

/// The element of a level in a table of levels and elements: that of the
/// first entry from `from` on for the level.
pub open spec fn component_in(
    mapping: Seq<(TypographyLevelModel, Seq<char>)>,
    level: TypographyLevelModel,
    from: int,
) -> Option<Seq<char>>
    decreases mapping.len() - from,
{
    if from < 0 || from >= mapping.len() {
        None
    } else if mapping[from].0 == level {
        Some(mapping[from].1)
    } else {
        component_in(mapping, level, from + 1)
    }
}

/// A table of levels and elements as values.
pub open spec fn mapping_model(mapping: Seq<(TypographyLevel, String)>) -> Seq<
    (TypographyLevelModel, Seq<char>),
> {
    Seq::new(mapping.len(), |i: int| (mapping[i].0@, mapping[i].1@))
}

/// The element in which text of the level `level` is set by default.
pub fn default_element(level: &TypographyLevel) -> (r: Option<&'static str>)
    ensures
        match default_component(level@) {
            Some(name) => r matches Some(found) && found@ == name,
            None => r is None,
        },
{
    match level {
        TypographyLevel::H1 => Some("h1"),
        TypographyLevel::H2 => Some("h2"),
        TypographyLevel::H3 => Some("h3"),
        TypographyLevel::H4 => Some("h4"),
        TypographyLevel::Title { size } => Some("p"),
        TypographyLevel::Body { size } => match size {
            Size::Xs => Some("span"),
            _ => Some("p"),
        },
        _ => None,
    }
}

/// One entry of the table.
fn entry(level: TypographyLevel) -> (r: (TypographyLevel, String))
    requires
        default_component(level@) is Some,
    ensures
        r.0@ == level@,
        Some(r.1@) == default_component(level@),
{
    let name = match default_element(&level) {
        Some(name) => name,
        None => "",
    };
    (level, name.to_owned())
}

/// The table of the levels that have an element by default, each with its
/// element.
pub fn default_level_mapping() -> (r: Vec<(TypographyLevel, String)>)
    ensures
        r@.len() == mapped_levels().len(),
        forall|i: int|
            0 <= i < r@.len() ==> (#[trigger] r@[i]).0@ == mapped_levels()[i] && Some(r@[i].1@)
                == default_component(mapped_levels()[i]),
{
    let mut r: Vec<(TypographyLevel, String)> = Vec::new();
    r.push(entry(TypographyLevel::H1));
    r.push(entry(TypographyLevel::H2));
    r.push(entry(TypographyLevel::H3));
    r.push(entry(TypographyLevel::H4));
    r.push(entry(TypographyLevel::Title { size: Size::Xs }));
    r.push(entry(TypographyLevel::Title { size: Size::Sm }));
    r.push(entry(TypographyLevel::Title { size: Size::Md }));
    r.push(entry(TypographyLevel::Title { size: Size::Lg }));
    r.push(entry(TypographyLevel::Title { size: Size::Xl }));
    r.push(entry(TypographyLevel::Body { size: Size::Xs }));
    r.push(entry(TypographyLevel::Body { size: Size::Sm }));
    r.push(entry(TypographyLevel::Body { size: Size::Md }));
    r.push(entry(TypographyLevel::Body { size: Size::Lg }));
    r.push(entry(TypographyLevel::Body { size: Size::Xl }));
    r
}

/// The element for `level` in the table `mapping`.
pub fn element_for<'a>(mapping: &'a Vec<(TypographyLevel, String)>, level: &TypographyLevel) -> (r:
    Option<&'a str>)
    ensures
        match component_in(mapping_model(mapping@), level@, 0) {
            Some(name) => r matches Some(found) && found@ == name,
            None => r is None,
        },
{
    let ghost m = mapping_model(mapping@);
    let mut i: usize = 0;
    while i < mapping.len()
        invariant
            i <= mapping.len(),
            m == mapping_model(mapping@),
            component_in(m, level@, 0) == component_in(m, level@, i as int),
        decreases mapping.len() - i,
    {
        assert(m[i as int] == (mapping@[i as int].0@, mapping@[i as int].1@));
        if mapping[i].0.same(level) {
            return Some(mapping[i].1.as_str());
        }
        i += 1;
    }
    None
}

/// The element that text is set in.
///
/// It is the element that was asked for, if one was. Else it is the element
/// of the level in the table, except that text inside other text is set in a
/// `span` where the table gives a paragraph. There is none where no element
/// was asked for and the table has none for the level.
pub open spec fn element_of(
    asked: Seq<char>,
    inside_text: bool,
    level: TypographyLevelModel,
    mapping: Seq<(TypographyLevelModel, Seq<char>)>,
) -> Option<Seq<char>> {
    if asked.len() > 0 {
        Some(asked)
    } else {
        match component_in(mapping, level, 0) {
            None => None,
            Some(name) => if inside_text && name == "p"@ {
                Some("span"@)
            } else {
                Some(name)
            },
        }
    }
}

/// The element that text of the level `level` is set in, where `component`
/// is the element that was asked for, or empty, and `inside_text` says
/// whether the text stands inside other text.
pub fn choose_element(
    component: &str,
    inside_text: bool,
    level: &TypographyLevel,
    mapping: &Vec<(TypographyLevel, String)>,
) -> (r: Option<String>)
    ensures
        match element_of(component@, inside_text, level@, mapping_model(mapping@)) {
            Some(name) => r matches Some(found) && found@ == name,
            None => r is None,
        },
{
    if !component.is_empty() {
        return Some(component.to_owned());
    }
    match element_for(mapping, level) {
        None => None,
        Some(name) => {
            if inside_text && str_eq(name, "p") {
                Some("span".to_owned())
            } else {
                Some(name.to_owned())
            }
        },
    }
}

} // verus!
