//! Palettes: named colours, which may differ between light and dark mode.

use vstd::prelude::*;
use indexmap::IndexMap;
use crate::theme::color::{Color, ColorModel};
use crate::theme::theme_mode::ThemeMode;
use crate::utils::text::texts;

verus! {

/// The map type of `indexmap`: a hash map that keeps its entries in the
/// order in which their keys were first put in.
#[verifier::external_type_specification]
#[verifier::external_body]
#[verifier::reject_recursive_types(K)]
#[verifier::reject_recursive_types(V)]
#[verifier::reject_recursive_types(S)]
pub struct ExIndexMap<K, V, S>(IndexMap<K, V, S>);

/// A colour of a palette: one for every mode, or one for each.
#[derive(Debug, PartialEq, Eq)]
pub enum ColorByMode {
    Constant(Color),
    ModeBased { dark: Color, light: Color },
}

/// The mathematical value of a [`ColorByMode`].
pub ghost enum ColorByModeModel {
    Constant(ColorModel),
    ModeBased { dark: ColorModel, light: ColorModel },
}

impl View for ColorByMode {
    type V = ColorByModeModel;

    open spec fn view(&self) -> ColorByModeModel {
        match self {
            ColorByMode::Constant(c) => ColorByModeModel::Constant(c@),
            ColorByMode::ModeBased { dark, light } => ColorByModeModel::ModeBased {
                dark: dark@,
                light: light@,
            },
        }
    }
}

impl Clone for ColorByMode {
    fn clone(&self) -> (r: ColorByMode)
        ensures
            r@ == self@,
    {
        match self {
            ColorByMode::Constant(c) => ColorByMode::Constant(c.clone()),
            ColorByMode::ModeBased { dark, light } => ColorByMode::ModeBased {
                dark: dark.clone(),
                light: light.clone(),
            },
        }
    }
}

/// What a map of selectors holds: its entries, in the order in which the
/// map keeps them.
pub uninterp spec fn selector_entries(map: IndexMap<String, ColorByMode>) -> Seq<
    (Seq<char>, ColorByModeModel),
>;

/// The index of the first entry from `from` on with the name `key`, if
/// there is one.
pub open spec fn selector_index(
    entries: Seq<(Seq<char>, ColorByModeModel)>,
    key: Seq<char>,
    from: int,
) -> Option<int>
    decreases entries.len() - from,
{
    if from < 0 || from >= entries.len() {
        None
    } else if entries[from].0 == key {
        Some(from)
    } else {
        selector_index(entries, key, from + 1)
    }
}

/// The entries after `key` has been set to `v`: in place if `key` is there
/// already, else at the end.
pub open spec fn with_selector(
    entries: Seq<(Seq<char>, ColorByModeModel)>,
    key: Seq<char>,
    v: ColorByModeModel,
) -> Seq<(Seq<char>, ColorByModeModel)> {
    match selector_index(entries, key, 0) {
        Some(i) => entries.update(i, (entries[i].0, v)),
        None => entries.push((key, v)),
    }
}

/// The names of the entries.
pub open spec fn selector_names(entries: Seq<(Seq<char>, ColorByModeModel)>) -> Seq<Seq<char>> {
    Seq::new(entries.len(), |i: int| entries[i].0)
}

/// Calls `IndexMap::new`, which gives a map without entries.
#[verifier::external_body]
fn map_new() -> (map: IndexMap<String, ColorByMode>)
    ensures
        selector_entries(map) == Seq::<(Seq<char>, ColorByModeModel)>::empty(),
{
    IndexMap::new()
}

/// Calls `IndexMap::insert`. Where the key is in the map already, the entry
/// keeps its key and its place and takes the new value; else the new entry
/// is put last.
#[verifier::external_body]
fn map_insert(map: &mut IndexMap<String, ColorByMode>, key: String, value: ColorByMode)
    ensures
        selector_entries(*final(map)) == with_selector(selector_entries(*old(map)), key@, value@),
{
    let _ = map.insert(key, value);
}

/// Calls `IndexMap::get`, which gives the value of the entry with the key,
/// if there is one.
#[verifier::external_body]
fn map_get<'a>(map: &'a IndexMap<String, ColorByMode>, key: &str) -> (r: Option<&'a ColorByMode>)
    ensures
        match selector_index(selector_entries(*map), key@, 0) {
            Some(i) => r matches Some(v) && v@ == selector_entries(*map)[i].1,
            None => r is None,
        },
{
    map.get(key)
}

/// Calls `IndexMap::keys`, which gives the keys in the order of the map.
#[verifier::external_body]
fn map_keys(map: &IndexMap<String, ColorByMode>) -> (r: Vec<String>)
    ensures
        texts(r@) == selector_names(selector_entries(*map)),
{
    map.keys().cloned().collect()
}

/// Calls `IndexMap::clone`, which gives a map with the same entries in the
/// same order.
#[verifier::external_body]
fn map_clone(map: &IndexMap<String, ColorByMode>) -> (r: IndexMap<String, ColorByMode>)
    ensures
        selector_entries(r) == selector_entries(*map),
{
    map.clone()
}

/// A palette: named colours, in the order in which the names were first put
/// in.
#[derive(Debug, PartialEq)]
pub struct Palette {
    selector_to_colors: IndexMap<String, ColorByMode>,
}

impl View for Palette {
    type V = Seq<(Seq<char>, ColorByModeModel)>;

    closed spec fn view(&self) -> Seq<(Seq<char>, ColorByModeModel)> {
        selector_entries(self.selector_to_colors)
    }
}

impl Clone for Palette {
    fn clone(&self) -> (r: Palette)
        ensures
            r@ == self@,
    {
        Palette { selector_to_colors: map_clone(&self.selector_to_colors) }
    }
}

impl Default for Palette {
    fn default() -> (r: Palette)
        ensures
            r@ == Seq::<(Seq<char>, ColorByModeModel)>::empty(),
    {
        Palette { selector_to_colors: map_new() }
    }
}

/// The colour that an entry of a palette has in the mode `mode`, which is
/// light or dark.
pub open spec fn color_in_mode(entry: ColorByModeModel, mode: ThemeMode) -> ColorModel {
    match entry {
        ColorByModeModel::Constant(c) => c,
        ColorByModeModel::ModeBased { dark, light } => if mode == ThemeMode::Dark {
            dark
        } else {
            light
        },
    }
}

impl Palette {
    /// The palette without colours.
    pub fn new() -> (r: Palette)
        ensures
            r@ == Seq::<(Seq<char>, ColorByModeModel)>::empty(),
    {
        Palette { selector_to_colors: map_new() }
    }

    /// Sets the colour called `key` to `val` in every mode.
    pub fn insert_constant(&mut self, key: &str, val: Color)
        ensures
            final(self)@ == with_selector(old(self)@, key@, ColorByModeModel::Constant(val@)),
    {
        map_insert(&mut self.selector_to_colors, key.to_owned(), ColorByMode::Constant(val));
    }

    /// Sets the colour called `key` to `dark` in dark mode and to `light`
    /// in light mode.
    pub fn insert_by_mode(&mut self, key: &str, dark: Color, light: Color)
        ensures
            final(self)@ == with_selector(
                old(self)@,
                key@,
                ColorByModeModel::ModeBased { dark: dark@, light: light@ },
            ),
    {
        map_insert(
            &mut self.selector_to_colors,
            key.to_owned(),
            ColorByMode::ModeBased { dark, light },
        );
    }

    /// The names of the colours, in order.
    pub fn selectors(&self) -> (r: Vec<String>)
        ensures
            texts(r@) == selector_names(self@),
    {
        map_keys(&self.selector_to_colors)
    }

    /// Whether the palette has a colour called `selector`.
    pub fn contains(&self, selector: &str) -> (r: bool)
        ensures
            r == selector_index(self@, selector@, 0) is Some,
    {
        map_get(&self.selector_to_colors, selector).is_some()
    }

    /// The colour called `selector` in the mode `mode`, if the palette has
    /// one. The mode is light or dark: the mode of the system is settled
    /// before a colour is looked up.
    pub fn select(&self, selector: &str, mode: &ThemeMode) -> (r: Option<&Color>)
        requires
            *mode != ThemeMode::System,
        ensures
            match selector_index(self@, selector@, 0) {
                Some(i) => r matches Some(c) && c@ == color_in_mode(self@[i].1, *mode),
                None => r is None,
            },
    {
        match map_get(&self.selector_to_colors, selector) {
            None => None,
            Some(ColorByMode::Constant(c)) => Some(c),
            Some(ColorByMode::ModeBased { dark, light }) => match mode {
                ThemeMode::Dark => Some(dark),
                _ => Some(light),
            },
        }
    }
}

} // verus!
