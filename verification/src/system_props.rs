//! System properties: shorthand names for CSS properties, and their
//! translation, together with the names of breakpoints, into real property
//! names and media queries.

use vstd::prelude::*;
use crate::theme::breakpoint::{distinct_names, index_of, lemma_found_by_name, Breakpoints};
use crate::utils::text::{clone_strings, decimal_text, from_chars, push_decimal, push_str, str_eq, texts};
use crate::utils::{property_name, to_property};

verus! {

/// The shorthand names and the properties that each stands for.
pub open spec fn shorthand_table() -> Seq<(Seq<char>, Seq<Seq<char>>)> {
    seq![
        ("p"@, seq!["padding"@]),
        ("pl"@, seq!["paddingLeft"@]),
        ("pr"@, seq!["paddingRight"@]),
        ("pt"@, seq!["paddingTop"@]),
        ("pb"@, seq!["paddingBottom"@]),
        ("pX"@, seq!["margin-left"@, "margin-right"@]),
        ("pY"@, seq!["paddingTop"@, "paddingBottom"@]),
        ("bgcolor"@, seq!["backgroundColor"@]),
        ("bg"@, seq!["background"@]),
        ("marginX"@, seq!["margin-left"@, "margin-right"@]),
        ("marginY"@, seq!["margin-top"@, "margin-bottom"@]),
    ]
}

/// The properties that the first entry of `table` from `from` on with the
/// name `query` stands for, if there is one.
pub open spec fn lookup(table: Seq<(Seq<char>, Seq<Seq<char>>)>, query: Seq<char>, from: int) -> Option<
    Seq<Seq<char>>,
>
    decreases table.len() - from,
{
    if from < 0 || from >= table.len() {
        None
    } else if table[from].0 == query {
        Some(table[from].1)
    } else {
        lookup(table, query, from + 1)
    }
}

/// The media query that holds from the width `width` on.
pub open spec fn media_query(width: u16) -> Seq<char> {
    "@media (min-width: "@ + decimal_text(width as nat) + "px)"@
}

/// Each name in its normal form.
pub open spec fn property_names(names: Seq<Seq<char>>) -> Seq<Seq<char>> {
    Seq::new(names.len(), |i: int| property_name(names[i]))
}

/// What a shorthand table makes of a name: the properties that the name
/// stands for, or the name itself if it stands for none.
pub open spec fn expand(table: Seq<(Seq<char>, Seq<Seq<char>>)>, query: Seq<char>) -> Seq<Seq<char>> {
    match lookup(table, query, 0) {
        Some(names) => names,
        None => seq![query],
    }
}

/// What a shorthand table and a set of breakpoints make of a name.
///
/// A shorthand name gives the real names of the properties that it stands
/// for. The name of a breakpoint gives the media query of that breakpoint.
/// Any other name gives itself in its normal form.
pub open spec fn translate_key(
    table: Seq<(Seq<char>, Seq<Seq<char>>)>,
    breakpoints: Seq<(Seq<char>, u16)>,
    query: Seq<char>,
) -> Seq<Seq<char>> {
    match lookup(table, query, 0) {
        Some(names) => property_names(names),
        None => match index_of(breakpoints, query, 0) {
            Some(i) => seq![media_query(breakpoints[i].1)],
            None => seq![property_name(query)],
        },
    }
}

/// The name of a breakpoint that is no shorthand is translated into the
/// media query of the width of that breakpoint.
pub proof fn lemma_breakpoint_translates(
    table: Seq<(Seq<char>, Seq<Seq<char>>)>,
    breakpoints: Seq<(Seq<char>, u16)>,
    i: int,
)
    requires
        distinct_names(breakpoints),
        0 <= i < breakpoints.len(),
        lookup(table, breakpoints[i].0, 0) is None,
    ensures
        translate_key(table, breakpoints, breakpoints[i].0) == seq![
            media_query(breakpoints[i].1),
        ],
{
    lemma_found_by_name(breakpoints, i);
}

/// Something that translates the names used in styles into the names that
/// CSS knows.
pub trait CssPropertyTranslator {
    /// What the translator makes of the name `query`.
    spec fn translation(&self, query: Seq<char>) -> Seq<Seq<char>>;

    /// Translates the name `query`.
    fn translate(&self, query: &str) -> (r: Vec<String>)
        ensures
            texts(r@) == self.translation(query@),
    ;
}

/// The shorthand names for CSS properties and what they stand for.
#[derive(Debug)]
pub struct SystemProperties {
    mappings: Vec<(String, Vec<String>)>,
}

/// The entries of a table as texts.
pub open spec fn table_model(mappings: Seq<(String, Vec<String>)>) -> Seq<(Seq<char>, Seq<Seq<char>>)> {
    Seq::new(mappings.len(), |i: int| (mappings[i].0@, texts(mappings[i].1@)))
}

impl View for SystemProperties {
    type V = Seq<(Seq<char>, Seq<Seq<char>>)>;

    closed spec fn view(&self) -> Seq<(Seq<char>, Seq<Seq<char>>)> {
        table_model(self.mappings@)
    }
}

/// One entry of the shorthand table that stands for one property.
fn single(name: &str, property: &str) -> (r: (String, Vec<String>))
    ensures
        r.0@ == name@,
        texts(r.1@) == seq![property@],
{
    let mut names: Vec<String> = Vec::new();
    names.push(property.to_owned());
    assert(texts(names@) =~= seq![property@]);
    (name.to_owned(), names)
}

/// One entry of the shorthand table that stands for two properties.
fn pair(name: &str, first: &str, second: &str) -> (r: (String, Vec<String>))
    ensures
        r.0@ == name@,
        texts(r.1@) == seq![first@, second@],
{
    let mut names: Vec<String> = Vec::new();
    names.push(first.to_owned());
    names.push(second.to_owned());
    assert(texts(names@) =~= seq![first@, second@]);
    (name.to_owned(), names)
}

impl SystemProperties {
    /// The shorthand table.
    pub fn new() -> (r: SystemProperties)
        ensures
            r@ == shorthand_table(),
    {
        let mut mappings: Vec<(String, Vec<String>)> = Vec::new();
        mappings.push(single("p", "padding"));
        mappings.push(single("pl", "paddingLeft"));
        mappings.push(single("pr", "paddingRight"));
        mappings.push(single("pt", "paddingTop"));
        mappings.push(single("pb", "paddingBottom"));
        mappings.push(pair("pX", "margin-left", "margin-right"));
        mappings.push(pair("pY", "paddingTop", "paddingBottom"));
        mappings.push(single("bgcolor", "backgroundColor"));
        mappings.push(single("bg", "background"));
        mappings.push(pair("marginX", "margin-left", "margin-right"));
        mappings.push(pair("marginY", "margin-top", "margin-bottom"));
        assert(table_model(mappings@) =~= shorthand_table());
        SystemProperties { mappings }
    }

    /// The properties that the shorthand `query` stands for, if it is one.
    pub fn find(&self, query: &str) -> (r: Option<&Vec<String>>)
        ensures
            match lookup(self@, query@, 0) {
                Some(names) => r matches Some(found) && texts(found@) == names,
                None => r is None,
            },
    {
        let mut i: usize = 0;
        while i < self.mappings.len()
            invariant
                i <= self.mappings.len(),
                lookup(self@, query@, 0) == lookup(self@, query@, i as int),
            decreases self.mappings.len() - i,
        {
            assert(self@[i as int] == (self.mappings@[i as int].0@, texts(self.mappings@[i as int].1@)));
            if str_eq(self.mappings[i].0.as_str(), query) {
                return Some(&self.mappings[i].1);
            }
            i += 1;
        }
        None
    }
}

impl Clone for SystemProperties {
    fn clone(&self) -> (r: SystemProperties)
        ensures
            r@ == self@,
    {
        let mut mappings: Vec<(String, Vec<String>)> = Vec::new();
        let mut i: usize = 0;
        while i < self.mappings.len()
            invariant
                i <= self.mappings.len(),
                mappings@.len() == i,
                forall|j: int|
                    0 <= j < i ==> (#[trigger] mappings@[j]).0@ == self.mappings@[j].0@ && texts(
                        mappings@[j].1@,
                    ) == texts(self.mappings@[j].1@),
            decreases self.mappings.len() - i,
        {
            mappings.push((self.mappings[i].0.clone(), clone_strings(&self.mappings[i].1)));
            i += 1;
        }
        assert(table_model(mappings@) =~= table_model(self.mappings@));
        SystemProperties { mappings }
    }
}

impl CssPropertyTranslator for SystemProperties {
    open spec fn translation(&self, query: Seq<char>) -> Seq<Seq<char>> {
        expand(self@, query)
    }

    /// The properties that `query` stands for, or `query` itself.
    fn translate(&self, query: &str) -> (r: Vec<String>) {
        match self.find(query) {
            Some(names) => clone_strings(names),
            None => {
                let mut r: Vec<String> = Vec::new();
                r.push(query.to_owned());
                assert(texts(r@) =~= seq![query@]);
                r
            },
        }
    }
}

/// The shorthand table that every style uses.
pub fn system_properties() -> (r: SystemProperties)
    ensures
        r@ == shorthand_table(),
{
    SystemProperties::new()
}

/// Translates the names used in styles: shorthand names into property
/// names, names of breakpoints into media queries.
#[derive(Debug)]
pub struct TranslationUnit {
    props: SystemProperties,
    bps: Breakpoints,
}

impl TranslationUnit {
    /// The shorthand table that the unit translates by.
    pub closed spec fn table(&self) -> Seq<(Seq<char>, Seq<Seq<char>>)> {
        self.props@
    }

    /// The breakpoints that the unit translates by.
    pub closed spec fn breakpoints(&self) -> Seq<(Seq<char>, u16)> {
        self.bps@
    }

    /// The unit that translates by the shorthand table and by `bps`. It
    /// translates the name of each of `bps` that is no shorthand into the
    /// media query of the width of that breakpoint.
    pub fn new(bps: &Breakpoints) -> (r: TranslationUnit)
        ensures
            r.table() == shorthand_table(),
            r.breakpoints() == bps@,
            bps.wf() ==> forall|i: int|
                0 <= i < bps@.len() && lookup(shorthand_table(), (#[trigger] bps@[i]).0, 0)
                    is None ==> r.translation(bps@[i].0) == seq![media_query(bps@[i].1)],
    {
        let r = TranslationUnit { props: system_properties(), bps: bps.clone() };
        proof {
            if bps.wf() {
                bps.lemma_wf();
                assert forall|i: int|
                    0 <= i < bps@.len() && lookup(shorthand_table(), (#[trigger] bps@[i]).0, 0)
                        is None implies r.translation(bps@[i].0) == seq![
                    media_query(bps@[i].1),
                ] by {
                    lemma_breakpoint_translates(shorthand_table(), bps@, i);
                }
            }
        }
        r
    }
}

/// The media query of a breakpoint at `width`.
pub fn media_query_text(width: u16) -> (r: String)
    ensures
        r@ == media_query(width),
{
    let mut out: Vec<char> = Vec::new();
    push_str(&mut out, "@media (min-width: ");
    push_decimal(&mut out, width as u64);
    push_str(&mut out, "px)");
    assert(out@ =~= media_query(width));
    from_chars(&out)
}

impl CssPropertyTranslator for TranslationUnit {
    open spec fn translation(&self, query: Seq<char>) -> Seq<Seq<char>> {
        translate_key(self.table(), self.breakpoints(), query)
    }

    fn translate(&self, query: &str) -> (r: Vec<String>) {
        let mut r: Vec<String> = Vec::new();
        match self.props.find(query) {
            Some(names) => {
                let mut i: usize = 0;
                while i < names.len()
                    invariant
                        i <= names.len(),
                        r@.len() == i,
                        forall|j: int| 0 <= j < i ==> (#[trigger] r@[j])@ == property_name(names@[j]@),
                    decreases names.len() - i,
                {
                    r.push(to_property(names[i].as_str()));
                    i += 1;
                }
                assert(texts(r@) =~= property_names(texts(names@)));
            },
            None => match self.bps.get(query) {
                Some(bp) => {
                    r.push(media_query_text(bp.width()));
                    assert(texts(r@) =~= seq![media_query(bp@.1)]);
                },
                None => {
                    r.push(to_property(query));
                    assert(texts(r@) =~= seq![property_name(query@)]);
                },
            },
        }
        r
    }
}

} // verus!
