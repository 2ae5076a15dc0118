//! Themes: colours, gradients, breakpoints, palettes, typography and the
//! styles that refer to them.

use vstd::prelude::*;
use crate::theme::breakpoint::{default_points, Breakpoints};
use crate::theme::palette::{ColorByModeModel, Palette};
use crate::theme::sx::sx_value::SxValueModel;
use crate::theme::typography::{TypographyLevelModel, TypographyScale};
use crate::utils::text::{from_chars, push_str, str_eq};
use crate::utils::{property_name, to_property};

pub mod baseline;
pub mod breakpoint;
pub mod color;
pub mod gradient;
pub mod palette;
pub mod parsing;
pub mod sx;
pub mod theme_mode;
pub mod typography;

verus! {

/// A theme: the prefix of its names, its breakpoints, its palettes and its
/// typography.
#[derive(Debug, PartialEq)]
pub struct Theme {
    pub prefix: String,
    breakpoints: Breakpoints,
    palettes: Vec<(String, Palette)>,
    typography: TypographyScale,
}

/// The palettes as names and entries.
pub open spec fn palettes_model(palettes: Seq<(String, Palette)>) -> Seq<
    (Seq<char>, Seq<(Seq<char>, ColorByModeModel)>),
> {
    Seq::new(palettes.len(), |i: int| (palettes[i].0@, palettes[i].1@))
}

/// The index of the first palette from `from` on with the name `name`, if
/// there is one.
pub open spec fn palette_index(
    palettes: Seq<(Seq<char>, Seq<(Seq<char>, ColorByModeModel)>)>,
    name: Seq<char>,
    from: int,
) -> Option<int>
    decreases palettes.len() - from,
{
    if from < 0 || from >= palettes.len() {
        None
    } else if palettes[from].0 == name {
        Some(from)
    } else {
        palette_index(palettes, name, from + 1)
    }
}

/// No name of a palette occurs twice.
pub open spec fn unique_palettes(
    palettes: Seq<(Seq<char>, Seq<(Seq<char>, ColorByModeModel)>)>,
) -> bool {
    forall|i: int, j: int|
        0 <= i < j < palettes.len() ==> (#[trigger] palettes[i]).0 != (#[trigger] palettes[j]).0
}

/// Where the search for a palette ends.
pub proof fn lemma_palette_index(
    palettes: Seq<(Seq<char>, Seq<(Seq<char>, ColorByModeModel)>)>,
    name: Seq<char>,
    from: int,
)
    requires
        0 <= from <= palettes.len(),
    ensures
        match palette_index(palettes, name, from) {
            Some(i) => from <= i < palettes.len() && palettes[i].0 == name,
            None => forall|j: int| from <= j < palettes.len() ==> (#[trigger] palettes[j]).0 != name,
        },
    decreases palettes.len() - from,
{
    if from < palettes.len() && palettes[from].0 != name {
        lemma_palette_index(palettes, name, from + 1);
    }
}

/// Setting a palette keeps the names of the palettes distinct.
pub proof fn lemma_with_palette_unique(
    palettes: Seq<(Seq<char>, Seq<(Seq<char>, ColorByModeModel)>)>,
    name: Seq<char>,
    palette: Seq<(Seq<char>, ColorByModeModel)>,
)
    requires
        unique_palettes(palettes),
    ensures
        unique_palettes(with_palette(palettes, name, palette)),
{
    lemma_palette_index(palettes, name, 0);
    let after = with_palette(palettes, name, palette);
    assert forall|a: int, b: int| 0 <= a < b < after.len() implies (#[trigger] after[a]).0 != (
    #[trigger] after[b]).0 by {
        if a < palettes.len() {
            assert(after[a].0 == palettes[a].0);
        }
        if b < palettes.len() {
            assert(after[b].0 == palettes[b].0);
        }
    }
}

/// The palettes after the palette called `name` has been set to `palette`:
/// in place if there is a palette of that name already, else at the end.
pub open spec fn with_palette(
    palettes: Seq<(Seq<char>, Seq<(Seq<char>, ColorByModeModel)>)>,
    name: Seq<char>,
    palette: Seq<(Seq<char>, ColorByModeModel)>,
) -> Seq<(Seq<char>, Seq<(Seq<char>, ColorByModeModel)>)> {
    match palette_index(palettes, name, 0) {
        Some(i) => palettes.update(i, (name, palette)),
        None => palettes.push((name, palette)),
    }
}

/// The name of the CSS variable of the colour `selector` of the palette
/// `palette` in a theme with the prefix `prefix`.
pub open spec fn palette_var_name(prefix: Seq<char>, palette: Seq<char>, selector: Seq<char>) -> Seq<
    char,
> {
    property_name("--"@ + prefix + "-palette-"@ + palette + "-"@ + selector)
}

/// The name of the CSS variable `var` of the class `class` in a theme with
/// the prefix `prefix`.
pub open spec fn class_var_name(prefix: Seq<char>, class: Seq<char>, var: Seq<char>) -> Seq<char> {
    property_name("--"@ + prefix + "-"@ + class + "-"@ + var)
}

/// The selector of the class that every component of the system has.
pub open spec fn system_class_name(prefix: Seq<char>) -> Seq<char> {
    "."@ + prefix + "-system"@
}

/// Changing what a palette holds leaves the names of the palettes as they
/// are, and so leaves them distinct.
pub proof fn lemma_names_stay(palettes: Seq<(String, Palette)>, at: int)
    requires
        0 <= at < palettes.len(),
    ensures
        forall|p: Palette|
            unique_palettes(palettes_model(palettes)) ==> unique_palettes(
                palettes_model(#[trigger] palettes.update(at, (palettes[at].0, p))),
            ),
{
    assert forall|p: Palette| unique_palettes(palettes_model(palettes)) implies unique_palettes(
        palettes_model(#[trigger] palettes.update(at, (palettes[at].0, p))),
    ) by {
        let before = palettes_model(palettes);
        let after = palettes_model(palettes.update(at, (palettes[at].0, p)));
        assert forall|a: int, b: int| 0 <= a < b < after.len() implies (#[trigger] after[a]).0 != (
        #[trigger] after[b]).0 by {
            assert(after[a].0 == before[a].0);
            assert(after[b].0 == before[b].0);
        }
    }
}

impl Theme {
    /// The prefix of the names of the theme.
    pub closed spec fn prefix_spec(&self) -> Seq<char> {
        self.prefix@
    }

    /// The breakpoints of the theme.
    pub closed spec fn breakpoints_spec(&self) -> Seq<(Seq<char>, u16)> {
        self.breakpoints@
    }

    /// The palettes of the theme, in the order in which their names were
    /// first put in.
    pub closed spec fn palettes_spec(&self) -> Seq<(Seq<char>, Seq<(Seq<char>, ColorByModeModel)>)> {
        palettes_model(self.palettes@)
    }

    /// The typography of the theme.
    pub closed spec fn typography_spec(&self) -> Seq<
        (TypographyLevelModel, Seq<(Seq<char>, SxValueModel)>),
    > {
        self.typography@
    }

    /// What holds of every theme: the widths of its breakpoints ascend, no
    /// name of a palette occurs twice, and no level of its typography
    /// occurs twice.
    pub closed spec fn wf(&self) -> bool {
        &&& self.breakpoints.wf()
        &&& unique_palettes(palettes_model(self.palettes@))
        &&& self.typography.wf()
    }

    /// No name of a palette occurs twice in a well-formed theme.
    pub proof fn lemma_wf(&self)
        requires
            self.wf(),
        ensures
            unique_palettes(self.palettes_spec()),
    {
    }

    /// The theme with the prefix `happy`.
    pub fn new() -> (r: Theme)
        ensures
            r.wf(),
            r.prefix_spec() == "happy"@,
            r.breakpoints_spec() == default_points(),
            r.palettes_spec().len() == 0,
            r.typography_spec().len() == 0,
    {
        Theme::with_prefix("happy")
    }

    /// The theme with the prefix `prefix`, the breakpoints that every theme
    /// starts with, and neither palettes nor typography.
    pub fn with_prefix(prefix: &str) -> (r: Theme)
        ensures
            r.wf(),
            r.prefix_spec() == prefix@,
            r.breakpoints_spec() == default_points(),
            r.palettes_spec().len() == 0,
            r.typography_spec().len() == 0,
    {
        Theme {
            prefix: prefix.to_owned(),
            breakpoints: Breakpoints::default(),
            palettes: Vec::new(),
            typography: TypographyScale::default(),
        }
    }

    /// The index of the palette called `name`.
    fn find(&self, name: &str) -> (r: Option<usize>)
        ensures
            match r {
                Some(i) => palette_index(self.palettes_spec(), name@, 0) == Some(i as int) && i
                    < self.palettes@.len(),
                None => palette_index(self.palettes_spec(), name@, 0) is None,
            },
    {
        let ghost m = self.palettes_spec();
        let mut i: usize = 0;
        while i < self.palettes.len()
            invariant
                i <= self.palettes.len(),
                m == self.palettes_spec(),
                palette_index(m, name@, 0) == palette_index(m, name@, i as int),
            decreases self.palettes.len() - i,
        {
            assert(m[i as int] == (self.palettes@[i as int].0@, self.palettes@[i as int].1@));
            if str_eq(self.palettes[i].0.as_str(), name) {
                return Some(i);
            }
            i += 1;
        }
        None
    }

    /// The palette called `name`, if there is one.
    pub fn get_palette(&self, name: &str) -> (r: Option<&Palette>)
        ensures
            match palette_index(self.palettes_spec(), name@, 0) {
                Some(i) => r matches Some(p) && p@ == self.palettes_spec()[i].1,
                None => r is None,
            },
    {
        match self.find(name) {
            Some(i) => {
                assert(self.palettes_spec()[i as int] == (
                    self.palettes@[i as int].0@,
                    self.palettes@[i as int].1@,
                ));
                Some(&self.palettes[i].1)
            },
            None => None,
        }
    }

    /// The palette called `name`, for the caller to change, if there is
    /// one.
    pub fn palette_mut(&mut self, name: &str) -> (r: Option<&mut Palette>)
        ensures
            match palette_index(old(self).palettes_spec(), name@, 0) {
                Some(i) => r matches Some(p) && p@ == old(self).palettes_spec()[i].1
                    && final(self).palettes_spec() == old(self).palettes_spec().update(
                    i,
                    (old(self).palettes_spec()[i].0, final(p)@),
                ),
                None => r is None && final(self).palettes_spec() == old(self).palettes_spec(),
            },
            final(self).prefix_spec() == old(self).prefix_spec(),
            final(self).breakpoints_spec() == old(self).breakpoints_spec(),
            final(self).typography_spec() == old(self).typography_spec(),
            old(self).wf() ==> final(self).wf(),
    {
        match self.find(name) {
            Some(i) => {
                let ghost mid = self.palettes@;
                proof {
                    assert(self.palettes_spec()[i as int] == (mid[i as int].0@, mid[i as int].1@));
                    assert forall|p: Palette|
                        palettes_model(#[trigger] mid.update(i as int, (mid[i as int].0, p)))
                            =~= palettes_model(mid).update(i as int, (mid[i as int].0@, p@)) by {}
                    lemma_names_stay(mid, i as int);
                }
                Some(&mut self.palettes[i].1)
            },
            None => None,
        }
    }

    /// Sets the palette called `name` to `palette`.
    pub fn insert_palette(&mut self, name: &str, palette: Palette)
        ensures
            final(self).palettes_spec() == with_palette(old(self).palettes_spec(), name@, palette@),
            final(self).prefix_spec() == old(self).prefix_spec(),
            final(self).breakpoints_spec() == old(self).breakpoints_spec(),
            final(self).typography_spec() == old(self).typography_spec(),
            old(self).wf() ==> final(self).wf(),
    {
        let ghost before = self.palettes_spec();
        proof {
            if self.wf() {
                lemma_with_palette_unique(before, name@, palette@);
            }
        }
        match self.find(name) {
            Some(i) => {
                self.palettes[i] = (name.to_owned(), palette);
                assert(self.palettes_spec() =~= before.update(i as int, (name@, palette@)));
            },
            None => {
                self.palettes.push((name.to_owned(), palette));
                assert(self.palettes_spec() =~= before.push((name@, palette@)));
            },
        }
    }

    /// The name of the CSS variable of the colour `selector` of the palette
    /// `palette`.
    pub fn palette_var(&self, palette: &str, selector: &str) -> (r: String)
        ensures
            r@ == palette_var_name(self.prefix_spec(), palette@, selector@),
    {
        let mut out: Vec<char> = Vec::new();
        push_str(&mut out, "--");
        push_str(&mut out, self.prefix.as_str());
        push_str(&mut out, "-palette-");
        push_str(&mut out, palette);
        push_str(&mut out, "-");
        push_str(&mut out, selector);
        assert(out@ =~= "--"@ + self.prefix@ + "-palette-"@ + palette@ + "-"@ + selector@);
        let raw = from_chars(&out);
        to_property(raw.as_str())
    }

    /// The name of the CSS variable `var_name` of the class `class`.
    pub fn class_var(&self, class: &str, var_name: &str) -> (r: String)
        ensures
            r@ == class_var_name(self.prefix_spec(), class@, var_name@),
    {
        let mut out: Vec<char> = Vec::new();
        push_str(&mut out, "--");
        push_str(&mut out, self.prefix.as_str());
        push_str(&mut out, "-");
        push_str(&mut out, class);
        push_str(&mut out, "-");
        push_str(&mut out, var_name);
        assert(out@ =~= "--"@ + self.prefix@ + "-"@ + class@ + "-"@ + var_name@);
        let raw = from_chars(&out);
        to_property(raw.as_str())
    }

    /// The palettes with their names, in the order in which the names were
    /// first put in.
    pub fn palettes(&self) -> (r: &Vec<(String, Palette)>)
        ensures
            palettes_model(r@) == self.palettes_spec(),
    {
        &self.palettes
    }

    /// The breakpoints of the theme.
    pub fn breakpoints(&self) -> (r: &Breakpoints)
        ensures
            r@ == self.breakpoints_spec(),
            self.wf() ==> r.wf(),
    {
        &self.breakpoints
    }

    /// Sets the width of the breakpoint called `breakpoint`, or makes a
    /// breakpoint of that name.
    pub fn set_breakpoint(&mut self, breakpoint: &str, width: u16)
        requires
            old(self).wf(),
        ensures
            final(self).wf(),
            final(self).breakpoints_spec() == crate::theme::breakpoint::with_width(
                old(self).breakpoints_spec(),
                breakpoint@,
                width,
            ),
            final(self).prefix_spec() == old(self).prefix_spec(),
            final(self).palettes_spec() == old(self).palettes_spec(),
            final(self).typography_spec() == old(self).typography_spec(),
    {
        self.breakpoints.set(breakpoint, width);
    }

    /// The breakpoints of the theme, for the caller to change.
    pub fn breakpoints_mut(&mut self) -> (r: &mut Breakpoints)
        ensures
            r@ == old(self).breakpoints_spec(),
            old(self).wf() ==> r.wf(),
            final(self).breakpoints_spec() == final(r)@,
            old(self).wf() && final(r).wf() ==> final(self).wf(),
            final(self).prefix_spec() == old(self).prefix_spec(),
            final(self).palettes_spec() == old(self).palettes_spec(),
            final(self).typography_spec() == old(self).typography_spec(),
    {
        &mut self.breakpoints
    }

    /// The palette called `name`, for the caller to change. A palette
    /// without colours is made if there is none of that name.
    pub fn palette(&mut self, name: &str) -> (r: &mut Palette)
        ensures
            r@ == match palette_index(old(self).palettes_spec(), name@, 0) {
                Some(i) => old(self).palettes_spec()[i].1,
                None => Seq::empty(),
            },
            final(self).palettes_spec() == match palette_index(old(self).palettes_spec(), name@, 0) {
                Some(i) => old(self).palettes_spec().update(
                    i,
                    (old(self).palettes_spec()[i].0, final(r)@),
                ),
                None => old(self).palettes_spec().push((name@, final(r)@)),
            },
            final(self).prefix_spec() == old(self).prefix_spec(),
            final(self).breakpoints_spec() == old(self).breakpoints_spec(),
            final(self).typography_spec() == old(self).typography_spec(),
            old(self).wf() ==> final(self).wf(),
    {
        let ghost before = self.palettes_spec();
        proof {
            lemma_palette_index(before, name@, 0);
        }
        let at = match self.find(name) {
            Some(i) => i,
            None => {
                self.palettes.push((name.to_owned(), Palette::new()));
                assert(self.palettes_spec() =~= before.push((name@, Seq::empty())));
                proof {
                    let after = self.palettes_spec();
                    if unique_palettes(before) {
                        assert forall|a: int, b: int| 0 <= a < b < after.len() implies (
                        #[trigger] after[a]).0 != (#[trigger] after[b]).0 by {
                            assert(after[a] == before[a]);
                            if b < before.len() {
                                assert(after[b] == before[b]);
                            }
                        }
                    }
                }
                self.palettes.len() - 1
            },
        };
        let ghost mid = self.palettes@;
        proof {
            assert(self.palettes_spec()[at as int] == (mid[at as int].0@, mid[at as int].1@));
            assert forall|p: Palette|
                palettes_model(#[trigger] mid.update(at as int, (mid[at as int].0, p)))
                    =~= palettes_model(mid).update(at as int, (mid[at as int].0@, p@)) by {}
            lemma_names_stay(mid, at as int);
        }
        &mut self.palettes[at].1
    }

    /// The typography of the theme.
    pub fn typography(&self) -> (r: &TypographyScale)
        ensures
            r@ == self.typography_spec(),
            self.wf() ==> r.wf(),
    {
        &self.typography
    }

    /// The typography of the theme, for the caller to change.
    pub fn typography_mut(&mut self) -> (r: &mut TypographyScale)
        ensures
            r@ == old(self).typography_spec(),
            old(self).wf() ==> r.wf(),
            final(self).typography_spec() == final(r)@,
            final(self).prefix_spec() == old(self).prefix_spec(),
            final(self).palettes_spec() == old(self).palettes_spec(),
            final(self).breakpoints_spec() == old(self).breakpoints_spec(),
            old(self).wf() && final(r).wf() ==> final(self).wf(),
    {
        &mut self.typography
    }

    /// The selector of the class that every component of the system has.
    pub fn system_class(&self) -> (r: String)
        ensures
            r@ == system_class_name(self.prefix_spec()),
    {
        let mut out: Vec<char> = Vec::new();
        push_str(&mut out, ".");
        push_str(&mut out, self.prefix.as_str());
        push_str(&mut out, "-system");
        assert(out@ =~= system_class_name(self.prefix@));
        from_chars(&out)
    }
}

impl Clone for Theme {
    fn clone(&self) -> (r: Theme)
        ensures
            r.prefix_spec() == self.prefix_spec(),
            r.breakpoints_spec() == self.breakpoints_spec(),
            r.palettes_spec() == self.palettes_spec(),
            r.typography_spec() == self.typography_spec(),
            self.wf() ==> r.wf(),
    {
        let mut palettes: Vec<(String, Palette)> = Vec::new();
        let mut i: usize = 0;
        while i < self.palettes.len()
            invariant
                i <= self.palettes.len(),
                palettes@.len() == i,
                forall|j: int|
                    0 <= j < i ==> (#[trigger] palettes@[j]).0@ == self.palettes@[j].0@
                        && palettes@[j].1@ == self.palettes@[j].1@,
            decreases self.palettes.len() - i,
        {
            palettes.push((self.palettes[i].0.clone(), self.palettes[i].1.clone()));
            i += 1;
        }
        assert(palettes_model(palettes@) =~= palettes_model(self.palettes@));
        Theme {
            prefix: self.prefix.clone(),
            breakpoints: self.breakpoints.clone(),
            palettes,
            typography: self.typography.clone(),
        }
    }
}

} // verus!
