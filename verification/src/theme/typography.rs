//! Typography: the levels of text and the style of each level.

use vstd::prelude::*;
use vstd::std_specs::convert::FromSpecImpl;
use crate::style::{size_name, size_of, Size, UnknownSize};
use crate::theme::sx::sx_value::SxValueModel;
use crate::theme::sx::{merged, Sx};
use crate::utils::text::{from_chars, is_prefix, push_str, slice_of, starts_with, str_eq, to_chars};

verus! {

/// A level of text.
#[derive(Debug, PartialEq, Eq, Hash)]
pub enum TypographyLevel {
    H1,
    H2,
    H3,
    H4,
    Title { size: Size },
    Body { size: Size },
    Custom(String),
    /// The level whose style every other level shares.
    Star,
}

/// The mathematical value of a [`TypographyLevel`].
pub ghost enum TypographyLevelModel {
    H1,
    H2,
    H3,
    H4,
    Title { size: Size },
    Body { size: Size },
    Custom(Seq<char>),
    Star,
}

impl View for TypographyLevel {
    type V = TypographyLevelModel;

    open spec fn view(&self) -> TypographyLevelModel {
        match self {
            TypographyLevel::H1 => TypographyLevelModel::H1,
            TypographyLevel::H2 => TypographyLevelModel::H2,
            TypographyLevel::H3 => TypographyLevelModel::H3,
            TypographyLevel::H4 => TypographyLevelModel::H4,
            TypographyLevel::Title { size } => TypographyLevelModel::Title { size: *size },
            TypographyLevel::Body { size } => TypographyLevelModel::Body { size: *size },
            TypographyLevel::Custom(s) => TypographyLevelModel::Custom(s@),
            TypographyLevel::Star => TypographyLevelModel::Star,
        }
    }
}

impl Clone for TypographyLevel {
    fn clone(&self) -> (r: TypographyLevel)
        ensures
            r@ == self@,
    {
        match self {
            TypographyLevel::H1 => TypographyLevel::H1,
            TypographyLevel::H2 => TypographyLevel::H2,
            TypographyLevel::H3 => TypographyLevel::H3,
            TypographyLevel::H4 => TypographyLevel::H4,
            TypographyLevel::Title { size } => TypographyLevel::Title { size: *size },
            TypographyLevel::Body { size } => TypographyLevel::Body { size: *size },
            TypographyLevel::Custom(s) => TypographyLevel::Custom(s.clone()),
            TypographyLevel::Star => TypographyLevel::Star,
        }
    }
}

impl Default for TypographyLevel {
    fn default() -> (r: TypographyLevel)
        ensures
            r@ == (TypographyLevelModel::Body { size: Size::Md }),
    {
        TypographyLevel::Body { size: Size::Md }
    }
}

/// The name of a level: `h1` to `h4`, `title-` or `body-` with the name of
/// the size, the name of a custom level, or `*`.
pub open spec fn level_name(level: TypographyLevelModel) -> Seq<char> {
    match level {
        TypographyLevelModel::H1 => "h1"@,
        TypographyLevelModel::H2 => "h2"@,
        TypographyLevelModel::H3 => "h3"@,
        TypographyLevelModel::H4 => "h4"@,
        TypographyLevelModel::Title { size } => "title-"@ + size_name(size),
        TypographyLevelModel::Body { size } => "body-"@ + size_name(size),
        TypographyLevelModel::Custom(s) => s,
        TypographyLevelModel::Star => "*"@,
    }
}

/// The level that a name stands for. After `title-` and `body-` the name of
/// a size has to follow; anything else there is an error that carries what
/// follows. A name that is none of the names of the other levels is a custom
/// level.
pub open spec fn level_of(name: Seq<char>) -> Result<TypographyLevelModel, Seq<char>> {
    if name == "*"@ {
        Ok(TypographyLevelModel::Star)
    } else if name == "h1"@ {
        Ok(TypographyLevelModel::H1)
    } else if name == "h2"@ {
        Ok(TypographyLevelModel::H2)
    } else if name == "h3"@ {
        Ok(TypographyLevelModel::H3)
    } else if name == "h4"@ {
        Ok(TypographyLevelModel::H4)
    } else if is_prefix("title-"@, name) {
        match size_of(name.subrange("title-"@.len() as int, name.len() as int)) {
            Some(size) => Ok(TypographyLevelModel::Title { size }),
            None => Err(name.subrange("title-"@.len() as int, name.len() as int)),
        }
    } else if is_prefix("body-"@, name) {
        match size_of(name.subrange("body-"@.len() as int, name.len() as int)) {
            Some(size) => Ok(TypographyLevelModel::Body { size }),
            None => Err(name.subrange("body-"@.len() as int, name.len() as int)),
        }
    } else {
        Ok(TypographyLevelModel::Custom(name))
    }
}

/// The size that is named behind the first `skip` characters of `name`.
fn size_behind(name: &Vec<char>, skip: usize) -> (r: Result<Size, UnknownSize>)
    requires
        skip <= name.len(),
    ensures
        match size_of(name@.subrange(skip as int, name.len() as int)) {
            Some(s) => r == Ok::<Size, UnknownSize>(s),
            None => r matches Err(e) && e.0@ == name@.subrange(skip as int, name.len() as int),
        },
{
    let rest = slice_of(name, skip, name.len());
    let text = from_chars(&rest);
    Size::try_from(text.as_str())
}

impl TypographyLevel {
    /// The name of the level.
    pub fn to_string(&self) -> (r: String)
        ensures
            r@ == level_name(self@),
    {
        let mut out: Vec<char> = Vec::new();
        match self {
            TypographyLevel::H1 => {
                push_str(&mut out, "h1");
            },
            TypographyLevel::H2 => {
                push_str(&mut out, "h2");
            },
            TypographyLevel::H3 => {
                push_str(&mut out, "h3");
            },
            TypographyLevel::H4 => {
                push_str(&mut out, "h4");
            },
            TypographyLevel::Title { size } => {
                push_str(&mut out, "title-");
                push_str(&mut out, size.as_str());
            },
            TypographyLevel::Body { size } => {
                push_str(&mut out, "body-");
                push_str(&mut out, size.as_str());
            },
            TypographyLevel::Custom(s) => {
                push_str(&mut out, s.as_str());
            },
            TypographyLevel::Star => {
                push_str(&mut out, "*");
            },
        }
        assert(out@ =~= level_name(self@));
        from_chars(&out)
    }

    /// The level that `value` names.
    pub fn from_str(value: &str) -> (r: Result<TypographyLevel, UnknownSize>)
        ensures
            match level_of(value@) {
                Ok(level) => r matches Ok(found) && found@ == level,
                Err(rest) => r matches Err(e) && e.0@ == rest,
            },
    {
        if str_eq(value, "*") {
            Ok(TypographyLevel::Star)
        } else if str_eq(value, "h1") {
            Ok(TypographyLevel::H1)
        } else if str_eq(value, "h2") {
            Ok(TypographyLevel::H2)
        } else if str_eq(value, "h3") {
            Ok(TypographyLevel::H3)
        } else if str_eq(value, "h4") {
            Ok(TypographyLevel::H4)
        } else {
            let chars = to_chars(value);
            let title = to_chars("title-");
            let body = to_chars("body-");
            if starts_with(&chars, &title) {
                match size_behind(&chars, title.len()) {
                    Ok(size) => Ok(TypographyLevel::Title { size }),
                    Err(e) => Err(e),
                }
            } else if starts_with(&chars, &body) {
                match size_behind(&chars, body.len()) {
                    Ok(size) => Ok(TypographyLevel::Body { size }),
                    Err(e) => Err(e),
                }
            } else {
                Ok(TypographyLevel::Custom(value.to_owned()))
            }
        }
    }

    /// Whether two levels are the same.
    pub fn same(&self, other: &TypographyLevel) -> (r: bool)
        ensures
            r == (self@ == other@),
    {
        match (self, other) {
            (TypographyLevel::H1, TypographyLevel::H1) => true,
            (TypographyLevel::H2, TypographyLevel::H2) => true,
            (TypographyLevel::H3, TypographyLevel::H3) => true,
            (TypographyLevel::H4, TypographyLevel::H4) => true,
            (TypographyLevel::Title { size: a }, TypographyLevel::Title { size: b }) => *a == *b,
            (TypographyLevel::Body { size: a }, TypographyLevel::Body { size: b }) => *a == *b,
            (TypographyLevel::Custom(a), TypographyLevel::Custom(b)) => *a == *b,
            (TypographyLevel::Star, TypographyLevel::Star) => true,
            _ => false,
        }
    }
}

/// The style of one level of text.
#[derive(Debug, PartialEq)]
pub struct LevelScale {
    sx: Sx,
}

impl View for LevelScale {
    type V = Seq<(Seq<char>, SxValueModel)>;

    closed spec fn view(&self) -> Seq<(Seq<char>, SxValueModel)> {
        self.sx@
    }
}

impl Clone for LevelScale {
    fn clone(&self) -> (r: LevelScale)
        ensures
            r@ == self@,
    {
        LevelScale { sx: self.sx.clone() }
    }
}

impl From<Sx> for LevelScale {
    /// The level with the style `value`.
    fn from(value: Sx) -> (r: LevelScale) {
        LevelScale { sx: value }
    }
}

impl FromSpecImpl<Sx> for LevelScale {
    open spec fn obeys_from_spec() -> bool {
        true
    }

    closed spec fn from_spec(value: Sx) -> LevelScale {
        LevelScale { sx: value }
    }
}

impl LevelScale {
    /// The level with the style `sx`.
    pub fn new(sx: Sx) -> (r: LevelScale)
        ensures
            r@ == sx@,
    {
        LevelScale { sx }
    }

    /// The style of the level.
    pub fn sx(&self) -> (r: Sx)
        ensures
            r@ == self@,
    {
        self.sx.clone()
    }
}

/// The index of the first entry from `from` on for the level `level`, if
/// there is one.
pub open spec fn level_index(
    levels: Seq<(TypographyLevelModel, Seq<(Seq<char>, SxValueModel)>)>,
    level: TypographyLevelModel,
    from: int,
) -> Option<int>
    decreases levels.len() - from,
{
    if from < 0 || from >= levels.len() {
        None
    } else if levels[from].0 == level {
        Some(from)
    } else {
        level_index(levels, level, from + 1)
    }
}

/// No level occurs twice.
pub open spec fn unique_levels(
    levels: Seq<(TypographyLevelModel, Seq<(Seq<char>, SxValueModel)>)>,
) -> bool {
    forall|i: int, j: int|
        0 <= i < j < levels.len() ==> (#[trigger] levels[i]).0 != (#[trigger] levels[j]).0
}

/// Where the search for a level ends.
pub proof fn lemma_level_index(
    levels: Seq<(TypographyLevelModel, Seq<(Seq<char>, SxValueModel)>)>,
    level: TypographyLevelModel,
    from: int,
)
    requires
        0 <= from <= levels.len(),
    ensures
        match level_index(levels, level, from) {
            Some(i) => from <= i < levels.len() && levels[i].0 == level,
            None => forall|j: int| from <= j < levels.len() ==> (#[trigger] levels[j]).0 != level,
        },
    decreases levels.len() - from,
{
    if from < levels.len() && levels[from].0 != level {
        lemma_level_index(levels, level, from + 1);
    }
}

/// Giving a level a style keeps the levels distinct.
pub proof fn lemma_with_level_unique(
    levels: Seq<(TypographyLevelModel, Seq<(Seq<char>, SxValueModel)>)>,
    level: TypographyLevelModel,
    sx: Seq<(Seq<char>, SxValueModel)>,
)
    requires
        unique_levels(levels),
    ensures
        unique_levels(with_level(levels, level, sx)),
{
    lemma_level_index(levels, level, 0);
    let after = with_level(levels, level, sx);
    assert forall|a: int, b: int| 0 <= a < b < after.len() implies (#[trigger] after[a]).0 != (
    #[trigger] after[b]).0 by {
        if a < levels.len() {
            assert(after[a].0 == levels[a].0);
        }
        if b < levels.len() {
            assert(after[b].0 == levels[b].0);
        }
    }
}

/// The levels after `level` has been given the style `sx`: in place if the
/// level is there already, else at the end.
pub open spec fn with_level(
    levels: Seq<(TypographyLevelModel, Seq<(Seq<char>, SxValueModel)>)>,
    level: TypographyLevelModel,
    sx: Seq<(Seq<char>, SxValueModel)>,
) -> Seq<(TypographyLevelModel, Seq<(Seq<char>, SxValueModel)>)> {
    match level_index(levels, level, 0) {
        Some(i) => levels.update(i, (level, sx)),
        None => levels.push((level, sx)),
    }
}

/// The levels after each of `given` from `from` on has been put in, one
/// after the other.
pub open spec fn with_levels(
    levels: Seq<(TypographyLevelModel, Seq<(Seq<char>, SxValueModel)>)>,
    given: Seq<(TypographyLevelModel, Seq<(Seq<char>, SxValueModel)>)>,
    from: int,
) -> Seq<(TypographyLevelModel, Seq<(Seq<char>, SxValueModel)>)>
    decreases given.len() - from,
{
    if from < 0 || from >= given.len() {
        levels
    } else {
        with_levels(with_level(levels, given[from].0, given[from].1), given, from + 1)
    }
}

/// The style of the level `level`, merged with the style that every level
/// shares, if the level has a style.
pub open spec fn style_at(
    levels: Seq<(TypographyLevelModel, Seq<(Seq<char>, SxValueModel)>)>,
    level: TypographyLevelModel,
) -> Option<Seq<(Seq<char>, SxValueModel)>> {
    match level_index(levels, level, 0) {
        None => None,
        Some(i) => match level_index(levels, TypographyLevelModel::Star, 0) {
            None => Some(levels[i].1),
            Some(star) => Some(merged(levels[i].1, levels[star].1)),
        },
    }
}

/// The styles of the levels of text.
#[derive(Debug, PartialEq)]
pub struct TypographyScale {
    levels: Vec<(TypographyLevel, LevelScale)>,
}

/// The levels with their styles as values.
pub open spec fn scale_model(levels: Seq<(TypographyLevel, LevelScale)>) -> Seq<
    (TypographyLevelModel, Seq<(Seq<char>, SxValueModel)>),
> {
    Seq::new(levels.len(), |i: int| (levels[i].0@, levels[i].1@))
}

impl View for TypographyScale {
    type V = Seq<(TypographyLevelModel, Seq<(Seq<char>, SxValueModel)>)>;

    closed spec fn view(&self) -> Seq<(TypographyLevelModel, Seq<(Seq<char>, SxValueModel)>)> {
        scale_model(self.levels@)
    }
}

impl Clone for TypographyScale {
    fn clone(&self) -> (r: TypographyScale)
        ensures
            r@ == self@,
            self.wf() ==> r.wf(),
    {
        let mut levels: Vec<(TypographyLevel, LevelScale)> = Vec::new();
        let mut i: usize = 0;
        while i < self.levels.len()
            invariant
                i <= self.levels.len(),
                levels@.len() == i,
                forall|j: int|
                    0 <= j < i ==> (#[trigger] levels@[j]).0@ == self.levels@[j].0@ && levels@[j].1@
                        == self.levels@[j].1@,
            decreases self.levels.len() - i,
        {
            levels.push((self.levels[i].0.clone(), self.levels[i].1.clone()));
            i += 1;
        }
        assert(scale_model(levels@) =~= scale_model(self.levels@));
        TypographyScale { levels }
    }
}

impl Default for TypographyScale {
    fn default() -> (r: TypographyScale)
        ensures
            r@.len() == 0,
            r.wf(),
    {
        TypographyScale { levels: Vec::new() }
    }
}

impl TypographyScale {
    /// What holds of every scale: no level occurs twice.
    pub closed spec fn wf(&self) -> bool {
        unique_levels(self@)
    }

    /// No level occurs twice in a well-formed scale.
    pub proof fn lemma_wf(&self)
        requires
            self.wf(),
        ensures
            unique_levels(self@),
    {
    }

    /// The scale with the given levels. Where a level is given more than
    /// once, the last style counts.
    pub fn new(levels: Vec<(TypographyLevel, LevelScale)>) -> (r: TypographyScale)
        ensures
            r@ == with_levels(Seq::empty(), scale_model(levels@), 0),
            r.wf(),
    {
        let mut scale = TypographyScale { levels: Vec::new() };
        assert(scale@ =~= Seq::empty());
        let mut i: usize = 0;
        while i < levels.len()
            invariant
                i <= levels.len(),
                scale.wf(),
                with_levels(Seq::empty(), scale_model(levels@), 0) == with_levels(
                    scale@,
                    scale_model(levels@),
                    i as int,
                ),
            decreases levels.len() - i,
        {
            assert(scale_model(levels@)[i as int] == (levels@[i as int].0@, levels@[i as int].1@));
            scale.insert(levels[i].0.clone(), levels[i].1.clone());
            i += 1;
        }
        scale
    }

    /// The index of the entry for `level`.
    fn find(&self, level: &TypographyLevel) -> (r: Option<usize>)
        ensures
            match r {
                Some(i) => level_index(self@, level@, 0) == Some(i as int) && i
                    < self.levels@.len(),
                None => level_index(self@, level@, 0) is None,
            },
    {
        let mut i: usize = 0;
        while i < self.levels.len()
            invariant
                i <= self.levels.len(),
                level_index(self@, level@, 0) == level_index(self@, level@, i as int),
            decreases self.levels.len() - i,
        {
            assert(self@[i as int] == (self.levels@[i as int].0@, self.levels@[i as int].1@));
            if self.levels[i].0.same(level) {
                return Some(i);
            }
            i += 1;
        }
        None
    }

    /// The style of `level`, merged with the style of the level `*` that
    /// every level shares. The properties of the level win.
    pub fn at(&self, level: &TypographyLevel) -> (r: Option<Sx>)
        ensures
            match style_at(self@, level@) {
                Some(style) => r matches Some(found) && found@ == style,
                None => r is None,
            },
    {
        match self.scale(level) {
            None => None,
            Some(own) => {
                let sx = own.sx();
                match self.scale(&TypographyLevel::Star) {
                    None => Some(sx),
                    Some(star) => Some(sx.merge(star.sx())),
                }
            },
        }
    }

    /// The scale of `level`, if it has one.
    pub fn scale(&self, level: &TypographyLevel) -> (r: Option<&LevelScale>)
        ensures
            match level_index(self@, level@, 0) {
                Some(i) => r matches Some(found) && found@ == self@[i].1,
                None => r is None,
            },
    {
        match self.find(level) {
            Some(i) => {
                assert(self@[i as int] == (self.levels@[i as int].0@, self.levels@[i as int].1@));
                Some(&self.levels[i].1)
            },
            None => None,
        }
    }

    /// The scale of `level`, for the caller to change, if the level has
    /// one.
    pub fn scale_mut(&mut self, level: &TypographyLevel) -> (r: Option<&mut LevelScale>)
        ensures
            old(self).wf() ==> final(self).wf(),
            match level_index(old(self)@, level@, 0) {
                Some(i) => r matches Some(found) && found@ == old(self)@[i].1 && final(self)@
                    == old(self)@.update(i, (old(self)@[i].0, final(found)@)),
                None => r is None && final(self)@ == old(self)@,
            },
    {
        match self.find(level) {
            Some(i) => {
                let ghost levels = self.levels@;
                proof {
                    assert(self@[i as int] == (levels[i as int].0@, levels[i as int].1@));
                    assert forall|s: LevelScale|
                        scale_model(#[trigger] levels.update(i as int, (levels[i as int].0, s)))
                            =~= scale_model(levels).update(i as int, (levels[i as int].0@, s@)) by {}
                    assert forall|s: LevelScale|
                        unique_levels(scale_model(levels)) implies unique_levels(
                        scale_model(#[trigger] levels.update(i as int, (levels[i as int].0, s))),
                    ) by {
                        let before = scale_model(levels);
                        let after = scale_model(
                            levels.update(i as int, (levels[i as int].0, s)),
                        );
                        assert forall|a: int, b: int| 0 <= a < b < after.len() implies (
                        #[trigger] after[a]).0 != (#[trigger] after[b]).0 by {
                            assert(after[a].0 == before[a].0);
                            assert(after[b].0 == before[b].0);
                        }
                    }
                }
                Some(&mut self.levels[i].1)
            },
            None => None,
        }
    }

    /// Gives `level` the scale `level_sx`.
    pub fn insert(&mut self, level: TypographyLevel, level_sx: LevelScale)
        ensures
            final(self)@ == with_level(old(self)@, level@, level_sx@),
            old(self).wf() ==> final(self).wf(),
    {
        let ghost before = self@;
        proof {
            if self.wf() {
                lemma_with_level_unique(before, level@, level_sx@);
            }
        }
        match self.find(&level) {
            Some(i) => {
                self.levels[i] = (level, level_sx);
                assert(self@ =~= before.update(i as int, (level@, level_sx@)));
            },
            None => {
                self.levels.push((level, level_sx));
                assert(self@ =~= before.push((level@, level_sx@)));
            },
        }
    }

    /// The levels with their scales, in the order in which they were put in.
    pub fn levels(&self) -> (r: &Vec<(TypographyLevel, LevelScale)>)
        ensures
            scale_model(r@) == self@,
    {
        &self.levels
    }
}

} // verus!
