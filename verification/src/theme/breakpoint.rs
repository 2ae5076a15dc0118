//! Breakpoints: named minimum widths from which media queries are made.

use vstd::prelude::*;
use vstd::std_specs::cmp::PartialEqSpecImpl;
use crate::utils::text::str_eq;

verus! {

/// A named minimum width.
#[derive(Debug)]
pub struct Breakpoint {
    abbrev: String,
    width: u16,
}

impl View for Breakpoint {
    type V = (Seq<char>, u16);

    closed spec fn view(&self) -> (Seq<char>, u16) {
        (self.abbrev@, self.width)
    }
}

impl Clone for Breakpoint {
    fn clone(&self) -> (r: Breakpoint)
        ensures
            r@ == self@,
    {
        Breakpoint { abbrev: self.abbrev.clone(), width: self.width }
    }
}

impl Breakpoint {
    /// The breakpoint called `abbrev` at `width`.
    pub fn new(abbrev: &str, width: u16) -> (b: Breakpoint)
        ensures
            b@ == (abbrev@, width),
    {
        Breakpoint { abbrev: abbrev.to_owned(), width }
    }

    /// The name by which the breakpoint is referred to.
    pub fn abbrev(&self) -> (r: &str)
        ensures
            r@ == self@.0,
    {
        self.abbrev.as_str()
    }

    /// The width of the breakpoint.
    pub fn width(&self) -> (r: u16)
        ensures
            r == self@.1,
    {
        self.width
    }

    /// The width of the breakpoint, for the caller to change. The name stays
    /// as it is.
    pub fn width_mut(&mut self) -> (r: &mut u16)
        ensures
            *r == old(self)@.1,
            final(self)@ == (old(self)@.0, *final(r)),
    {
        &mut self.width
    }
}

impl PartialEq for Breakpoint {
    /// Two breakpoints are equal when their widths are.
    fn eq(&self, other: &Breakpoint) -> (r: bool) {
        self.width == other.width
    }
}

impl PartialEqSpecImpl for Breakpoint {
    open spec fn obeys_eq_spec() -> bool {
        true
    }

    open spec fn eq_spec(&self, other: &Breakpoint) -> bool {
        self@.1 == other@.1
    }
}

/// The index of the first breakpoint from `from` on that is called `name`,
/// if there is one.
pub open spec fn index_of(points: Seq<(Seq<char>, u16)>, name: Seq<char>, from: int) -> Option<int>
    decreases points.len() - from,
{
    if from < 0 || from >= points.len() {
        None
    } else if points[from].0 == name {
        Some(from)
    } else {
        index_of(points, name, from + 1)
    }
}

/// The number of breakpoints from `from` on that are narrower than `width`,
/// counted up to the first that is not.
pub open spec fn first_not_narrower(points: Seq<(Seq<char>, u16)>, width: u16, from: int) -> int
    decreases points.len() - from,
{
    if from < 0 || from >= points.len() {
        points.len() as int
    } else if points[from].1 >= width {
        from
    } else {
        first_not_narrower(points, width, from + 1)
    }
}

/// The widths ascend strictly.
pub open spec fn ascending(points: Seq<(Seq<char>, u16)>) -> bool {
    forall|i: int, j: int|
        0 <= i < j < points.len() ==> (#[trigger] points[i]).1 < (#[trigger] points[j]).1
}

/// No name occurs twice.
pub open spec fn distinct_names(points: Seq<(Seq<char>, u16)>) -> bool {
    forall|i: int, j: int|
        0 <= i < j < points.len() ==> (#[trigger] points[i]).0 != (#[trigger] points[j]).0
}

/// What holds of every set of breakpoints: the widths ascend strictly, and
/// no name occurs twice.
pub open spec fn well_formed(points: Seq<(Seq<char>, u16)>) -> bool {
    ascending(points) && distinct_names(points)
}

/// No breakpoint is called `name`.
pub open spec fn absent(points: Seq<(Seq<char>, u16)>, name: Seq<char>) -> bool {
    forall|j: int| 0 <= j < points.len() ==> (#[trigger] points[j]).0 != name
}

/// The breakpoint called `name`, if there is one.
pub open spec fn entry_named(points: Seq<(Seq<char>, u16)>, name: Seq<char>) -> Option<
    (Seq<char>, u16),
> {
    match index_of(points, name, 0) {
        Some(i) => Some(points[i]),
        None => None,
    }
}

/// No breakpoint but the one called `name` has the width `width`.
pub open spec fn width_is_free(points: Seq<(Seq<char>, u16)>, name: Seq<char>, width: u16) -> bool {
    forall|j: int| 0 <= j < points.len() && (#[trigger] points[j]).0 != name ==> points[j].1 != width
}

/// The breakpoints after `point` has been put in: unchanged if there is a
/// breakpoint of its width already, else with `point` at its place in the
/// order of widths.
pub open spec fn with_point(points: Seq<(Seq<char>, u16)>, point: (Seq<char>, u16)) -> Seq<
    (Seq<char>, u16),
> {
    let at = first_not_narrower(points, point.1, 0);
    if at < points.len() && points[at].1 == point.1 {
        points
    } else {
        points.insert(at, point)
    }
}

/// The breakpoints after the one called `name` has been set to `width`.
///
/// Where there is a breakpoint of that name, it is taken out, given the new
/// width, and put in again; else a new breakpoint is put in. Either way the
/// breakpoint is lost if another one has that width already.
pub open spec fn with_width(points: Seq<(Seq<char>, u16)>, name: Seq<char>, width: u16) -> Seq<
    (Seq<char>, u16),
> {
    match index_of(points, name, 0) {
        Some(i) => with_point(points.remove(i), (name, width)),
        None => with_point(points, (name, width)),
    }
}

/// Names and widths as values.
pub open spec fn pairs_model(pairs: Seq<(String, u16)>) -> Seq<(Seq<char>, u16)> {
    Seq::new(pairs.len(), |i: int| (pairs[i].0@, pairs[i].1))
}

/// The breakpoints after each of `pairs` from `from` on has been set, one
/// after the other.
pub open spec fn with_widths(
    points: Seq<(Seq<char>, u16)>,
    pairs: Seq<(Seq<char>, u16)>,
    from: int,
) -> Seq<(Seq<char>, u16)>
    decreases pairs.len() - from,
{
    if from < 0 || from >= pairs.len() {
        points
    } else {
        with_widths(with_width(points, pairs[from].0, pairs[from].1), pairs, from + 1)
    }
}

/// Where the search for a name ends.
pub proof fn lemma_index_of(points: Seq<(Seq<char>, u16)>, name: Seq<char>, from: int)
    requires
        0 <= from <= points.len(),
    ensures
        match index_of(points, name, from) {
            Some(i) => from <= i < points.len() && points[i].0 == name && forall|j: int|
                from <= j < i ==> (#[trigger] points[j]).0 != name,
            None => forall|j: int| from <= j < points.len() ==> (#[trigger] points[j]).0 != name,
        },
    decreases points.len() - from,
{
    if from < points.len() && points[from].0 != name {
        lemma_index_of(points, name, from + 1);
    }
}

/// Where the search for a width ends.
pub proof fn lemma_first_not_narrower(points: Seq<(Seq<char>, u16)>, width: u16, from: int)
    requires
        0 <= from <= points.len(),
    ensures
        from <= first_not_narrower(points, width, from) <= points.len(),
        forall|j: int|
            from <= j < first_not_narrower(points, width, from) ==> (#[trigger] points[j]).1
                < width,
        first_not_narrower(points, width, from) < points.len() ==> points[first_not_narrower(
            points,
            width,
            from,
        )].1 >= width,
    decreases points.len() - from,
{
    if from < points.len() && points[from].1 < width {
        lemma_first_not_narrower(points, width, from + 1);
    }
}

/// Where no name occurs twice, a breakpoint is the one that is found by its
/// name.
pub proof fn lemma_found_by_name(points: Seq<(Seq<char>, u16)>, i: int)
    requires
        distinct_names(points),
        0 <= i < points.len(),
    ensures
        index_of(points, points[i].0, 0) == Some(i),
        entry_named(points, points[i].0) == Some(points[i]),
{
    lemma_index_of(points, points[i].0, 0);
}

/// Where no breakpoint has a name, none is found by it.
pub proof fn lemma_not_found(points: Seq<(Seq<char>, u16)>, name: Seq<char>)
    requires
        absent(points, name),
    ensures
        index_of(points, name, 0) is None,
        entry_named(points, name) is None,
{
    lemma_index_of(points, name, 0);
}

/// Taking a breakpoint out leaves its name to no breakpoint, keeps the
/// names distinct, and leaves every other name with the breakpoint that it
/// had.
pub proof fn lemma_remove_names(points: Seq<(Seq<char>, u16)>, at: int)
    requires
        distinct_names(points),
        0 <= at < points.len(),
    ensures
        distinct_names(points.remove(at)),
        absent(points.remove(at), points[at].0),
        forall|n: Seq<char>|
            n != points[at].0 ==> #[trigger] entry_named(points.remove(at), n) == entry_named(
                points,
                n,
            ),
{
    let after = points.remove(at);
    assert forall|j: int| 0 <= j < after.len() implies #[trigger] after[j] == points[if j < at {
        j
    } else {
        j + 1
    }] by {}
    assert(distinct_names(after)) by {
        assert forall|a: int, b: int| 0 <= a < b < after.len() implies (#[trigger] after[a]).0 != (
        #[trigger] after[b]).0 by {
            let pa = if a < at { a } else { a + 1 };
            let pb = if b < at { b } else { b + 1 };
            assert(after[a] == points[pa] && after[b] == points[pb]);
        }
    }
    assert(absent(after, points[at].0)) by {
        assert forall|j: int| 0 <= j < after.len() implies (#[trigger] after[j]).0
            != points[at].0 by {
            let pj = if j < at { j } else { j + 1 };
            assert(after[j] == points[pj]);
        }
    }
    assert forall|n: Seq<char>| n != points[at].0 implies #[trigger] entry_named(after, n)
        == entry_named(points, n) by {
        lemma_index_of(points, n, 0);
        match index_of(points, n, 0) {
            Some(i) => {
                let j = if i < at { i } else { i - 1 };
                assert(after[j] == points[i]);
                lemma_found_by_name(after, j);
            },
            None => {
                assert(absent(after, n)) by {
                    assert forall|j: int| 0 <= j < after.len() implies (#[trigger] after[j]).0
                        != n by {
                        let pj = if j < at { j } else { j + 1 };
                        assert(after[j] == points[pj]);
                    }
                }
                lemma_not_found(after, n);
            },
        }
    }
}

/// Putting a breakpoint with a name of its own in keeps the names distinct,
/// and leaves every other name with the breakpoint that it had. The new
/// breakpoint is found by its name, unless it was lost to a breakpoint of
/// its width.
pub proof fn lemma_with_point_names(points: Seq<(Seq<char>, u16)>, point: (Seq<char>, u16))
    requires
        distinct_names(points),
        absent(points, point.0),
    ensures
        distinct_names(with_point(points, point)),
        forall|n: Seq<char>|
            n != point.0 ==> #[trigger] entry_named(with_point(points, point), n) == entry_named(
                points,
                n,
            ),
        with_point(points, point) != points ==> entry_named(with_point(points, point), point.0)
            == Some(point) && with_point(points, point).len() == points.len() + 1,
{
    lemma_first_not_narrower(points, point.1, 0);
    let at = first_not_narrower(points, point.1, 0);
    let after = with_point(points, point);
    if !(at < points.len() && points[at].1 == point.1) {
        assert(after == points.insert(at, point));
        assert forall|j: int| 0 <= j < after.len() && j != at implies #[trigger] after[j]
            == points[if j < at {
            j
        } else {
            j - 1
        }] by {}
        assert(distinct_names(after)) by {
            assert forall|a: int, b: int| 0 <= a < b < after.len() implies (
            #[trigger] after[a]).0 != (#[trigger] after[b]).0 by {
                let pa = if a < at { a } else { a - 1 };
                let pb = if b < at { b } else { b - 1 };
                if a != at {
                    assert(after[a] == points[pa]);
                }
                if b != at {
                    assert(after[b] == points[pb]);
                }
            }
        }
        assert(after[at] == point);
        lemma_found_by_name(after, at);
        assert forall|n: Seq<char>| n != point.0 implies #[trigger] entry_named(after, n)
            == entry_named(points, n) by {
            lemma_index_of(points, n, 0);
            match index_of(points, n, 0) {
                Some(i) => {
                    let j = if i < at { i } else { i + 1 };
                    assert(after[j] == points[i]);
                    lemma_found_by_name(after, j);
                },
                None => {
                    assert(absent(after, n)) by {
                        assert forall|j: int| 0 <= j < after.len() implies (
                        #[trigger] after[j]).0 != n by {
                            let pj = if j < at { j } else { j - 1 };
                            if j != at {
                                assert(after[j] == points[pj]);
                            }
                        }
                    }
                    lemma_not_found(after, n);
                },
            }
        }
    }
}

/// What setting a width does to well-formed breakpoints.
///
/// The breakpoints stay well formed, and every other name keeps the
/// breakpoint that it had. Where no other breakpoint has the width, the
/// name has the new width afterwards, and the number of breakpoints grows by
/// one if the name is new and stays as it is if not.
pub proof fn lemma_with_width(points: Seq<(Seq<char>, u16)>, name: Seq<char>, width: u16)
    requires
        well_formed(points),
    ensures
        well_formed(with_width(points, name, width)),
        forall|n: Seq<char>|
            n != name ==> #[trigger] entry_named(with_width(points, name, width), n)
                == entry_named(points, n),
        width_is_free(points, name, width) ==> entry_named(
            with_width(points, name, width),
            name,
        ) == Some((name, width)),
        width_is_free(points, name, width) ==> with_width(points, name, width).len() == (
        if index_of(points, name, 0) is Some {
            points.len()
        } else {
            points.len() + 1
        }),
{
    lemma_index_of(points, name, 0);
    let base = match index_of(points, name, 0) {
        Some(i) => points.remove(i),
        None => points,
    };
    match index_of(points, name, 0) {
        Some(i) => {
            lemma_remove_ascending(points, i);
            lemma_remove_names(points, i);
            assert forall|j: int| 0 <= j < base.len() implies #[trigger] base[j] == points[if j
                < i {
                j
            } else {
                j + 1
            }] by {}
        },
        None => {
            assert(absent(points, name));
        },
    }
    lemma_with_point_ascending(base, (name, width));
    lemma_with_point_names(base, (name, width));
    let after = with_point(base, (name, width));
    assert(after == with_width(points, name, width));
    assert forall|n: Seq<char>| n != name implies #[trigger] entry_named(after, n) == entry_named(
        points,
        n,
    ) by {
        assert(entry_named(after, n) == entry_named(base, n));
    }
    if width_is_free(points, name, width) {
        lemma_first_not_narrower(base, width, 0);
        let at = first_not_narrower(base, width, 0);
        if at < base.len() {
            assert(base[at].0 != name);
            match index_of(points, name, 0) {
                Some(i) => {
                    let pj = if at < i { at } else { at + 1 };
                    assert(base[at] == points[pj]);
                },
                None => {},
            }
            assert(base[at].1 != width);
        }
        assert(after == base.insert(at, (name, width)));
        assert(after.len() == base.len() + 1);
        assert(after != base);
    }
}

/// Putting a breakpoint in keeps the widths ascending.
pub proof fn lemma_with_point_ascending(points: Seq<(Seq<char>, u16)>, point: (Seq<char>, u16))
    requires
        ascending(points),
    ensures
        ascending(with_point(points, point)),
{
    lemma_first_not_narrower(points, point.1, 0);
    let at = first_not_narrower(points, point.1, 0);
    if !(at < points.len() && points[at].1 == point.1) {
        let after = points.insert(at, point);
        assert forall|i: int, j: int| 0 <= i < j < after.len() implies (#[trigger] after[i]).1 < (
        #[trigger] after[j]).1 by {
            let bi = if i < at { i } else { i - 1 };
            let bj = if j < at { j } else { j - 1 };
            if i != at {
                assert(after[i] == points[bi]);
            }
            if j != at {
                assert(after[j] == points[bj]);
            }
            if i == at && j > at {
                if bj > at {
                    assert(points[at].1 < points[bj].1);
                }
            }
        }
    }
}

/// Taking a breakpoint out keeps the widths ascending.
pub proof fn lemma_remove_ascending(points: Seq<(Seq<char>, u16)>, i: int)
    requires
        ascending(points),
        0 <= i < points.len(),
    ensures
        ascending(points.remove(i)),
{
    let after = points.remove(i);
    assert forall|a: int, b: int| 0 <= a < b < after.len() implies (#[trigger] after[a]).1 < (
    #[trigger] after[b]).1 by {
        let pa = if a < i { a } else { a + 1 };
        let pb = if b < i { b } else { b + 1 };
        assert(after[a] == points[pa]);
        assert(after[b] == points[pb]);
    }
}

/// The breakpoints as names and widths.
pub open spec fn model_of(points: Seq<Breakpoint>) -> Seq<(Seq<char>, u16)> {
    Seq::new(points.len(), |i: int| points[i]@)
}

/// A set of breakpoints, in ascending order of width. No two breakpoints
/// have the same width.
#[derive(Debug, PartialEq)]
pub struct Breakpoints {
    points: Vec<Breakpoint>,
}

/// A breakpoint that has been taken out of its set to be changed. It is put
/// in again by [`BreakpointMutRef::release`].
#[derive(Debug)]
pub struct BreakpointMutRef {
    bp: Breakpoint,
}

impl View for Breakpoints {
    type V = Seq<(Seq<char>, u16)>;

    closed spec fn view(&self) -> Seq<(Seq<char>, u16)> {
        model_of(self.points@)
    }
}

impl View for BreakpointMutRef {
    type V = (Seq<char>, u16);

    closed spec fn view(&self) -> (Seq<char>, u16) {
        self.bp@
    }
}

impl Clone for Breakpoints {
    fn clone(&self) -> (r: Breakpoints)
        ensures
            r@ == self@,
            self.wf() ==> r.wf(),
    {
        let mut points: Vec<Breakpoint> = Vec::new();
        let mut i: usize = 0;
        while i < self.points.len()
            invariant
                i <= self.points.len(),
                points@.len() == i,
                forall|j: int| 0 <= j < i ==> (#[trigger] points@[j])@ == self.points@[j]@,
            decreases self.points.len() - i,
        {
            points.push(self.points[i].clone());
            i += 1;
        }
        assert(model_of(points@) =~= model_of(self.points@));
        Breakpoints { points }
    }
}

/// Puts a breakpoint among ascending breakpoints, unless one has its width.
fn put_point(points: &mut Vec<Breakpoint>, point: Breakpoint)
    requires
        ascending(model_of(old(points)@)),
    ensures
        model_of(final(points)@) == with_point(model_of(old(points)@), point@),
        ascending(model_of(final(points)@)),
{
    let ghost before = model_of(points@);
    let mut at: usize = 0;
    while at < points.len() && points[at].width < point.width
        invariant
            at <= points.len(),
            before == model_of(points@),
            first_not_narrower(before, point@.1, 0) == first_not_narrower(
                before,
                point@.1,
                at as int,
            ),
        decreases points.len() - at,
    {
        assert(before[at as int] == points@[at as int]@);
        at += 1;
    }
    proof {
        if at < points.len() {
            assert(before[at as int] == points@[at as int]@);
        }
        lemma_with_point_ascending(before, point@);
    }
    if at < points.len() && points[at].width == point.width {
        return ;
    }
    points.insert(at, point);
    assert(model_of(points@) =~= before.insert(at as int, point@));
}

impl Breakpoints {
    /// What holds of every set of breakpoints: the widths ascend strictly,
    /// and no name occurs twice.
    pub closed spec fn wf(&self) -> bool {
        well_formed(self@)
    }

    /// The widths of well-formed breakpoints ascend strictly, and their
    /// names are distinct.
    pub proof fn lemma_wf(&self)
        requires
            self.wf(),
        ensures
            ascending(self@),
            distinct_names(self@),
    {
    }

    /// No breakpoints.
    pub fn new() -> (r: Breakpoints)
        ensures
            r@ == Seq::<(Seq<char>, u16)>::empty(),
            r.wf(),
    {
        let r = Breakpoints { points: Vec::new() };
        assert(r@ =~= Seq::<(Seq<char>, u16)>::empty());
        r
    }

    /// The breakpoints that come of setting each of `pairs` in turn.
    pub fn from_pairs(pairs: &Vec<(String, u16)>) -> (r: Breakpoints)
        ensures
            r.wf(),
            r@ == with_widths(Seq::empty(), pairs_model(pairs@), 0),
    {
        let mut bp = Breakpoints::new();
        let ghost m = pairs_model(pairs@);
        let mut i: usize = 0;
        while i < pairs.len()
            invariant
                i <= pairs.len(),
                bp.wf(),
                m == pairs_model(pairs@),
                with_widths(Seq::empty(), m, 0) == with_widths(bp@, m, i as int),
            decreases pairs.len() - i,
        {
            assert(m[i as int] == (pairs@[i as int].0@, pairs@[i as int].1));
            bp.set(pairs[i].0.as_str(), pairs[i].1);
            i += 1;
        }
        bp
    }

    /// The index of the first breakpoint called `name`.
    fn find(&self, name: &str) -> (r: Option<usize>)
        ensures
            match r {
                Some(i) => index_of(self@, name@, 0) == Some(i as int) && i < self.points@.len(),
                None => index_of(self@, name@, 0) is None,
            },
    {
        let mut i: usize = 0;
        while i < self.points.len()
            invariant
                i <= self.points.len(),
                index_of(self@, name@, 0) == index_of(self@, name@, i as int),
            decreases self.points.len() - i,
        {
            assert(self@[i as int] == self.points@[i as int]@);
            if str_eq(self.points[i].abbrev.as_str(), name) {
                return Some(i);
            }
            i += 1;
        }
        None
    }

    /// Sets the width of the breakpoint called `breakpoint`, or makes a
    /// breakpoint of that name if there is none.
    ///
    /// Every other name keeps the breakpoint that it had. Where no other
    /// breakpoint has the width, the name has the new width afterwards;
    /// else the breakpoint of that name is lost.
    pub fn set(&mut self, breakpoint: &str, width: u16)
        requires
            old(self).wf(),
        ensures
            final(self).wf(),
            final(self)@ == with_width(old(self)@, breakpoint@, width),
            forall|n: Seq<char>|
                n != breakpoint@ ==> #[trigger] entry_named(final(self)@, n) == entry_named(
                    old(self)@,
                    n,
                ),
            width_is_free(old(self)@, breakpoint@, width) ==> entry_named(
                final(self)@,
                breakpoint@,
            ) == Some((breakpoint@, width)),
            width_is_free(old(self)@, breakpoint@, width) ==> final(self)@.len() == (if index_of(
                old(self)@,
                breakpoint@,
                0,
            ) is Some {
                old(self)@.len()
            } else {
                old(self)@.len() + 1
            }),
    {
        proof {
            lemma_with_width(self@, breakpoint@, width);
        }
        match self.find(breakpoint) {
            Some(i) => {
                let ghost before = self@;
                let taken = self.points.remove(i);
                proof {
                    assert(model_of(self.points@) =~= before.remove(i as int));
                    lemma_remove_ascending(before, i as int);
                    lemma_index_of(before, breakpoint@, 0);
                }
                let moved = Breakpoint { abbrev: taken.abbrev, width };
                put_point(&mut self.points, moved);
            },
            None => {
                put_point(&mut self.points, Breakpoint::new(breakpoint, width));
            },
        }
    }

    /// The breakpoint called `breakpoint`, if there is one.
    pub fn get(&self, breakpoint: &str) -> (r: Option<&Breakpoint>)
        ensures
            match index_of(self@, breakpoint@, 0) {
                Some(i) => r matches Some(b) && b@ == self@[i],
                None => r is None,
            },
            match entry_named(self@, breakpoint@) {
                Some(entry) => r matches Some(b) && b@ == entry,
                None => r is None,
            },
    {
        proof {
            lemma_index_of(self@, breakpoint@, 0);
        }
        match self.find(breakpoint) {
            Some(i) => {
                assert(self@[i as int] == self.points@[i as int]@);
                Some(&self.points[i])
            },
            None => None,
        }
    }

    /// Takes the breakpoint called `breakpoint` out of the set, for the
    /// caller to change and to put in again.
    pub fn get_mut(&mut self, breakpoint: &str) -> (r: Option<BreakpointMutRef>)
        requires
            old(self).wf(),
        ensures
            final(self).wf(),
            match index_of(old(self)@, breakpoint@, 0) {
                Some(i) => r matches Some(taken) && taken@ == old(self)@[i] && final(self)@ == old(
                    self,
                )@.remove(i),
                None => r is None && final(self)@ == old(self)@,
            },
            absent(final(self)@, breakpoint@),
            forall|n: Seq<char>|
                n != breakpoint@ ==> #[trigger] entry_named(final(self)@, n) == entry_named(
                    old(self)@,
                    n,
                ),
    {
        proof {
            lemma_index_of(self@, breakpoint@, 0);
            match index_of(self@, breakpoint@, 0) {
                Some(i) => {
                    lemma_remove_names(self@, i);
                },
                None => {},
            }
        }
        match self.find(breakpoint) {
            Some(i) => {
                let ghost before = self@;
                assert(before[i as int] == self.points@[i as int]@);
                let bp = self.points.remove(i);
                proof {
                    assert(model_of(self.points@) =~= before.remove(i as int));
                    lemma_remove_ascending(before, i as int);
                }
                Some(BreakpointMutRef { bp })
            },
            None => None,
        }
    }

    /// The breakpoints, in ascending order of width.
    pub fn points(&self) -> (r: &Vec<Breakpoint>)
        ensures
            r@.len() == self@.len(),
            forall|i: int| 0 <= i < r@.len() ==> (#[trigger] r@[i])@ == self@[i],
    {
        &self.points
    }
}

impl BreakpointMutRef {
    /// The breakpoint that was taken out.
    pub fn get(&self) -> (r: &Breakpoint)
        ensures
            r@ == self@,
    {
        &self.bp
    }

    /// The width of the breakpoint, for the caller to change.
    pub fn width_mut(&mut self) -> (r: &mut u16)
        ensures
            *r == old(self)@.1,
            final(self)@ == (old(self)@.0, *final(r)),
    {
        &mut self.bp.width
    }

    /// Puts the breakpoint into `points` again, in place of any breakpoint
    /// that has been given its name by now. It is lost if another breakpoint
    /// has its width by now.
    pub fn release(self, points: &mut Breakpoints)
        requires
            old(points).wf(),
        ensures
            final(points).wf(),
            final(points)@ == with_width(old(points)@, self@.0, self@.1),
            absent(old(points)@, self@.0) ==> final(points)@ == with_point(old(points)@, self@),
            width_is_free(old(points)@, self@.0, self@.1) ==> entry_named(final(points)@, self@.0)
                == Some(self@),
    {
        proof {
            if absent(points@, self@.0) {
                lemma_not_found(points@, self@.0);
            }
        }
        points.set(self.bp.abbrev.as_str(), self.bp.width);
    }
}

/// The breakpoints that a theme starts with.
pub open spec fn default_points() -> Seq<(Seq<char>, u16)> {
    seq![("xs"@, 0u16), ("sm"@, 600u16), ("md"@, 768u16), ("lg"@, 992u16), ("xl"@, 1200u16)]
}

/// The breakpoints that a theme starts with have five different names.
pub proof fn lemma_default_names()
    ensures
        distinct_names(default_points()),
{
    reveal_strlit("xs");
    reveal_strlit("sm");
    reveal_strlit("md");
    reveal_strlit("lg");
    reveal_strlit("xl");
    let p = default_points();
    assert(p[0].0[0] == 'x' && p[0].0[1] == 's');
    assert(p[1].0[0] == 's' && p[1].0[1] == 'm');
    assert(p[2].0[0] == 'm' && p[2].0[1] == 'd');
    assert(p[3].0[0] == 'l' && p[3].0[1] == 'g');
    assert(p[4].0[0] == 'x' && p[4].0[1] == 'l');
}

impl Default for Breakpoints {
    /// The breakpoints `xs`, `sm`, `md`, `lg` and `xl` at 0, 600, 768, 992
    /// and 1200.
    fn default() -> (r: Breakpoints)
        ensures
            r@ == default_points(),
            r.wf(),
    {
        let mut points: Vec<Breakpoint> = Vec::new();
        points.push(Breakpoint::new("xs", 0));
        points.push(Breakpoint::new("sm", 600));
        points.push(Breakpoint::new("md", 768));
        points.push(Breakpoint::new("lg", 992));
        points.push(Breakpoint::new("xl", 1200));
        assert(model_of(points@) =~= default_points());
        proof {
            lemma_default_names();
        }
        Breakpoints { points }
    }
}

} // verus!
