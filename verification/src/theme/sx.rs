//! Styles: ordered mappings from property names to style values.

use vstd::prelude::*;
use crate::system_props::{expand, shorthand_table, system_properties, CssPropertyTranslator};
use crate::theme::sx::sx_value::{SxValue, SxValueModel};
use crate::utils::text::str_eq;
use crate::utils::{property_name, to_property};

pub mod sx_to_css;
pub mod sx_value;
pub mod sx_value_parsing;

verus! {

/// A style: property names with their values, in the order in which they
/// were put in. No name occurs twice.
#[derive(Debug, PartialEq)]
pub struct Sx {
    pub(crate) props: Vec<(String, SxValue)>,
}

impl Sx {
    /// The mathematical value of the style: its entries in order.
    pub closed spec fn model(&self) -> Seq<(Seq<char>, SxValueModel)>
        decreases self,
    {
        Seq::new(
            self.props@.len(),
            |i: int|
                if 0 <= i < self.props@.len() {
                    (self.props@[i].0@, self.props@[i].1.model())
                } else {
                    (Seq::empty(), SxValueModel::Integer(0))
                },
        )
    }
}

impl View for Sx {
    type V = Seq<(Seq<char>, SxValueModel)>;

    open spec fn view(&self) -> Seq<(Seq<char>, SxValueModel)> {
        self.model()
    }
}

/// The index of the first entry from `from` on with the name `key`, if
/// there is one.
pub open spec fn key_index(m: Seq<(Seq<char>, SxValueModel)>, key: Seq<char>, from: int) -> Option<int>
    decreases m.len() - from,
{
    if from < 0 || from >= m.len() {
        None
    } else if m[from].0 == key {
        Some(from)
    } else {
        key_index(m, key, from + 1)
    }
}

/// No name occurs twice.
pub open spec fn unique_keys(m: Seq<(Seq<char>, SxValueModel)>) -> bool {
    forall|i: int, j: int| 0 <= i < j < m.len() ==> (#[trigger] m[i]).0 != (#[trigger] m[j]).0
}

/// The entries after `key` has been set to `v`: in place if `key` is there
/// already, else at the end.
pub open spec fn put(m: Seq<(Seq<char>, SxValueModel)>, key: Seq<char>, v: SxValueModel) -> Seq<
    (Seq<char>, SxValueModel),
> {
    match key_index(m, key, 0) {
        Some(i) => m.update(i, (key, v)),
        None => m.push((key, v)),
    }
}

/// The entries after each of `keys` from `from` on has been set to `v`, one
/// after the other.
pub open spec fn put_all(
    m: Seq<(Seq<char>, SxValueModel)>,
    keys: Seq<Seq<char>>,
    v: SxValueModel,
    from: int,
) -> Seq<(Seq<char>, SxValueModel)>
    decreases keys.len() - from,
{
    if from < 0 || from >= keys.len() {
        m
    } else {
        put_all(put(m, keys[from], v), keys, v, from + 1)
    }
}

/// The names under which a value is stored when it is put in under `key`:
/// the properties that `key` stands for if it is a shorthand, else `key`,
/// each in its normal form.
pub open spec fn stored_names(key: Seq<char>) -> Seq<Seq<char>> {
    crate::system_props::property_names(expand(shorthand_table(), key))
}

/// The entries after a value has been put in under `key`, as
/// [`Sx::insert`] does it.
pub open spec fn with_entry(m: Seq<(Seq<char>, SxValueModel)>, key: Seq<char>, v: SxValueModel) -> Seq<
    (Seq<char>, SxValueModel),
> {
    put_all(m, stored_names(key), v, 0)
}

/// The entries of `acc` merged with the entries of `b` from `j` on.
///
/// An entry of `b` whose name `acc` does not have is added at the end. Where
/// `acc` has the name and both values are nested rules, the two rules are
/// merged in the same way. In every other case the value of `acc` stays.
pub open spec fn merged_from(
    acc: Seq<(Seq<char>, SxValueModel)>,
    b: Seq<(Seq<char>, SxValueModel)>,
    j: int,
) -> Seq<(Seq<char>, SxValueModel)>
    decreases b, b.len() - j,
{
    if j < 0 || j >= b.len() {
        acc
    } else {
        let next = match key_index(acc, b[j].0, 0) {
            None => acc.push(b[j]),
            Some(i) => match (acc[i].1, b[j].1) {
                (SxValueModel::Nested(x), SxValueModel::Nested(y)) => acc.update(
                    i,
                    (acc[i].0, SxValueModel::Nested(merged_from(x, y, 0))),
                ),
                _ => acc,
            },
        };
        merged_from(next, b, j + 1)
    }
}

/// The style `a` merged with the style `b`: the values of `a` win, except
/// that nested rules of the same name are merged.
pub open spec fn merged(a: Seq<(Seq<char>, SxValueModel)>, b: Seq<(Seq<char>, SxValueModel)>) -> Seq<
    (Seq<char>, SxValueModel),
> {
    merged_from(a, b, 0)
}

/// Where the search for a name ends.
pub proof fn lemma_key_index(m: Seq<(Seq<char>, SxValueModel)>, key: Seq<char>, from: int)
    requires
        0 <= from <= m.len(),
    ensures
        match key_index(m, key, from) {
            Some(i) => from <= i < m.len() && m[i].0 == key && forall|j: int|
                from <= j < i ==> (#[trigger] m[j]).0 != key,
            None => forall|j: int| from <= j < m.len() ==> (#[trigger] m[j]).0 != key,
        },
    decreases m.len() - from,
{
    if from < m.len() && m[from].0 != key {
        lemma_key_index(m, key, from + 1);
    }
}

/// Setting a name keeps the names distinct.
pub proof fn lemma_put_unique(m: Seq<(Seq<char>, SxValueModel)>, key: Seq<char>, v: SxValueModel)
    requires
        unique_keys(m),
    ensures
        unique_keys(put(m, key, v)),
{
    lemma_key_index(m, key, 0);
    let after = put(m, key, v);
    match key_index(m, key, 0) {
        Some(i) => {
            assert forall|a: int, b: int| 0 <= a < b < after.len() implies (#[trigger] after[a]).0 != (
            #[trigger] after[b]).0 by {
                assert(after[a].0 == m[a].0);
                assert(after[b].0 == m[b].0);
            }
        },
        None => {
            assert forall|a: int, b: int| 0 <= a < b < after.len() implies (#[trigger] after[a]).0 != (
            #[trigger] after[b]).0 by {
                assert(after[a] == m[a]);
                if b < m.len() {
                    assert(after[b] == m[b]);
                }
            }
        },
    }
}

/// Merging keeps the names distinct.
pub proof fn lemma_merged_unique(
    acc: Seq<(Seq<char>, SxValueModel)>,
    b: Seq<(Seq<char>, SxValueModel)>,
    j: int,
)
    requires
        unique_keys(acc),
        0 <= j <= b.len(),
    ensures
        unique_keys(merged_from(acc, b, j)),
    decreases b.len() - j,
{
    if j < b.len() {
        lemma_key_index(acc, b[j].0, 0);
        let next = match key_index(acc, b[j].0, 0) {
            None => acc.push(b[j]),
            Some(i) => match (acc[i].1, b[j].1) {
                (SxValueModel::Nested(x), SxValueModel::Nested(y)) => acc.update(
                    i,
                    (acc[i].0, SxValueModel::Nested(merged_from(x, y, 0))),
                ),
                _ => acc,
            },
        };
        assert forall|a: int, c: int| 0 <= a < c < next.len() implies (#[trigger] next[a]).0 != (
        #[trigger] next[c]).0 by {
            if a < acc.len() {
                assert(next[a].0 == acc[a].0);
            }
            if c < acc.len() {
                assert(next[c].0 == acc[c].0);
            }
        }
        lemma_merged_unique(next, b, j + 1);
    }
}

/// Merging leaves every name of the left style in its place, and every
/// value of the left style that is no nested rule as it is.
pub proof fn lemma_merge_is_left_biased(
    acc: Seq<(Seq<char>, SxValueModel)>,
    b: Seq<(Seq<char>, SxValueModel)>,
    j: int,
)
    requires
        0 <= j <= b.len(),
    ensures
        merged_from(acc, b, j).len() >= acc.len(),
        forall|i: int|
            0 <= i < acc.len() ==> (#[trigger] merged_from(acc, b, j)[i]).0 == acc[i].0 && (!(
            acc[i].1 is Nested) ==> merged_from(acc, b, j)[i].1 == acc[i].1),
    decreases b.len() - j,
{
    if j < b.len() {
        lemma_key_index(acc, b[j].0, 0);
        let next = match key_index(acc, b[j].0, 0) {
            None => acc.push(b[j]),
            Some(i) => match (acc[i].1, b[j].1) {
                (SxValueModel::Nested(x), SxValueModel::Nested(y)) => acc.update(
                    i,
                    (acc[i].0, SxValueModel::Nested(merged_from(x, y, 0))),
                ),
                _ => acc,
            },
        };
        lemma_merge_is_left_biased(next, b, j + 1);
        assert forall|i: int| 0 <= i < acc.len() implies (#[trigger] merged_from(acc, b, j)[i]).0
            == acc[i].0 && (!(acc[i].1 is Nested) ==> merged_from(acc, b, j)[i].1 == acc[i].1) by {
            assert(next[i].0 == acc[i].0);
            assert(!(acc[i].1 is Nested) ==> next[i] == acc[i]);
            assert(acc[i].1 is Nested ==> next[i].1 is Nested);
        }
    }
}

/// Two styles that each hold one nested rule of the same name merge into
/// one style with one rule of that name, which holds the two rules merged.
pub proof fn lemma_merge_same_rule(
    key: Seq<char>,
    x: Seq<(Seq<char>, SxValueModel)>,
    y: Seq<(Seq<char>, SxValueModel)>,
)
    ensures
        merged(seq![(key, SxValueModel::Nested(x))], seq![(key, SxValueModel::Nested(y))]) == seq![
            (key, SxValueModel::Nested(merged(x, y))),
        ],
{
    let a = seq![(key, SxValueModel::Nested(x))];
    let b = seq![(key, SxValueModel::Nested(y))];
    reveal_with_fuel(merged_from, 3);
    reveal_with_fuel(key_index, 2);
    assert(key_index(a, key, 0) == Some(0int));
    assert(a.update(0, (key, SxValueModel::Nested(merged_from(x, y, 0)))) =~= seq![
        (key, SxValueModel::Nested(merged(x, y))),
    ]);
}

/// Two styles that each hold one property, of different names, merge into
/// the style that holds both, the left one first.
pub proof fn lemma_merge_distinct(first: (Seq<char>, SxValueModel), second: (Seq<char>, SxValueModel))
    requires
        first.0 != second.0,
    ensures
        merged(seq![first], seq![second]) == seq![first, second],
{
    reveal_with_fuel(merged_from, 3);
    reveal_with_fuel(key_index, 3);
    assert(key_index(seq![first], second.0, 0) is None);
    assert(seq![first].push(second) =~= seq![first, second]);
}

/// Merging a style with the style without properties leaves it as it is.
pub proof fn lemma_merge_with_nothing(a: Seq<(Seq<char>, SxValueModel)>)
    ensures
        merged(a, Seq::empty()) == a,
{
}

impl Clone for Sx {
    fn clone(&self) -> (r: Sx)
        ensures
            r@ == self@,
        decreases self,
    {
        let mut props: Vec<(String, SxValue)> = Vec::new();
        let mut i: usize = 0;
        while i < self.props.len()
            invariant
                i <= self.props.len(),
                props@.len() == i,
                forall|j: int|
                    0 <= j < i ==> (#[trigger] props@[j]).0@ == self.props@[j].0@ && props@[j].1@
                        == self.props@[j].1@,
            decreases self.props.len() - i,
        {
            props.push((self.props[i].0.clone(), self.props[i].1.clone()));
            i += 1;
        }
        let r = Sx { props };
        assert(r@ =~= self@);
        r
    }
}

impl Default for Sx {
    /// The style without properties.
    fn default() -> (r: Sx)
        ensures
            r@ == Seq::<(Seq<char>, SxValueModel)>::empty(),
            r.wf(),
    {
        let r = Sx { props: Vec::new() };
        assert(r@ =~= Seq::<(Seq<char>, SxValueModel)>::empty());
        r
    }
}

impl Sx {
    /// What holds of every style: no name occurs twice.
    pub closed spec fn wf(&self) -> bool {
        unique_keys(self@)
    }

    /// No name occurs twice in a well-formed style.
    pub proof fn lemma_wf(&self)
        requires
            self.wf(),
        ensures
            unique_keys(self@),
    {
    }

    /// The style without properties.
    pub fn new() -> (r: Sx)
        ensures
            r@ == Seq::<(Seq<char>, SxValueModel)>::empty(),
            r.wf(),
    {
        let r = Sx { props: Vec::new() };
        assert(r@ =~= Seq::<(Seq<char>, SxValueModel)>::empty());
        r
    }

    /// The index of the entry called `key`.
    fn find(&self, key: &str) -> (r: Option<usize>)
        ensures
            match r {
                Some(i) => key_index(self@, key@, 0) == Some(i as int) && i < self.props@.len(),
                None => key_index(self@, key@, 0) is None,
            },
    {
        let mut i: usize = 0;
        while i < self.props.len()
            invariant
                i <= self.props.len(),
                self@.len() == self.props@.len(),
                key_index(self@, key@, 0) == key_index(self@, key@, i as int),
            decreases self.props.len() - i,
        {
            assert(self@[i as int].0 == self.props@[i as int].0@);
            if str_eq(self.props[i].0.as_str(), key) {
                return Some(i);
            }
            i += 1;
        }
        None
    }

    /// Sets the entry called exactly `key` to `value`.
    fn put_one(&mut self, key: String, value: SxValue)
        ensures
            final(self)@ == put(old(self)@, key@, value@),
            old(self).wf() ==> final(self).wf(),
    {
        proof {
            if self.wf() {
                lemma_put_unique(self@, key@, value@);
            }
        }
        let ghost before = self@;
        match self.find(key.as_str()) {
            Some(i) => {
                self.props[i] = (key, value);
                assert(self@ =~= before.update(i as int, (key@, value@)));
            },
            None => {
                self.props.push((key, value));
                assert(self@ =~= before.push((key@, value@)));
            },
        }
    }

    /// Sets the property `key` to `value`. A shorthand name sets each of the
    /// properties that it stands for to the same value.
    pub fn insert(&mut self, key: &str, value: SxValue)
        ensures
            final(self)@ == with_entry(old(self)@, key@, value@),
            old(self).wf() ==> final(self).wf(),
    {
        let translated = system_properties().translate(key);
        let ghost names = stored_names(key@);
        let ghost start = self@;
        let mut i: usize = 0;
        assert(names.len() == translated@.len());
        while i < translated.len()
            invariant
                i <= translated.len(),
                names == stored_names(key@),
                names.len() == translated@.len(),
                forall|j: int|
                    0 <= j < translated@.len() ==> names[j] == property_name(
                        (#[trigger] translated@[j])@,
                    ),
                put_all(start, names, value@, 0) == put_all(self@, names, value@, i as int),
                old(self).wf() ==> self.wf(),
            decreases translated.len() - i,
        {
            let name = to_property(translated[i].as_str());
            self.put_one(name, value.clone());
            i += 1;
        }
    }

    /// The value of the property called exactly `key`, if there is one.
    pub fn get(&self, key: &str) -> (r: Option<&SxValue>)
        ensures
            match key_index(self@, key@, 0) {
                Some(i) => r matches Some(v) && v@ == self@[i].1,
                None => r is None,
            },
    {
        match self.find(key) {
            Some(i) => {
                assert(self@[i as int].1 == self.props@[i as int].1@);
                Some(&self.props[i].1)
            },
            None => None,
        }
    }

    /// The value of the property called exactly `key`.
    pub fn index(&self, key: &str) -> (r: &SxValue)
        requires
            key_index(self@, key@, 0) is Some,
        ensures
            r@ == self@[key_index(self@, key@, 0)->0].1,
    {
        self.get(key).unwrap()
    }

    /// The names of the properties, in order.
    pub fn properties(&self) -> (r: Vec<String>)
        ensures
            r@.len() == self@.len(),
            forall|i: int| 0 <= i < r@.len() ==> (#[trigger] r@[i])@ == self@[i].0,
    {
        let mut r: Vec<String> = Vec::new();
        let mut i: usize = 0;
        while i < self.props.len()
            invariant
                i <= self.props.len(),
                self@.len() == self.props@.len(),
                r@.len() == i,
                forall|j: int| 0 <= j < i ==> (#[trigger] r@[j])@ == self@[j].0,
            decreases self.props.len() - i,
        {
            assert(self@[i as int].0 == self.props@[i as int].0@);
            r.push(self.props[i].0.clone());
            i += 1;
        }
        r
    }

    /// The entries of the style, in order.
    pub fn entries(&self) -> (r: &Vec<(String, SxValue)>)
        ensures
            r@.len() == self@.len(),
            forall|i: int|
                0 <= i < r@.len() ==> (#[trigger] r@[i]).0@ == self@[i].0 && r@[i].1@ == self@[i].1,
    {
        &self.props
    }

    /// This style merged with `other`. The values of this style win, except
    /// that nested rules of the same name are merged.
    pub fn merge(self, other: Sx) -> (r: Sx)
        ensures
            r@ == merged(self@, other@),
            self.wf() ==> r.wf(),
    {
        self.merge_with(&other)
    }

    /// This style merged with `other`, which is left as it is.
    pub fn merge_with(self, other: &Sx) -> (r: Sx)
        ensures
            r@ == merged(self@, other@),
            self.wf() ==> r.wf(),
        decreases other,
    {
        let mut sx = self;
        let mut j: usize = 0;
        proof {
            if self.wf() {
                lemma_merged_unique(self@, other@, 0);
            }
        }
        while j < other.props.len()
            invariant
                j <= other.props.len(),
                other@.len() == other.props@.len(),
                merged(self@, other@) == merged_from(sx@, other@, j as int),
            decreases other.props.len() - j,
        {
            let ghost acc = sx@;
            assert(other@[j as int] == (other.props@[j as int].0@, other.props@[j as int].1@));
            match sx.find(other.props[j].0.as_str()) {
                None => {
                    sx.props.push((other.props[j].0.clone(), other.props[j].1.clone()));
                    assert(sx@ =~= acc.push(other@[j as int]));
                },
                Some(i) => {
                    assert(acc[i as int] == (sx.props@[i as int].0@, sx.props@[i as int].1@));
                    match (&sx.props[i].1, &other.props[j].1) {
                        (SxValue::Nested(mine), SxValue::Nested(theirs)) => {
                            let both = mine.clone().merge_with(theirs);
                            let key = sx.props[i].0.clone();
                            sx.props[i] = (key, SxValue::Nested(both));
                            assert(sx@ =~= acc.update(
                                i as int,
                                (acc[i as int].0, SxValueModel::Nested(merged_from(mine@, theirs@, 0))),
                            ));
                        },
                        _ => {},
                    }
                },
            }
            j += 1;
        }
        sx
    }
}

} // verus!
