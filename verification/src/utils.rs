//! Helpers shared by the rest of the crate, and the normal form of property
//! names.

use vstd::prelude::*;
use crate::utils::text::{from_chars, push_all, slice_of, to_chars};

pub mod bounded_float;
pub mod text;

verus! {

/// The characters with which a selector fragment may begin or end:
/// `.`, `+`, `>`, `~`, `&` and `,`.
pub open spec fn is_selector_operator(c: char) -> bool {
    c == '.' || c == '+' || c == '>' || c == '~' || c == '&' || c == ','
}

/// Whether `c` is one of the selector operators.
pub fn selector_operator(c: char) -> (r: bool)
    ensures
        r == is_selector_operator(c),
{
    c == '.' || c == '+' || c == '>' || c == '~' || c == '&' || c == ','
}

/// What `heck` makes of a text in kebab case: the words of the text in lower
/// case, joined by hyphens.
pub uninterp spec fn heck_kebab_case(s: Seq<char>) -> Seq<char>;

/// Calls `heck::ToKebabCase::to_kebab_case` on `s`. The contract names the
/// result and claims nothing else of it: the same text always gives the same
/// result.
#[verifier::external_body]
fn to_kebab_case(s: &str) -> (r: String)
    ensures
        r@ == heck_kebab_case(s@),
{
    heck::ToKebabCase::to_kebab_case(s)
}

/// The index of the first hyphen of `s` from `from` on, or the length of `s`.
pub open spec fn first_hyphen(s: Seq<char>, from: int) -> int
    decreases s.len() - from,
{
    if from < 0 || from >= s.len() {
        s.len() as int
    } else if s[from] == '-' {
        from
    } else {
        first_hyphen(s, from + 1)
    }
}

/// The index of the first selector operator of `s` from `from` on, or the
/// length of `s`.
pub open spec fn first_operator(s: Seq<char>, from: int) -> int
    decreases s.len() - from,
{
    if from < 0 || from >= s.len() {
        s.len() as int
    } else if is_selector_operator(s[from]) {
        from
    } else {
        first_operator(s, from + 1)
    }
}

/// The text `s` from `from` on, with each stretch between hyphens in kebab
/// case and the hyphens kept.
pub open spec fn kebab_segments(s: Seq<char>, from: int) -> Seq<char>
    decreases s.len() - from,
{
    let at = first_hyphen(s, from);
    if from < 0 || from > s.len() {
        Seq::empty()
    } else if at >= s.len() {
        heck_kebab_case(s.subrange(from, s.len() as int))
    } else if at < from {
        Seq::empty()
    } else {
        heck_kebab_case(s.subrange(from, at)) + seq!['-'] + kebab_segments(s, at + 1)
    }
}

/// The text `s` from `from` on, cut after each selector operator, with what
/// stands before the operator of each piece put into kebab case stretch by
/// stretch, and the operators kept.
pub open spec fn reworked(s: Seq<char>, from: int) -> Seq<char>
    decreases s.len() - from,
{
    let at = first_operator(s, from);
    if from < 0 || from >= s.len() {
        Seq::empty()
    } else if at >= s.len() {
        kebab_segments(s.subrange(from, s.len() as int), 0)
    } else if at < from {
        Seq::empty()
    } else {
        kebab_segments(s.subrange(from, at), 0) + seq![s[at]] + reworked(s, at + 1)
    }
}

/// The normal form of a property name.
///
/// A name that begins with `[` or with a selector operator is a selector and
/// stays as it is. Any other name is put into kebab case, so that
/// `backgroundColor` becomes `background-color`.
pub open spec fn property_name(key: Seq<char>) -> Seq<char> {
    if key.len() > 0 && (key[0] == '[' || is_selector_operator(key[0])) {
        key
    } else {
        reworked(key, 0)
    }
}

/// Where the search for a hyphen ends.
pub proof fn lemma_first_hyphen(s: Seq<char>, from: int)
    requires
        0 <= from <= s.len(),
    ensures
        from <= first_hyphen(s, from) <= s.len(),
    decreases s.len() - from,
{
    if from < s.len() && s[from] != '-' {
        lemma_first_hyphen(s, from + 1);
    }
}

/// Where the search for a selector operator ends.
pub proof fn lemma_first_operator(s: Seq<char>, from: int)
    requires
        0 <= from <= s.len(),
    ensures
        from <= first_operator(s, from) <= s.len(),
    decreases s.len() - from,
{
    if from < s.len() && !is_selector_operator(s[from]) {
        lemma_first_operator(s, from + 1);
    }
}

/// The text from `from` on with each stretch between hyphens in kebab case.
fn kebab_each_segment(s: &Vec<char>, from: usize) -> (r: Vec<char>)
    requires
        from <= s.len(),
    ensures
        r@ == kebab_segments(s@, from as int),
    decreases s.len() - from,
{
    let mut at: usize = from;
    while at < s.len() && s[at] != '-'
        invariant
            from <= at <= s.len(),
            first_hyphen(s@, from as int) == first_hyphen(s@, at as int),
        decreases s.len() - at,
    {
        at += 1;
    }
    let stretch = slice_of(s, from, at);
    let text = from_chars(&stretch);
    let kebab = to_kebab_case(text.as_str());
    let mut out = to_chars(kebab.as_str());
    if at < s.len() {
        out.push('-');
        let rest = kebab_each_segment(s, at + 1);
        push_all(&mut out, &rest);
    }
    out
}

/// The text from `from` on, reworked piece by piece.
fn rework(s: &Vec<char>, from: usize) -> (r: Vec<char>)
    requires
        from <= s.len(),
    ensures
        r@ == reworked(s@, from as int),
    decreases s.len() - from,
{
    if from >= s.len() {
        return Vec::new();
    }
    let mut at: usize = from;
    while at < s.len() && !selector_operator(s[at])
        invariant
            from <= at <= s.len(),
            first_operator(s@, from as int) == first_operator(s@, at as int),
        decreases s.len() - at,
    {
        at += 1;
    }
    let piece = slice_of(s, from, at);
    let mut out = kebab_each_segment(&piece, 0);
    if at < s.len() {
        out.push(s[at]);
        let rest = rework(s, at + 1);
        push_all(&mut out, &rest);
    }
    out
}

/// The normal form of the property name `key`.
pub fn to_property(key: &str) -> (r: String)
    ensures
        r@ == property_name(key@),
{
    let s = to_chars(key);
    if s.len() > 0 && (s[0] == '[' || selector_operator(s[0])) {
        return from_chars(&s);
    }
    let out = rework(&s, 0);
    from_chars(&out)
}

} // verus!
