//! Gradients: colours at control points between zero and one, and the
//! colours in between by linear interpolation.

use vstd::prelude::*;
use crate::theme::color::{
    hsla_color_of, hsla_of, in_unit, mul_within, rgba_of, round_clamped, round_to, simple_of, Color,
    ColorModel, SimpleColor, TransformColorError,
};
use crate::utils::bounded_float::{cross, BoundedFloat, Fraction};

verus! {

/// A gradient: colours at control points, ordered by position. There is a
/// control point at position zero and one at position one, and no two
/// control points share a position.
#[derive(Debug, PartialEq)]
pub struct Gradient {
    points: Vec<(BoundedFloat, Color)>,
}

/// Why a list of control points is not a gradient.
#[derive(Debug, PartialEq, Eq)]
pub enum GradientError {
    /// The position of the control point with this index is not a number
    /// from zero to one.
    OutOfBounds { index: usize },
    /// There is no control point at position zero, or none at position one.
    MissingBoundary,
}

/// The index of the first control point from `from` on whose position is at
/// least `pos`; the number of control points if there is none.
pub open spec fn first_at_least(points: Seq<(Fraction, ColorModel)>, pos: Fraction, from: int) -> int
    decreases points.len() - from,
{
    if from < 0 || from >= points.len() {
        points.len() as int
    } else if pos.le_spec(points[from].0) {
        from
    } else {
        first_at_least(points, pos, from + 1)
    }
}

/// The value `low + (high - low) * tn / td`, rounded to the nearest whole
/// number and held to the range from 0 to `top`.
pub open spec fn mix(low: int, high: int, tn: int, td: int, top: int) -> int {
    round_clamped(low * td + (high - low) * tn, td, top)
}

/// The colour at position `pos` between the control points `low` and `high`.
///
/// Where the two control points coincide or carry the same colour, it is
/// that colour. Otherwise both colours are reduced to their normal form and,
/// if the forms are of one kind, each component is interpolated linearly
/// with weight `(pos - low) / (high - low)`. Between normal forms of
/// different kinds, or where a colour has none, there is no colour.
pub open spec fn blend(
    low: (Fraction, ColorModel),
    high: (Fraction, ColorModel),
    pos: Fraction,
) -> Option<ColorModel> {
    if low.0.same_value(high.0) || low.1 == high.1 {
        Some(low.1)
    } else {
        let tn = (pos.num * low.0.den - low.0.num * pos.den) * high.0.den;
        let td = pos.den * (high.0.num * low.0.den - low.0.num * high.0.den);
        match (simple_of(low.1), simple_of(high.1)) {
            (Some(SimpleColor::Hsla(h0, s0, l0, a0)), Some(SimpleColor::Hsla(h1, s1, l1, a1))) => Some(
                ColorModel::Hsla {
                    h: mix(h0 as int, h1 as int, tn, td, 0xFFFF) as u16,
                    s: mix(s0 as int, s1 as int, tn, td, 255) as u8,
                    l: mix(l0 as int, l1 as int, tn, td, 255) as u8,
                    a: mix(a0 as int, a1 as int, tn, td, 255) as u8,
                },
            ),
            (Some(SimpleColor::Rgba(r0, g0, b0, a0)), Some(SimpleColor::Rgba(r1, g1, b1, a1))) => Some(
                ColorModel::Rgba {
                    r: mix(r0 as int, r1 as int, tn, td, 255) as u8,
                    g: mix(g0 as int, g1 as int, tn, td, 255) as u8,
                    b: mix(b0 as int, b1 as int, tn, td, 255) as u8,
                    a: mix(a0 as int, a1 as int, tn, td, 255) as u8,
                },
            ),
            _ => None,
        }
    }
}

/// The colour of a gradient at position `pos`, if it has one.
///
/// With `high` the nearest control point at or after `pos` and `low` the
/// nearest at or before it, the colour is the blend of the two at `pos`. At
/// a control point this is the colour stored there.
pub open spec fn color_at(points: Seq<(Fraction, ColorModel)>, pos: Fraction) -> Option<ColorModel> {
    if !in_unit(pos) {
        None
    } else {
        let hi = first_at_least(points, pos, 0);
        if hi < 0 || hi >= points.len() {
            None
        } else if points[hi].0.same_value(pos) {
            blend(points[hi], points[hi], pos)
        } else if hi == 0 {
            None
        } else {
            blend(points[hi - 1], points[hi], pos)
        }
    }
}

/// The control points after a point at `pos` with colour `c` has been put
/// in: unchanged if there is a control point at `pos` already, else with the
/// new point at its place in the order.
pub open spec fn with_point(
    points: Seq<(Fraction, ColorModel)>,
    pos: Fraction,
    c: ColorModel,
) -> Seq<(Fraction, ColorModel)> {
    let at = first_at_least(points, pos, 0);
    if 0 <= at < points.len() && points[at].0.same_value(pos) {
        points
    } else {
        points.insert(at, (pos, c))
    }
}

/// The control points with the colour at index `at` replaced by `c`.
pub open spec fn stored_at(points: Seq<(Fraction, ColorModel)>, at: int, c: ColorModel) -> Seq<
    (Fraction, ColorModel),
> {
    points.update(at, (points[at].0, c))
}

/// What holds of the control points of every gradient: there are at least
/// two, each lies between zero and one, they ascend strictly, the first is
/// at zero and the last is at one.
pub open spec fn well_formed(points: Seq<(Fraction, ColorModel)>) -> bool {
    &&& points.len() >= 2
    &&& forall|i: int| 0 <= i < points.len() ==> in_unit(#[trigger] points[i].0)
    &&& forall|i: int, j: int|
        0 <= i < j < points.len() ==> (#[trigger] points[i]).0.lt_spec((#[trigger] points[j]).0)
    &&& points[0].0.num == 0
    &&& points[points.len() - 1].0.num == points[points.len() - 1].0.den
}

/// Of three fractions with positive denominators, if the first is at most
/// the second and the second is less than the third, the first is less than
/// the third.
pub proof fn lemma_le_lt(a: Fraction, b: Fraction, c: Fraction)
    requires
        a.den > 0,
        b.den > 0,
        c.den > 0,
        a.le_spec(b),
        b.lt_spec(c),
    ensures
        a.lt_spec(c),
{
    let (an, ad, bn, bd, cn, cd) = (
        a.num as int,
        a.den as int,
        b.num as int,
        b.den as int,
        c.num as int,
        c.den as int,
    );
    assert(an * bd * cd <= bn * ad * cd) by (nonlinear_arith)
        requires
            an * bd <= bn * ad,
            cd > 0,
    ;
    assert(bn * cd * ad < cn * bd * ad) by (nonlinear_arith)
        requires
            bn * cd < cn * bd,
            ad > 0,
    ;
    assert(an * cd < cn * ad) by (nonlinear_arith)
        requires
            an * bd * cd <= bn * ad * cd,
            bn * cd * ad < cn * bd * ad,
            bd > 0,
    ;
}

/// Where the search for the first control point at or after `pos` ends:
/// every control point before it lies before `pos`, and it lies at or after
/// `pos` itself, if it exists.
pub proof fn lemma_first_at_least(points: Seq<(Fraction, ColorModel)>, pos: Fraction, from: int)
    requires
        0 <= from <= points.len(),
    ensures
        from <= first_at_least(points, pos, from) <= points.len(),
        forall|j: int|
            from <= j < first_at_least(points, pos, from) ==> !pos.le_spec(
                (#[trigger] points[j]).0,
            ),
        first_at_least(points, pos, from) < points.len() ==> pos.le_spec(
            points[first_at_least(points, pos, from)].0,
        ),
    decreases points.len() - from,
{
    if from < points.len() && !pos.le_spec(points[from].0) {
        lemma_first_at_least(points, pos, from + 1);
    }
}

/// The control points as magnitudes and colour values.
pub open spec fn model_of(points: Seq<(BoundedFloat, Color)>) -> Seq<(Fraction, ColorModel)> {
    Seq::new(points.len(), |i: int| (points[i].0.value(), points[i].1@))
}

/// At a control point a gradient has the colour stored there.
pub proof fn lemma_color_at_control_point(points: Seq<(Fraction, ColorModel)>, k: int, pos: Fraction)
    requires
        well_formed(points),
        0 <= k < points.len(),
        pos.den > 0,
        pos.same_value(points[k].0),
    ensures
        color_at(points, pos) == Some(points[k].1),
        first_at_least(points, pos, 0) == k,
{
    lemma_first_at_least(points, pos, 0);
    let hi = first_at_least(points, pos, 0);
    assert(pos.le_spec(points[k].0));
    if hi < k {
        assert(points[hi].0.lt_spec(points[k].0));
        lemma_le_lt(pos, points[hi].0, points[k].0);
    }
    if hi > k {
        assert(!pos.le_spec(points[k].0));
    }
    assert(in_unit(points[k].0));
    assert(in_unit(pos)) by (nonlinear_arith)
        requires
            pos.den > 0,
            points[k].0.den > 0,
            0 <= points[k].0.num <= points[k].0.den,
            pos.num * points[k].0.den == points[k].0.num * pos.den,
    ;
}

/// The control points are well formed and each position is a bounded value.
pub open spec fn points_wf(points: Seq<(BoundedFloat, Color)>) -> bool {
    &&& well_formed(model_of(points))
    &&& forall|i: int| 0 <= i < points.len() ==> (#[trigger] points[i]).0.wf()
}

/// The colour half way between two colours: the first if they are the same;
/// else, where both have a normal form of one kind, the colour whose
/// components are the means of theirs, rounded to the nearest whole number;
/// else none.
pub open spec fn midpoint(c0: ColorModel, c1: ColorModel) -> Option<ColorModel> {
    if c0 == c1 {
        Some(c0)
    } else {
        match (simple_of(c0), simple_of(c1)) {
            (Some(SimpleColor::Hsla(h0, s0, l0, a0)), Some(SimpleColor::Hsla(h1, s1, l1, a1))) => Some(
                ColorModel::Hsla {
                    h: round_clamped(h0 + h1, 2, 0xFFFF) as u16,
                    s: round_clamped(s0 + s1, 2, 255) as u8,
                    l: round_clamped(l0 + l1, 2, 255) as u8,
                    a: round_clamped(a0 + a1, 2, 255) as u8,
                },
            ),
            (Some(SimpleColor::Rgba(r0, g0, b0, a0)), Some(SimpleColor::Rgba(r1, g1, b1, a1))) => Some(
                ColorModel::Rgba {
                    r: round_clamped(r0 + r1, 2, 255) as u8,
                    g: round_clamped(g0 + g1, 2, 255) as u8,
                    b: round_clamped(b0 + b1, 2, 255) as u8,
                    a: round_clamped(a0 + a1, 2, 255) as u8,
                },
            ),
            _ => None,
        }
    }
}

/// A gradient with no control points but the two at its ends has the first
/// colour at position zero, the second at position one, and half way the
/// midpoint of the two, taken in the colour space that both are stored in.
pub proof fn lemma_two_point_gradient(c0: ColorModel, c1: ColorModel)
    ensures
        ({
            let g = seq![(Fraction { num: 0, den: 1 }, c0), (Fraction { num: 1, den: 1 }, c1)];
            &&& well_formed(g)
            &&& color_at(g, Fraction { num: 0, den: 1 }) == Some(c0)
            &&& color_at(g, Fraction { num: 1, den: 1 }) == Some(c1)
            &&& color_at(g, Fraction { num: 1, den: 2 }) == midpoint(c0, c1)
        }),
{
    let zero = Fraction { num: 0, den: 1 };
    let one = Fraction { num: 1, den: 1 };
    let half = Fraction { num: 1, den: 2 };
    let g = seq![(zero, c0), (one, c1)];
    assert(g[0] == (zero, c0) && g[1] == (one, c1));
    assert(zero.lt_spec(one)) by (nonlinear_arith)
        requires
            zero.num == 0,
            zero.den == 1,
            one.num == 1,
            one.den == 1,
    ;
    assert(well_formed(g));
    assert(zero.same_value(g[0].0)) by (nonlinear_arith)
        requires
            g[0].0.num == 0,
            zero.num == 0,
    ;
    assert(one.same_value(g[1].0)) by (nonlinear_arith)
        requires
            g[1].0.num == 1,
            g[1].0.den == 1,
            one.num == 1,
            one.den == 1,
    ;
    lemma_color_at_control_point(g, 0, zero);
    lemma_color_at_control_point(g, 1, one);
    assert(!half.le_spec(zero)) by (nonlinear_arith)
        requires
            half.num == 1,
            half.den == 2,
            zero.num == 0,
            zero.den == 1,
    ;
    assert(half.le_spec(one) && !one.same_value(half) && !zero.same_value(one)) by (nonlinear_arith)
        requires
            half.num == 1,
            half.den == 2,
            one.num == 1,
            one.den == 1,
            zero.num == 0,
            zero.den == 1,
    ;
    reveal_with_fuel(first_at_least, 3);
    assert(first_at_least(g, half, 0) == 1);
    let tn = (half.num * zero.den - zero.num * half.den) * one.den;
    let td = half.den * (one.num * zero.den - zero.num * one.den);
    assert(tn == 1 && td == 2) by (nonlinear_arith)
        requires
            tn == (half.num * zero.den - zero.num * half.den) * one.den,
            td == half.den * (one.num * zero.den - zero.num * one.den),
            half.num == 1,
            half.den == 2,
            one.num == 1,
            one.den == 1,
            zero.num == 0,
            zero.den == 1,
    ;
    assert forall|low: int, high: int, top: int| #[trigger]
        mix(low, high, 1, 2, top) == round_clamped(low + high, 2, top) by {
        assert(low * 2 + (high - low) * 1 == low + high);
    }
    assert(color_at(g, half) == blend(g[0], g[1], half));
}

/// A colour in `Hsla` notation if `hsl` is set, else in `Rgba` notation,
/// where it has a normal form; else the colour as it is.
pub open spec fn converted_color(c: ColorModel, hsl: bool) -> ColorModel {
    match simple_of(c) {
        None => c,
        Some(simple) => if hsl {
            hsla_color_of(
                hsla_of(simple).0,
                hsla_of(simple).1,
                hsla_of(simple).2,
                hsla_of(simple).3,
            )
        } else {
            ColorModel::Rgba {
                r: rgba_of(simple).0,
                g: rgba_of(simple).1,
                b: rgba_of(simple).2,
                a: rgba_of(simple).3,
            }
        },
    }
}

/// The control points with every colour in another notation.
pub open spec fn converted_points(points: Seq<(Fraction, ColorModel)>, hsl: bool) -> Seq<
    (Fraction, ColorModel),
> {
    Seq::new(points.len(), |i: int| (points[i].0, converted_color(points[i].1, hsl)))
}

/// The index of the first control point from `from` on whose colour has no
/// normal form, if there is one.
pub open spec fn first_unconverted(points: Seq<(Fraction, ColorModel)>, from: int) -> Option<int>
    decreases points.len() - from,
{
    if from < 0 || from >= points.len() {
        None
    } else if simple_of(points[from].1) is None {
        Some(from)
    } else {
        first_unconverted(points, from + 1)
    }
}

/// Red, green, blue and opacity of a gradient at the position `i / steps`,
/// where the gradient has a colour there and the colour has these.
pub open spec fn sample_at(points: Seq<(Fraction, ColorModel)>, steps: int, i: int) -> Option<
    (u8, u8, u8, u8),
> {
    match color_at(points, Fraction { num: i as i64, den: steps as u32 }) {
        None => None,
        Some(c) => match simple_of(c) {
            None => None,
            Some(simple) => Some(rgba_of(simple)),
        },
    }
}

/// The first of the positions `from / steps` to `steps / steps` at which a
/// gradient has no sample, if there is one.
pub open spec fn first_unsampled(points: Seq<(Fraction, ColorModel)>, steps: int, from: int) -> Option<
    int,
>
    decreases steps + 1 - from,
{
    if from < 0 || from > steps {
        None
    } else if sample_at(points, steps, from) is None {
        Some(from)
    } else {
        first_unsampled(points, steps, from + 1)
    }
}

/// The given control points as magnitudes and colour values.
pub open spec fn raw_model(raw: Seq<(Fraction, Color)>) -> Seq<(Fraction, ColorModel)> {
    Seq::new(raw.len(), |i: int| (raw[i].0, raw[i].1@))
}

/// There is a control point at `pos`.
pub open spec fn has_position(points: Seq<(Fraction, ColorModel)>, pos: Fraction) -> bool {
    exists|i: int| 0 <= i < points.len() && (#[trigger] points[i]).0.same_value(pos)
}

/// No entry after entry `i` has the position of entry `i`.
pub open spec fn is_last_at(raw: Seq<(Fraction, ColorModel)>, i: int) -> bool {
    forall|m: int| i < m < raw.len() ==> !(#[trigger] raw[m]).0.same_value(raw[i].0)
}

/// Entry `i` of `raw` is where the control point `point` has its position
/// and colour from.
pub open spec fn source_of(
    point: (Fraction, ColorModel),
    raw: Seq<(Fraction, ColorModel)>,
    i: int,
) -> bool {
    raw[i].0.same_value(point.0) && raw[i].1 == point.1 && is_last_at(raw, i)
}

/// Some entry of `raw` is where the control point `point` has its position
/// and colour from.
pub open spec fn has_source(point: (Fraction, ColorModel), raw: Seq<(Fraction, ColorModel)>) -> bool {
    exists|i: int| 0 <= i < raw.len() && #[trigger] source_of(point, raw, i)
}

/// The control points `points` are those given by `raw`: every position of
/// `raw` is a control point, and every control point has the position and
/// the colour of the last entry of `raw` at that position.
pub open spec fn collects(
    points: Seq<(Fraction, ColorModel)>,
    raw: Seq<(Fraction, ColorModel)>,
) -> bool {
    &&& forall|i: int| 0 <= i < raw.len() ==> has_position(points, (#[trigger] raw[i]).0)
    &&& forall|j: int| 0 <= j < points.len() ==> has_source(#[trigger] points[j], raw)
}

/// The positions lie between zero and one and ascend strictly.
pub open spec fn ascending(points: Seq<(Fraction, ColorModel)>) -> bool {
    &&& forall|i: int| 0 <= i < points.len() ==> in_unit(#[trigger] points[i].0)
    &&& forall|i: int, j: int|
        0 <= i < j < points.len() ==> (#[trigger] points[i]).0.lt_spec((#[trigger] points[j]).0)
}

/// Two fractions that stand for the same magnitude as a third stand for the
/// same magnitude.
pub proof fn lemma_same_trans(a: Fraction, b: Fraction, c: Fraction)
    requires
        a.den > 0,
        b.den > 0,
        c.den > 0,
        a.same_value(b),
        b.same_value(c),
    ensures
        a.same_value(c),
{
    let (an, ad, bn, bd, cn, cd) = (
        a.num as int,
        a.den as int,
        b.num as int,
        b.den as int,
        c.num as int,
        c.den as int,
    );
    assert(an * bd * cd == bn * ad * cd) by (nonlinear_arith)
        requires
            an * bd == bn * ad,
    ;
    assert(bn * cd * ad == cn * bd * ad) by (nonlinear_arith)
        requires
            bn * cd == cn * bd,
    ;
    assert(an * cd == cn * ad) by (nonlinear_arith)
        requires
            an * bd * cd == bn * ad * cd,
            bn * cd * ad == cn * bd * ad,
            bd > 0,
    ;
}

/// Among ascending control points at most one lies at a given position.
pub proof fn lemma_one_per_position(points: Seq<(Fraction, ColorModel)>, a: int, b: int, pos: Fraction)
    requires
        ascending(points),
        pos.den > 0,
        0 <= a < points.len(),
        0 <= b < points.len(),
        points[a].0.same_value(pos),
        points[b].0.same_value(pos),
    ensures
        a == b,
{
    assert(in_unit(points[a].0) && in_unit(points[b].0));
    lemma_same_trans(points[a].0, pos, points[b].0);
    if a < b {
        assert(points[a].0.lt_spec(points[b].0));
    }
    if b < a {
        assert(points[b].0.lt_spec(points[a].0));
    }
}

/// Replacing the colour of the control point at the position of a new entry
/// keeps the control points those given by the entries so far.
pub proof fn lemma_collects_replace(
    before: Seq<(Fraction, ColorModel)>,
    seen: Seq<(Fraction, ColorModel)>,
    next: Seq<(Fraction, ColorModel)>,
    at: int,
    f: Fraction,
    c: ColorModel,
)
    requires
        ascending(before),
        collects(before, seen),
        in_unit(f),
        0 <= at < before.len(),
        before[at].0.same_value(f),
        next == seen.push((f, c)),
        forall|k: int| 0 <= k < seen.len() ==> in_unit(#[trigger] seen[k].0),
    ensures
        ascending(before.update(at, (before[at].0, c))),
        collects(before.update(at, (before[at].0, c)), next),
{
    let after = before.update(at, (before[at].0, c));
    let i = seen.len() as int;
    assert forall|j: int| 0 <= j < after.len() implies (#[trigger] after[j]).0 == before[j].0 by {}
    assert(ascending(after)) by {
        assert forall|x: int, y: int| 0 <= x < y < after.len() implies (#[trigger] after[x]).0.lt_spec(
            (#[trigger] after[y]).0,
        ) by {
            assert(before[x].0.lt_spec(before[y].0));
        }
        assert forall|x: int| 0 <= x < after.len() implies in_unit(#[trigger] after[x].0) by {
            assert(in_unit(before[x].0));
        }
    }
    assert forall|k: int| 0 <= k < next.len() implies has_position(after, (#[trigger] next[k]).0) by {
        if k < i {
            assert(next[k] == seen[k]);
            assert(has_position(before, seen[k].0));
            let j = choose|j: int| 0 <= j < before.len() && (#[trigger] before[j]).0.same_value(seen[k].0);
            assert(after[j].0.same_value(next[k].0));
        } else {
            assert(after[at].0.same_value(next[k].0));
        }
    }
    assert forall|j: int| 0 <= j < after.len() implies has_source(#[trigger] after[j], next) by {
        if j == at {
            assert(source_of(after[j], next, i));
        } else {
            assert(has_source(before[j], seen));
            let k = choose|k: int| 0 <= k < seen.len() && #[trigger] source_of(before[j], seen, k);
            assert(next[k] == seen[k]);
            assert forall|m: int| k < m < next.len() implies !(#[trigger] next[m]).0.same_value(
                next[k].0,
            ) by {
                if m < i {
                    assert(next[m] == seen[m]);
                } else {
                    if next[m].0.same_value(next[k].0) {
                        assert(in_unit(seen[k].0));
                        assert(in_unit(before[j].0));
                        lemma_same_trans(f, seen[k].0, before[j].0);
                        lemma_one_per_position(before, at, j, f);
                    }
                }
            }
            assert(source_of(after[j], next, k));
        }
    }
}

/// Putting a new entry between the control points before and after its
/// position keeps the control points those given by the entries so far.
pub proof fn lemma_collects_insert(
    before: Seq<(Fraction, ColorModel)>,
    seen: Seq<(Fraction, ColorModel)>,
    next: Seq<(Fraction, ColorModel)>,
    at: int,
    f: Fraction,
    c: ColorModel,
)
    requires
        ascending(before),
        collects(before, seen),
        in_unit(f),
        0 <= at <= before.len(),
        forall|j: int| 0 <= j < at ==> (#[trigger] before[j]).0.lt_spec(f),
        forall|j: int| at <= j < before.len() ==> f.lt_spec((#[trigger] before[j]).0),
        next == seen.push((f, c)),
        forall|k: int| 0 <= k < seen.len() ==> in_unit(#[trigger] seen[k].0),
    ensures
        ascending(before.insert(at, (f, c))),
        collects(before.insert(at, (f, c)), next),
{
    let after = before.insert(at, (f, c));
    let i = seen.len() as int;
    assert(ascending(after)) by {
        assert forall|x: int| 0 <= x < after.len() implies in_unit(#[trigger] after[x].0) by {
            if x < at {
                assert(after[x] == before[x]);
            } else if x > at {
                assert(after[x] == before[x - 1]);
            }
        }
        assert forall|x: int, y: int| 0 <= x < y < after.len() implies (#[trigger] after[x]).0.lt_spec(
            (#[trigger] after[y]).0,
        ) by {
            let bx = if x < at { x } else { x - 1 };
            let by_ = if y < at { y } else { y - 1 };
            if x == at {
                assert(after[y] == before[by_]);
            } else if y == at {
                assert(after[x] == before[bx]);
            } else {
                assert(after[x] == before[bx]);
                assert(after[y] == before[by_]);
            }
        }
    }
    assert forall|k: int| 0 <= k < next.len() implies has_position(after, (#[trigger] next[k]).0) by {
        if k < i {
            assert(next[k] == seen[k]);
            assert(has_position(before, seen[k].0));
            let j = choose|j: int| 0 <= j < before.len() && (#[trigger] before[j]).0.same_value(seen[k].0);
            let nj = if j < at { j } else { j + 1 };
            assert(after[nj] == before[j]);
            assert(after[nj].0.same_value(next[k].0));
        } else {
            assert(after[at].0.same_value(next[k].0));
        }
    }
    assert forall|j: int| 0 <= j < after.len() implies has_source(#[trigger] after[j], next) by {
        if j == at {
            assert(source_of(after[j], next, i));
        } else {
            let bj = if j < at { j } else { j - 1 };
            assert(after[j] == before[bj]);
            assert(has_source(before[bj], seen));
            let k = choose|k: int| 0 <= k < seen.len() && #[trigger] source_of(before[bj], seen, k);
            assert(next[k] == seen[k]);
            assert forall|m: int| k < m < next.len() implies !(#[trigger] next[m]).0.same_value(
                next[k].0,
            ) by {
                if m < i {
                    assert(next[m] == seen[m]);
                } else {
                    if next[m].0.same_value(next[k].0) {
                        assert(in_unit(seen[k].0));
                        assert(in_unit(before[bj].0));
                        lemma_same_trans(f, seen[k].0, before[bj].0);
                    }
                }
            }
            assert(source_of(after[j], next, k));
        }
    }
}

/// Without control points nothing was given at position zero.
pub proof fn lemma_no_boundary_without_points(
    points: Seq<(Fraction, ColorModel)>,
    raw: Seq<(Fraction, ColorModel)>,
)
    requires
        collects(points, raw),
        points.len() == 0,
    ensures
        !has_position(raw, Fraction { num: 0, den: 1 }),
{
    if has_position(raw, Fraction { num: 0, den: 1 }) {
        let k = choose|k: int|
            0 <= k < raw.len() && (#[trigger] raw[k]).0.same_value(Fraction { num: 0, den: 1 });
        assert(has_position(points, raw[k].0));
    }
}

/// Something was given at position zero exactly if the first control point
/// lies at zero, and at position one exactly if the last lies at one.
pub proof fn lemma_boundaries(points: Seq<(Fraction, ColorModel)>, raw: Seq<(Fraction, ColorModel)>)
    requires
        ascending(points),
        collects(points, raw),
        points.len() > 0,
        forall|k: int| 0 <= k < raw.len() ==> in_unit(#[trigger] raw[k].0),
    ensures
        has_position(raw, Fraction { num: 0, den: 1 }) <==> points[0].0.num == 0,
        has_position(raw, Fraction { num: 1, den: 1 }) <==> points[points.len() - 1].0.num
            == points[points.len() - 1].0.den,
{
    let zero = Fraction { num: 0, den: 1 };
    let one = Fraction { num: 1, den: 1 };
    let n = points.len() as int;
    assert(in_unit(points[0].0) && in_unit(points[n - 1].0));
    if has_position(raw, zero) {
        let k = choose|k: int| 0 <= k < raw.len() && (#[trigger] raw[k]).0.same_value(zero);
        assert(has_position(points, raw[k].0));
        let j = choose|j: int| 0 <= j < n && (#[trigger] points[j]).0.same_value(raw[k].0);
        assert(in_unit(points[j].0) && in_unit(raw[k].0));
        lemma_same_trans(points[j].0, raw[k].0, zero);
        assert(points[j].0.num == 0) by (nonlinear_arith)
            requires
                points[j].0.num * 1 == 0 * points[j].0.den,
        ;
        if j > 0 {
            assert(points[0].0.lt_spec(points[j].0));
            assert(false) by (nonlinear_arith)
                requires
                    points[0].0.num * points[j].0.den < points[j].0.num * points[0].0.den,
                    points[j].0.num == 0,
                    points[0].0.num >= 0,
                    points[j].0.den > 0,
            ;
        }
    }
    if points[0].0.num == 0 {
        assert(has_source(points[0], raw));
        let k = choose|k: int| 0 <= k < raw.len() && #[trigger] source_of(points[0], raw, k);
        assert(in_unit(raw[k].0));
        assert(raw[k].0.num == 0) by (nonlinear_arith)
            requires
                raw[k].0.num * points[0].0.den == points[0].0.num * raw[k].0.den,
                points[0].0.num == 0,
                points[0].0.den > 0,
        ;
        assert(raw[k].0.same_value(zero));
    }
    if has_position(raw, one) {
        let k = choose|k: int| 0 <= k < raw.len() && (#[trigger] raw[k]).0.same_value(one);
        assert(has_position(points, raw[k].0));
        let j = choose|j: int| 0 <= j < n && (#[trigger] points[j]).0.same_value(raw[k].0);
        assert(in_unit(points[j].0) && in_unit(raw[k].0));
        lemma_same_trans(points[j].0, raw[k].0, one);
        assert(points[j].0.num == points[j].0.den) by (nonlinear_arith)
            requires
                points[j].0.num * 1 == 1 * points[j].0.den,
        ;
        if j < n - 1 {
            assert(points[j].0.lt_spec(points[n - 1].0));
            assert(false) by (nonlinear_arith)
                requires
                    points[j].0.num * points[n - 1].0.den < points[n - 1].0.num * points[j].0.den,
                    points[j].0.num == points[j].0.den,
                    points[n - 1].0.num <= points[n - 1].0.den,
                    points[j].0.den > 0,
            ;
        }
    }
    if points[n - 1].0.num == points[n - 1].0.den {
        assert(has_source(points[n - 1], raw));
        let k = choose|k: int| 0 <= k < raw.len() && #[trigger] source_of(points[n - 1], raw, k);
        assert(in_unit(raw[k].0));
        assert(raw[k].0.num == raw[k].0.den) by (nonlinear_arith)
            requires
                raw[k].0.num * points[n - 1].0.den == points[n - 1].0.num * raw[k].0.den,
                points[n - 1].0.num == points[n - 1].0.den,
                points[n - 1].0.den > 0,
        ;
        assert(raw[k].0.same_value(one));
    }
}

/// Puts a control point among ascending control points: in place of the one
/// at its position, if there is one, else at its place in the order.
fn put_point(
    points: &mut Vec<(BoundedFloat, Color)>,
    pos: BoundedFloat,
    c: Color,
    Ghost(seen): Ghost<Seq<(Fraction, ColorModel)>>,
)
    requires
        ascending(model_of(old(points)@)),
        forall|j: int| 0 <= j < old(points)@.len() ==> (#[trigger] old(points)@[j]).0.wf(),
        collects(model_of(old(points)@), seen),
        in_unit(pos.value()),
        forall|k: int| 0 <= k < seen.len() ==> in_unit(#[trigger] seen[k].0),
    ensures
        ascending(model_of(final(points)@)),
        forall|j: int| 0 <= j < final(points)@.len() ==> (#[trigger] final(points)@[j]).0.wf(),
        collects(model_of(final(points)@), seen.push((pos.value(), c@))),
{
    let f = pos.get();
    let at = locate_in(points, &f);
    let ghost before = model_of(points@);
    let ghost old_points = points@;
    let ghost next = seen.push((f, c@));
    proof {
        use_type_invariant(&pos);
        lemma_first_at_least(before, f, 0);
    }
    if at < points.len() && points[at].0 == pos {
        let kept = points[at].0;
        points[at] = (kept, c);
        proof {
            let after = model_of(points@);
            assert(before[at as int].0 == old_points[at as int].0.value());
            assert(after =~= before.update(at as int, (before[at as int].0, c@)));
            lemma_collects_replace(before, seen, next, at as int, f, c@);
            assert forall|j: int| 0 <= j < points@.len() implies (#[trigger] points@[j]).0.wf() by {
                if j != at {
                    assert(points@[j] == old_points[j]);
                }
            }
        }
    } else {
        proof {
            assert forall|j: int| at <= j < before.len() implies f.lt_spec(
                (#[trigger] before[j]).0,
            ) by {
                assert(before[at as int].0 == old_points[at as int].0.value());
                assert(in_unit(before[at as int].0) && in_unit(before[j].0));
                if j > at {
                    assert(before[at as int].0.lt_spec(before[j].0));
                    lemma_le_lt(f, before[at as int].0, before[j].0);
                }
            }
            assert forall|j: int| 0 <= j < at implies (#[trigger] before[j]).0.lt_spec(f) by {
                assert(!f.le_spec(before[j].0));
            }
        }
        points.insert(at, (pos, c));
        proof {
            let after = model_of(points@);
            assert(after =~= before.insert(at as int, (f, c@)));
            assert forall|j: int| 0 <= j < points@.len() implies (#[trigger] points@[j]).0.wf() by {
                if j < at {
                    assert(points@[j] == old_points[j]);
                } else if j > at {
                    assert(points@[j] == old_points[j - 1]);
                }
            }
            lemma_collects_insert(before, seen, next, at as int, f, c@);
        }
    }
}

/// The index of the first of `points` at or after `pos`.
fn locate_in(points: &Vec<(BoundedFloat, Color)>, pos: &Fraction) -> (at: usize)
    ensures
        at == first_at_least(model_of(points@), *pos, 0),
        at <= points@.len(),
{
    let ghost m = model_of(points@);
    let mut i: usize = 0;
    while i < points.len()
        invariant
            i <= points.len(),
            m == model_of(points@),
            first_at_least(m, *pos, 0) == first_at_least(m, *pos, i as int),
        decreases points.len() - i,
    {
        let here = points[i].0.get();
        assert(m[i as int].0 == here);
        if pos.le(&here) {
            return i;
        }
        i += 1;
    }
    i
}

impl View for Gradient {
    type V = Seq<(Fraction, ColorModel)>;

    closed spec fn view(&self) -> Seq<(Fraction, ColorModel)> {
        model_of(self.points@)
    }
}

/// One interpolated component.
fn mix_component(low: u16, high: u16, tn: i128, td: i128, top: u16) -> (r: u16)
    requires
        0 < td <= 0x10_0000_0000_0000_0000_0000_0000,
        -0x10_0000_0000_0000_0000_0000_0000 <= tn <= 0x10_0000_0000_0000_0000_0000_0000,
    ensures
        r == mix(low as int, high as int, tn as int, td as int, top as int),
{
    let base = mul_within(
        low as i128,
        td,
        Ghost(0x1_0000),
        Ghost(0x10_0000_0000_0000_0000_0000_0000),
    );
    let step = mul_within(
        high as i128 - low as i128,
        tn,
        Ghost(0x1_0000),
        Ghost(0x10_0000_0000_0000_0000_0000_0000),
    );
    round_to(base + step, td, top)
}

/// The blend of two control points at `pos`.
fn blend_points(low: &(BoundedFloat, Color), high: &(BoundedFloat, Color), pos: &BoundedFloat) -> (r:
    Option<Color>)
    requires
        in_unit(low.0.value()),
        in_unit(high.0.value()),
        in_unit(pos.value()),
        low.0.value().same_value(high.0.value()) || low.0.value().lt_spec(high.0.value()),
    ensures
        match blend((low.0.value(), low.1@), (high.0.value(), high.1@), pos.value()) {
            Some(c) => r matches Some(found) && found@ == c,
            None => r is None,
        },
{
    if low.0 == high.0 || low.1.same(&high.1) {
        return Some(low.1.clone());
    }
    let p = pos.get();
    let lo = low.0.get();
    let hi = high.0.get();
    let (a1, a2) = cross(p.num, p.den, lo.num, lo.den);
    let (b1, b2) = cross(hi.num, hi.den, lo.num, lo.den);
    proof {
        crate::theme::color::lemma_mul_bound(p.num as int, lo.den as int, 0x1_0000_0000, 0x1_0000_0000);
        crate::theme::color::lemma_mul_bound(lo.num as int, p.den as int, 0x1_0000_0000, 0x1_0000_0000);
        crate::theme::color::lemma_mul_bound(hi.num as int, lo.den as int, 0x1_0000_0000, 0x1_0000_0000);
        crate::theme::color::lemma_mul_bound(lo.num as int, hi.den as int, 0x1_0000_0000, 0x1_0000_0000);
    }
    let tn = mul_within(
        a1 - a2,
        hi.den as i128,
        Ghost(0x2_0000_0000_0000_0000),
        Ghost(0x1_0000_0000),
    );
    let td = mul_within(
        p.den as i128,
        b1 - b2,
        Ghost(0x1_0000_0000),
        Ghost(0x2_0000_0000_0000_0000),
    );
    assert(td > 0) by (nonlinear_arith)
        requires
            td == p.den * (b1 - b2),
            p.den > 0,
            b1 - b2 > 0,
    ;
    let low_simple = low.1.to_simple();
    let high_simple = high.1.to_simple();
    match (low_simple, high_simple) {
        (Ok(SimpleColor::Hsla(h0, s0, l0, a0)), Ok(SimpleColor::Hsla(h1, s1, l1, a1))) => Some(
            Color::Hsla {
                h: mix_component(h0, h1, tn, td, 0xFFFF),
                s: mix_component(s0 as u16, s1 as u16, tn, td, 255) as u8,
                l: mix_component(l0 as u16, l1 as u16, tn, td, 255) as u8,
                a: mix_component(a0 as u16, a1 as u16, tn, td, 255) as u8,
            },
        ),
        (Ok(SimpleColor::Rgba(r0, g0, b0, a0)), Ok(SimpleColor::Rgba(r1, g1, b1, a1))) => Some(
            Color::Rgba {
                r: mix_component(r0 as u16, r1 as u16, tn, td, 255) as u8,
                g: mix_component(g0 as u16, g1 as u16, tn, td, 255) as u8,
                b: mix_component(b0 as u16, b1 as u16, tn, td, 255) as u8,
                a: mix_component(a0 as u16, a1 as u16, tn, td, 255) as u8,
            },
        ),
        _ => None,
    }
}

impl Gradient {
    /// What holds of every gradient that this module hands out, and what
    /// its functions ask of the gradients they are given.
    pub closed spec fn wf(&self) -> bool {
        points_wf(self.points@)
    }

    /// The control points of every gradient are well formed.
    pub proof fn lemma_well_formed(&self)
        requires
            self.wf(),
        ensures
            well_formed(self@),
    {
    }

    /// The gradient from `low` at position zero to `high` at position one.
    pub fn new(low: Color, high: Color) -> (g: Gradient)
        ensures
            g@ == seq![
                (Fraction { num: 0, den: 1 }, low@),
                (Fraction { num: 1, den: 1 }, high@),
            ],
            g.wf(),
    {
        let zero = BoundedFloat::min(0, 1);
        let one = BoundedFloat::max(0, 1);
        let mut points: Vec<(BoundedFloat, Color)> = Vec::new();
        points.push((zero, low));
        points.push((one, high));
        proof {
            let m = model_of(points@);
            assert(m =~= seq![
                (Fraction { num: 0, den: 1 }, low@),
                (Fraction { num: 1, den: 1 }, high@),
            ]);
            assert(points@[0].0 == zero && points@[1].0 == one);
            assert(m[0].0 == Fraction { num: 0, den: 1 });
            assert(m[1].0 == Fraction { num: 1, den: 1 });
            let (a, b) = (m[0].0, m[1].0);
            assert(a.num * b.den < b.num * a.den) by (nonlinear_arith)
                requires
                    a.num == 0,
                    a.den == 1,
                    b.num == 1,
                    b.den == 1,
            ;
            assert(well_formed(m));
            assert forall|i: int| 0 <= i < points@.len() implies (#[trigger] points@[i]).0.wf() by {
                if i == 0 {
                    assert(points@[0].0 == zero);
                } else {
                    assert(points@[1].0 == one);
                }
            }
        }
        Gradient { points }
    }

    /// The index of the first control point at or after `pos`.
    fn locate(&self, pos: &Fraction) -> (at: usize)
        ensures
            at == first_at_least(self@, *pos, 0),
            at <= self@.len(),
    {
        locate_in(&self.points, pos)
    }

    /// The gradient with the given control points. Where several share a
    /// position, the last of them counts. There is no gradient where a
    /// position is not a number from zero to one, or where no control point
    /// lies at zero or none at one.
    pub fn from_points(raw: &Vec<(Fraction, Color)>) -> (r: Result<Gradient, GradientError>)
        ensures
            match r {
                Err(GradientError::OutOfBounds { index }) => {
                    &&& index < raw@.len()
                    &&& !in_unit(raw@[index as int].0)
                    &&& forall|k: int| 0 <= k < index ==> in_unit(#[trigger] raw@[k].0)
                },
                Err(GradientError::MissingBoundary) => {
                    &&& forall|k: int| 0 <= k < raw@.len() ==> in_unit(#[trigger] raw@[k].0)
                    &&& !(has_position(raw_model(raw@), Fraction { num: 0, den: 1 })
                        && has_position(raw_model(raw@), Fraction { num: 1, den: 1 }))
                },
                Ok(g) => {
                    &&& g.wf()
                    &&& forall|k: int| 0 <= k < raw@.len() ==> in_unit(#[trigger] raw@[k].0)
                    &&& has_position(raw_model(raw@), Fraction { num: 0, den: 1 })
                    &&& has_position(raw_model(raw@), Fraction { num: 1, den: 1 })
                    &&& collects(g@, raw_model(raw@))
                },
            },
    {
        let ghost rawm = raw_model(raw@);
        let mut points: Vec<(BoundedFloat, Color)> = Vec::new();
        let mut i: usize = 0;
        proof {
            assert(rawm.subrange(0, 0).len() == 0);
        }
        while i < raw.len()
            invariant
                i <= raw.len(),
                rawm == raw_model(raw@),
                forall|k: int| 0 <= k < i ==> in_unit(#[trigger] raw@[k].0),
                ascending(model_of(points@)),
                forall|j: int| 0 <= j < points@.len() ==> (#[trigger] points@[j]).0.wf(),
                collects(model_of(points@), rawm.subrange(0, i as int)),
            decreases raw.len() - i,
        {
            let f = raw[i].0;
            let c = raw[i].1.clone();
            let pos = match BoundedFloat::new(f, 0, 1) {
                Some(b) => b,
                None => {
                    return Err(GradientError::OutOfBounds { index: i });
                },
            };
            proof {
                assert(rawm.subrange(0, i + 1) =~= rawm.subrange(0, i as int).push((f, c@)));
                assert forall|k: int| 0 <= k < i implies in_unit(
                    #[trigger] rawm.subrange(0, i as int)[k].0,
                ) by {
                    assert(rawm.subrange(0, i as int)[k].0 == raw@[k].0);
                }
            }
            put_point(&mut points, pos, c, Ghost(rawm.subrange(0, i as int)));
            i += 1;
        }
        proof {
            assert(rawm.subrange(0, raw@.len() as int) =~= rawm);
        }
        let ghost m = model_of(points@);
        let n = points.len();
        if n == 0 {
            proof {
                lemma_no_boundary_without_points(m, rawm);
            }
            return Err(GradientError::MissingBoundary);
        }
        let first = points[0].0.get();
        let last = points[n - 1].0.get();
        proof {
            assert(m[0].0 == first);
            assert(m[n - 1].0 == last);
            lemma_boundaries(m, rawm);
        }
        if first.num == 0 && last.num == last.den as i64 {
            proof {
                assert(n >= 2) by {
                    if n == 1 {
                        assert(first.num == 0 && first.num == first.den);
                    }
                }
            }
            Ok(Gradient { points })
        } else {
            Err(GradientError::MissingBoundary)
        }
    }

    /// The colour at `pos`: the colour stored there if `pos` is a control
    /// point, else the colour interpolated between the control points on
    /// either side. There is none where `pos` does not lie between zero and
    /// one, or where the colours on either side cannot be interpolated.
    pub fn calc_color_at(&self, pos: &BoundedFloat) -> (r: Option<Color>)
        requires
            self.wf(),
        ensures
            match color_at(self@, pos.value()) {
                Some(c) => r matches Some(found) && found@ == c,
                None => r is None,
            },
    {
        let p = pos.get();
        if p.num < 0 || p.num > p.den as i64 {
            return None;
        }
        let hi = self.locate(&p);
        if hi >= self.points.len() {
            return None;
        }
        assert(self@[hi as int].0 == self.points@[hi as int].0.value());
        assert(in_unit(self@[hi as int].0));
        if self.points[hi].0 == *pos {
            blend_points(&self.points[hi], &self.points[hi], pos)
        } else if hi == 0 {
            None
        } else {
            assert(self@[hi - 1].0 == self.points@[hi - 1].0.value());
            assert(in_unit(self@[hi - 1].0));
            assert(self@[hi - 1].0.lt_spec(self@[hi as int].0));
            blend_points(&self.points[hi - 1], &self.points[hi], pos)
        }
    }

    /// The colour at `pos`.
    pub fn get(&self, pos: BoundedFloat) -> (c: Color)
        requires
            self.wf(),
            color_at(self@, pos.value()) is Some,
        ensures
            Some(c@) == color_at(self@, pos.value()),
    {
        self.calc_color_at(&pos).unwrap()
    }

    /// Makes `pos` a control point, with the colour that the gradient has
    /// there, unless it is one already.
    pub fn inflect_at(&mut self, pos: BoundedFloat)
        requires
            old(self).wf(),
            color_at(old(self)@, pos.value()) is Some,
        ensures
            final(self).wf(),
            final(self)@ == with_point(
                old(self)@,
                pos.value(),
                color_at(old(self)@, pos.value())->0,
            ),
            color_at(final(self)@, pos.value()) == color_at(old(self)@, pos.value()),
    {
        let color = self.get(pos);
        let p = pos.get();
        let at = self.locate(&p);
        proof {
            lemma_first_at_least(self@, p, 0);
        }
        if self.points[at].0 == pos {
            return ;
        }
        let ghost before = self@;
        let ghost old_points = self.points@;
        proof {
            assert(before[at as int].0 == old_points[at as int].0.value());
            assert(at > 0);
            use_type_invariant(&pos);
            pos.lemma_wf();
            assert forall|j: int| at <= j < before.len() implies p.lt_spec(
                (#[trigger] before[j]).0,
            ) by {
                if j > at {
                    lemma_le_lt(p, before[at as int].0, before[j].0);
                }
            }
            assert forall|j: int| 0 <= j < at implies (#[trigger] before[j]).0.lt_spec(p) by {
                assert(!p.le_spec(before[j].0));
            }
        }
        self.points.insert(at, (pos, color));
        proof {
            let after = model_of(self.points@);
            assert(after =~= before.insert(at as int, (p, color@)));
            assert forall|i: int| 0 <= i < after.len() implies in_unit(#[trigger] after[i].0) by {
                if i < at {
                    assert(after[i] == before[i]);
                } else if i > at {
                    assert(after[i] == before[i - 1]);
                }
            }
            assert forall|i: int, j: int| 0 <= i < j < after.len() implies (#[trigger] after[i]).0.lt_spec(
                (#[trigger] after[j]).0,
            ) by {
                let bi = if i < at { i } else { i - 1 };
                let bj = if j < at { j } else { j - 1 };
                if i == at {
                    assert(after[j] == before[bj]);
                } else if j == at {
                    assert(after[i] == before[bi]);
                } else {
                    assert(after[i] == before[bi]);
                    assert(after[j] == before[bj]);
                }
            }
            assert(after[0] == before[0]);
            assert(after[after.len() - 1] == before[before.len() - 1]);
            assert forall|i: int| 0 <= i < self.points@.len() implies (#[trigger] self.points@[i]).0.wf() by {
                if i < at {
                    assert(self.points@[i] == old_points[i]);
                } else if i > at {
                    assert(self.points@[i] == old_points[i - 1]);
                }
            }
            lemma_color_at_control_point(after, at as int, p);
        }
    }

    /// Makes `pos` a control point, with the colour that the gradient has
    /// there, unless it is one already, and hands out the colour stored at
    /// `pos` for the caller to change.
    pub fn get_mut(&mut self, pos: BoundedFloat) -> (c: &mut Color)
        requires
            old(self).wf(),
            color_at(old(self)@, pos.value()) is Some,
        ensures
            Some(c@) == color_at(old(self)@, pos.value()),
            final(self).wf(),
            final(self)@ == stored_at(
                with_point(old(self)@, pos.value(), color_at(old(self)@, pos.value())->0),
                first_at_least(old(self)@, pos.value(), 0),
                final(c)@,
            ),
    {
        let ghost before = self@;
        proof {
            lemma_first_at_least(before, pos.value(), 0);
        }
        self.inflect_at(pos);
        let p = pos.get();
        let at = self.locate(&p);
        let ghost mid = self@;
        let ghost mid_points = self.points@;
        proof {
            let k = first_at_least(before, p, 0);
            if 0 <= k < before.len() && before[k].0.same_value(p) {
                assert(at == k);
            } else {
                assert(mid[k].0 == p);
                lemma_color_at_control_point(mid, k, p);
            }
            lemma_first_at_least(mid, p, 0);
        }
        proof {
            assert forall|x: Color|
                points_wf(#[trigger] mid_points.update(at as int, (mid_points[at as int].0, x))) by {
                let end = mid_points.update(at as int, (mid_points[at as int].0, x));
                assert forall|i: int| 0 <= i < end.len() implies (#[trigger] end[i]).0
                    == mid_points[i].0 by {}
                assert(model_of(end) =~= stored_at(mid, at as int, x@));
                assert forall|i: int| 0 <= i < end.len() implies (#[trigger] model_of(end)[i]).0
                    == mid[i].0 by {}
                assert(well_formed(model_of(end)));
            }
        }
        &mut self.points[at].1
    }

    /// The gradient with every colour in another notation: in `Hsla` if
    /// `hsl` is set, else in `Rgba`. Where a colour cannot be converted,
    /// the first such colour is handed back in the error.
    pub fn converted(&self, hsl: bool) -> (r: Result<Gradient, TransformColorError>)
        requires
            self.wf(),
        ensures
            match first_unconverted(self@, 0) {
                Some(i) => r matches Err(TransformColorError::NonEligibleColor(c)) && c@
                    == self@[i].1,
                None => r matches Ok(g) && g.wf() && g@ == converted_points(self@, hsl),
            },
    {
        let ghost m = self@;
        let mut points: Vec<(BoundedFloat, Color)> = Vec::new();
        let mut i: usize = 0;
        while i < self.points.len()
            invariant
                i <= self.points.len(),
                m == self@,
                m == model_of(self.points@),
                self.wf(),
                points@.len() == i,
                first_unconverted(m, 0) == first_unconverted(m, i as int),
                forall|j: int|
                    0 <= j < i ==> (#[trigger] points@[j]).0 == self.points@[j].0 && points@[j].1@
                        == converted_color(m[j].1, hsl),
            decreases self.points.len() - i,
        {
            assert(m[i as int] == (self.points@[i as int].0.value(), self.points@[i as int].1@));
            let color = if hsl {
                self.points[i].1.to_hsla_color()
            } else {
                self.points[i].1.to_rgba_color()
            };
            match color {
                Err(e) => {
                    return Err(e);
                },
                Ok(c) => {
                    points.push((self.points[i].0, c));
                },
            }
            i += 1;
        }
        proof {
            let after = model_of(points@);
            assert(after =~= converted_points(m, hsl));
            assert forall|j: int| 0 <= j < after.len() implies (#[trigger] after[j]).0 == m[j].0 by {}
            assert(well_formed(after));
        }
        Ok(Gradient { points })
    }

    /// Red, green, blue and opacity of the gradient at the `steps + 1`
    /// positions from zero to one that lie `1 / steps` apart. There is none
    /// where the gradient has no colour at one of these positions, or a
    /// colour that has no red, green and blue.
    pub fn samples(&self, steps: u16) -> (r: Option<Vec<[u8; 4]>>)
        requires
            self.wf(),
            steps > 0,
        ensures
            match first_unsampled(self@, steps as int, 0) {
                Some(_) => r is None,
                None => r matches Some(v) && v@.len() == steps + 1 && forall|i: int|
                    0 <= i <= steps ==> Some(
                        (
                            (#[trigger] v@[i])[0],
                            v@[i][1],
                            v@[i][2],
                            v@[i][3],
                        ),
                    ) == sample_at(self@, steps as int, i),
            },
    {
        let mut out: Vec<[u8; 4]> = Vec::new();
        let mut i: u32 = 0;
        while i <= steps as u32
            invariant
                i <= steps + 1,
                steps > 0,
                self.wf(),
                out@.len() == i,
                first_unsampled(self@, steps as int, 0) == first_unsampled(
                    self@,
                    steps as int,
                    i as int,
                ),
                forall|j: int|
                    0 <= j < i ==> Some(
                        ((#[trigger] out@[j])[0], out@[j][1], out@[j][2], out@[j][3]),
                    ) == sample_at(self@, steps as int, j),
            decreases steps + 1 - i,
        {
            let position = BoundedFloat::new(Fraction::new(i as i64, steps as u32), 0, 1).unwrap();
            let rgba = match self.calc_color_at(&position) {
                None => {
                    return None;
                },
                Some(color) => match color.to_rgba() {
                    Err(_) => {
                        return None;
                    },
                    Ok(v) => v,
                },
            };
            out.push(rgba);
            i += 1;
        }
        Some(out)
    }

    /// The control points, in ascending order of position.
    pub fn points(&self) -> (r: &Vec<(BoundedFloat, Color)>)
        ensures
            r@.len() == self@.len(),
            forall|i: int|
                0 <= i < r@.len() ==> (#[trigger] r@[i]).0.value() == self@[i].0 && r@[i].1@
                    == self@[i].1,
    {
        &self.points
    }
}

} // verus!
