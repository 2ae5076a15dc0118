//! Properties that every component of the system has.

use vstd::prelude::*;
use crate::style::{color_of, variant_of, Color, Variant};

verus! {

/// The variant that was asked for, if one was.
#[derive(Debug, Clone, Copy, PartialEq, Eq, Structural)]
pub struct VariantProp(pub Option<Variant>);

/// The colour scheme that was asked for, if one was.
#[derive(Debug, Clone, Copy, PartialEq, Eq, Structural)]
pub struct ColorProp(pub Option<Color>);

impl Default for VariantProp {
    fn default() -> (r: VariantProp)
        ensures
            r.0 is None,
    {
        VariantProp(None)
    }
}

impl Default for ColorProp {
    fn default() -> (r: ColorProp)
        ensures
            r.0 is None,
    {
        ColorProp(None)
    }
}

impl VariantProp {
    /// The property that asks for the variant called `name`. There is none
    /// where no variant has that name.
    pub fn from_name(name: &str) -> (r: Option<VariantProp>)
        ensures
            match variant_of(name@) {
                Some(v) => r == Some(VariantProp(Some(v))),
                None => r is None,
            },
    {
        match Variant::from_name(name) {
            Some(v) => Some(VariantProp(Some(v))),
            None => None,
        }
    }

    /// The property that asks for `variant`.
    pub fn from_variant(variant: Variant) -> (r: VariantProp)
        ensures
            r == VariantProp(Some(variant)),
    {
        VariantProp(Some(variant))
    }

    /// The variant that was asked for.
    pub fn get(&self) -> (r: Option<Variant>)
        ensures
            r == self.0,
    {
        self.0
    }
}

impl ColorProp {
    /// The property that asks for the colour scheme called `name`. There is
    /// none where no colour scheme has that name.
    pub fn from_name(name: &str) -> (r: Option<ColorProp>)
        ensures
            match color_of(name@) {
                Some(c) => r == Some(ColorProp(Some(c))),
                None => r is None,
            },
    {
        match Color::from_name(name) {
            Some(c) => Some(ColorProp(Some(c))),
            None => None,
        }
    }

    /// The property that asks for `color`.
    pub fn from_color(color: Color) -> (r: ColorProp)
        ensures
            r == ColorProp(Some(color)),
    {
        ColorProp(Some(color))
    }

    /// The colour scheme that was asked for.
    pub fn get(&self) -> (r: Option<Color>)
        ensures
            r == self.0,
    {
        self.0
    }
}

} // verus!
