//! The general look of components: variant, colour scheme and size.

use vstd::prelude::*;
use crate::utils::text::str_eq;

verus! {

/// The variant of a component.
#[derive(Debug, Clone, Copy, PartialEq, Eq, Hash, Structural)]
pub enum Variant {
    /// Plain.
    Plain,
    /// Outlined.
    Outlined,
    /// A softer look.
    Soft,
    /// A solid look.
    Solid,
}

/// The colour scheme of a component.
#[derive(Debug, Clone, Copy, PartialEq, Eq, Hash, Structural)]
pub enum Color {
    Neutral,
    Primary,
    Success,
    Fatal,
    Warn,
}

/// A general size.
#[derive(Debug, Clone, Copy, PartialEq, Eq, Hash, Structural)]
pub enum Size {
    Xs,
    Sm,
    Md,
    Lg,
    Xl,
}

/// A text that names no size.
#[derive(Debug, PartialEq, Eq)]
pub struct UnknownSize(pub String);

/// The name of a variant, in lower case.
pub open spec fn variant_name(v: Variant) -> Seq<char> {
    match v {
        Variant::Plain => "plain"@,
        Variant::Outlined => "outlined"@,
        Variant::Soft => "soft"@,
        Variant::Solid => "solid"@,
    }
}

/// The name of a colour scheme, in lower case.
pub open spec fn color_name(c: Color) -> Seq<char> {
    match c {
        Color::Neutral => "neutral"@,
        Color::Primary => "primary"@,
        Color::Success => "success"@,
        Color::Fatal => "fatal"@,
        Color::Warn => "warn"@,
    }
}

/// The name of a size, in lower case.
pub open spec fn size_name(s: Size) -> Seq<char> {
    match s {
        Size::Xs => "xs"@,
        Size::Sm => "sm"@,
        Size::Md => "md"@,
        Size::Lg => "lg"@,
        Size::Xl => "xl"@,
    }
}

/// The variant with the name `name`. Where two variants had one name, the
/// first would count.
pub open spec fn variant_of(name: Seq<char>) -> Option<Variant> {
    if name == variant_name(Variant::Plain) {
        Some(Variant::Plain)
    } else if name == variant_name(Variant::Outlined) {
        Some(Variant::Outlined)
    } else if name == variant_name(Variant::Soft) {
        Some(Variant::Soft)
    } else if name == variant_name(Variant::Solid) {
        Some(Variant::Solid)
    } else {
        None
    }
}

/// The colour scheme with the name `name`.
pub open spec fn color_of(name: Seq<char>) -> Option<Color> {
    if name == color_name(Color::Neutral) {
        Some(Color::Neutral)
    } else if name == color_name(Color::Primary) {
        Some(Color::Primary)
    } else if name == color_name(Color::Success) {
        Some(Color::Success)
    } else if name == color_name(Color::Fatal) {
        Some(Color::Fatal)
    } else if name == color_name(Color::Warn) {
        Some(Color::Warn)
    } else {
        None
    }
}

/// The size with the name `name`.
pub open spec fn size_of(name: Seq<char>) -> Option<Size> {
    if name == size_name(Size::Xs) {
        Some(Size::Xs)
    } else if name == size_name(Size::Sm) {
        Some(Size::Sm)
    } else if name == size_name(Size::Md) {
        Some(Size::Md)
    } else if name == size_name(Size::Lg) {
        Some(Size::Lg)
    } else if name == size_name(Size::Xl) {
        Some(Size::Xl)
    } else {
        None
    }
}

impl Default for Variant {
    fn default() -> (r: Variant)
        ensures
            r == Variant::Plain,
    {
        Variant::Plain
    }
}

impl Default for Color {
    fn default() -> (r: Color)
        ensures
            r == Color::Neutral,
    {
        Color::Neutral
    }
}

impl Default for Size {
    fn default() -> (r: Size)
        ensures
            r == Size::Md,
    {
        Size::Md
    }
}

impl Variant {
    /// The name of the variant, in lower case.
    pub fn as_str(&self) -> (r: &'static str)
        ensures
            r@ == variant_name(*self),
    {
        match self {
            Variant::Plain => "plain",
            Variant::Outlined => "outlined",
            Variant::Soft => "soft",
            Variant::Solid => "solid",
        }
    }

    /// The name of the variant, in lower case.
    pub fn to_string(&self) -> (r: String)
        ensures
            r@ == variant_name(*self),
    {
        self.as_str().to_owned()
    }

    /// The variant with the name `name`, if there is one.
    pub fn from_name(name: &str) -> (r: Option<Variant>)
        ensures
            r == variant_of(name@),
    {
        if str_eq(name, Variant::Plain.as_str()) {
            Some(Variant::Plain)
        } else if str_eq(name, Variant::Outlined.as_str()) {
            Some(Variant::Outlined)
        } else if str_eq(name, Variant::Soft.as_str()) {
            Some(Variant::Soft)
        } else if str_eq(name, Variant::Solid.as_str()) {
            Some(Variant::Solid)
        } else {
            None
        }
    }
}

impl Color {
    /// The name of the colour scheme, in lower case.
    pub fn as_str(&self) -> (r: &'static str)
        ensures
            r@ == color_name(*self),
    {
        match self {
            Color::Neutral => "neutral",
            Color::Primary => "primary",
            Color::Success => "success",
            Color::Fatal => "fatal",
            Color::Warn => "warn",
        }
    }

    /// The name of the colour scheme, in lower case.
    pub fn to_string(&self) -> (r: String)
        ensures
            r@ == color_name(*self),
    {
        self.as_str().to_owned()
    }

    /// The colour scheme with the name `name`, if there is one.
    pub fn from_name(name: &str) -> (r: Option<Color>)
        ensures
            r == color_of(name@),
    {
        if str_eq(name, Color::Neutral.as_str()) {
            Some(Color::Neutral)
        } else if str_eq(name, Color::Primary.as_str()) {
            Some(Color::Primary)
        } else if str_eq(name, Color::Success.as_str()) {
            Some(Color::Success)
        } else if str_eq(name, Color::Fatal.as_str()) {
            Some(Color::Fatal)
        } else if str_eq(name, Color::Warn.as_str()) {
            Some(Color::Warn)
        } else {
            None
        }
    }
}

impl Size {
    /// The name of the size, in lower case.
    pub fn as_str(&self) -> (r: &'static str)
        ensures
            r@ == size_name(*self),
    {
        match self {
            Size::Xs => "xs",
            Size::Sm => "sm",
            Size::Md => "md",
            Size::Lg => "lg",
            Size::Xl => "xl",
        }
    }

    /// The name of the size, in lower case.
    pub fn to_string(&self) -> (r: String)
        ensures
            r@ == size_name(*self),
    {
        self.as_str().to_owned()
    }

    /// The size with the name `value`, or `value` as an error.
    pub fn try_from(value: &str) -> (r: Result<Size, UnknownSize>)
        ensures
            match size_of(value@) {
                Some(s) => r == Ok::<Size, UnknownSize>(s),
                None => r matches Err(e) && e.0@ == value@,
            },
    {
        if str_eq(value, Size::Xs.as_str()) {
            Ok(Size::Xs)
        } else if str_eq(value, Size::Sm.as_str()) {
            Ok(Size::Sm)
        } else if str_eq(value, Size::Md.as_str()) {
            Ok(Size::Md)
        } else if str_eq(value, Size::Lg.as_str()) {
            Ok(Size::Lg)
        } else if str_eq(value, Size::Xl.as_str()) {
            Ok(Size::Xl)
        } else {
            Err(UnknownSize(value.to_owned()))
        }
    }
}

} // verus!
