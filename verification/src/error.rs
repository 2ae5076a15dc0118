//! The errors of compiling a style.

use vstd::prelude::*;

verus! {

/// Why a style cannot be compiled. Each of these is a defect of the
/// configuration, and none is passed over: a style that has one compiles to
/// nothing.
#[derive(Debug, PartialEq, Eq)]
pub enum Error {
    /// A value refers to a palette that the theme does not have.
    UnknownPalette(String),
    /// A value refers to a colour that the palette does not have.
    UnknownSelector { palette: String, selector: String },
    /// The value that a variable falls back on has no text of its own.
    InvalidFallback,
    /// A computed value with this identity was met, and what its function
    /// gives was not handed in.
    UnresolvedCallback(u64),
    /// Computed values give computed values without end.
    CallbackCycle,
}

/// The mathematical value of an [`Error`].
pub ghost enum ErrorModel {
    UnknownPalette(Seq<char>),
    UnknownSelector { palette: Seq<char>, selector: Seq<char> },
    InvalidFallback,
    UnresolvedCallback(u64),
    CallbackCycle,
}

impl View for Error {
    type V = ErrorModel;

    open spec fn view(&self) -> ErrorModel {
        match self {
            Error::UnknownPalette(p) => ErrorModel::UnknownPalette(p@),
            Error::UnknownSelector { palette, selector } => ErrorModel::UnknownSelector {
                palette: palette@,
                selector: selector@,
            },
            Error::InvalidFallback => ErrorModel::InvalidFallback,
            Error::UnresolvedCallback(id) => ErrorModel::UnresolvedCallback(*id),
            Error::CallbackCycle => ErrorModel::CallbackCycle,
        }
    }
}

} // verus!
