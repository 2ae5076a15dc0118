//! A declarative style-expression compiler.
//!
//! A tree of style properties (literals, numeric dimensions, theme
//! references, computed callbacks and nested sub-rules) is compiled into flat
//! CSS text. Shorthand property names, theme tokens, colours and
//! breakpoint-driven media queries are resolved along the way.
//!
//! Every function of this crate carries a contract that is proved by Verus.
//! The few places where another crate is called are marked as such and state
//! exactly what is taken on trust.

pub mod utils;
pub mod theme;
pub mod system_props;
pub mod style;
pub mod components;
pub mod error;
