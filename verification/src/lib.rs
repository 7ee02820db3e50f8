//! A parser for CSS `filter` property value lists.
//!
//! The entry point [`filter::css_filter`] turns a textual filter-function
//! list such as `"blur(2px) brightness(150%)"` into an ordered list of typed,
//! unit-normalized filter operations, together with the unconsumed remainder
//! of the input.  Numeric arguments are kept as exact rational numbers
//! ([`types::Ratio`]) normalized to CSS pixels; the general properties of
//! the parser are stated and proved in [`laws`].

pub mod color;
pub mod filter;
pub mod laws;
pub mod number;
pub mod scan;
pub mod types;
pub mod unit;

pub use color::color_or_black;
pub use filter::{
    blur_parser, brightness_parser, contrast_parser, css_filter, number_percentage,
    parse_drop_shadow,
};
pub use types::{CssFilter, ParseFilterError, Ratio, Rgba};
pub use unit::pixel;
