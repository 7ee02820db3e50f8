//! The `drop-shadow` color argument, parsed by the `cssparser` crate
//! through one trusted wrapper.

use crate::types::{spec_black, Rgba};
use vstd::prelude::*;

verus! {

/// What the CSS color grammar yields for a text: four channels when the
/// text is a color that has them, `None` for `currentcolor` or anything
/// unparsable.  The outcome is a function of the text alone; it is named
/// here rather than spelled out, and nothing more is assumed of it.
pub uninterp spec fn color_of(s: Seq<char>) -> Option<(u8, u8, u8, u8)>;

/// Relies on cssparser's `Color::parse` (CSS Color Module Level 3 syntax:
/// hex, named and functional colors): the result is a function of the text
/// alone; `CurrentColor` and parse errors are folded into `None`.
#[verifier::external_body]
pub(crate) fn parse_color(text: &str) -> (r: Option<(u8, u8, u8, u8)>)
    ensures
        r == color_of(text@),
{
    let mut input = cssparser::ParserInput::new(text);
    let mut parser = cssparser::Parser::new(&mut input);
    match cssparser::Color::parse(&mut parser) {
        Ok(cssparser::Color::RGBA(c)) => Some((c.red, c.green, c.blue, c.alpha)),
        _ => None,
    }
}

/// The color a shadow actually gets from a parse outcome: the parsed
/// channels, or opaque black when there was none.
pub open spec fn spec_color_or_black(c: Option<(u8, u8, u8, u8)>) -> Rgba {
    match c {
        Some(t) => Rgba { red: t.0, green: t.1, blue: t.2, alpha: t.3 },
        None => spec_black(),
    }
}

/// Turns a color parse outcome into the shadow color, defaulting to opaque
/// black exactly when the outcome is `None`.
pub fn color_or_black(c: Option<(u8, u8, u8, u8)>) -> (out: Rgba)
    ensures
        out == spec_color_or_black(c),
{
    match c {
        Some(t) => Rgba { red: t.0, green: t.1, blue: t.2, alpha: t.3 },
        None => Rgba::black(),
    }
}

} // verus!
