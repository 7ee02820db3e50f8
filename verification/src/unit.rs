//! Length arguments: splitting off the unit portion and normalizing to CSS
//! pixels through a fixed rational conversion table.

use crate::number::{decimal_at, spec_decimal};
use crate::scan::{
    eq_range, find_char, rskip_ws, seek_unit, skip_ws, spec_eq_range, spec_find, spec_rskip_ws,
    spec_seek_unit, spec_skip_ws,
};
use crate::types::{ratio_res_ok, ratio_scaled, spec_ratio, ParseFilterError, Ratio, SpecParseError};
use vstd::prelude::*;

verus! {

/// Pixels per unit, as a rational `(numerator, denominator)`:
/// `em`/`rem`/`pc` are 16 px, `pt` is 4/3 px, `px` is 1, `in` is 96 px,
/// `cm` is 96/2.54 px, `mm` is 96/25.4 px, `q` is a quarter millimeter and
/// `%` counts 16 px per 100.  Anything else is unknown.
pub open spec fn spec_unit(s: Seq<char>, a: int, b: int) -> Option<(int, int)> {
    if spec_eq_range(s, a, b, "em"@) || spec_eq_range(s, a, b, "rem"@) || spec_eq_range(
        s,
        a,
        b,
        "pc"@,
    ) {
        Some((16, 1))
    } else if spec_eq_range(s, a, b, "pt"@) {
        Some((4, 3))
    } else if spec_eq_range(s, a, b, "px"@) {
        Some((1, 1))
    } else if spec_eq_range(s, a, b, "in"@) {
        Some((96, 1))
    } else if spec_eq_range(s, a, b, "cm"@) {
        Some((4800, 127))
    } else if spec_eq_range(s, a, b, "mm"@) {
        Some((480, 127))
    } else if spec_eq_range(s, a, b, "q"@) {
        Some((120, 127))
    } else if spec_eq_range(s, a, b, "%"@) {
        Some((4, 25))
    } else {
        None
    }
}

/// Looks the unit text `[a, b)` up in the conversion table.
fn unit_at(s: &str, a: usize, b: usize) -> (r: Option<(u64, u64)>)
    requires
        a <= b,
        b <= s@.len(),
    ensures
        match (r, spec_unit(s@, a as int, b as int)) {
            (Some((n, d)), Some((sn, sd))) => n == sn && d == sd && 1 <= n <= 9600 && 1 <= d
                <= 127,
            (None, None) => true,
            _ => false,
        },
{
    if eq_range(s, a, b, "em") || eq_range(s, a, b, "rem") || eq_range(s, a, b, "pc") {
        Some((16, 1))
    } else if eq_range(s, a, b, "pt") {
        Some((4, 3))
    } else if eq_range(s, a, b, "px") {
        Some((1, 1))
    } else if eq_range(s, a, b, "in") {
        Some((96, 1))
    } else if eq_range(s, a, b, "cm") {
        Some((4800, 127))
    } else if eq_range(s, a, b, "mm") {
        Some((480, 127))
    } else if eq_range(s, a, b, "q") {
        Some((120, 127))
    } else if eq_range(s, a, b, "%") {
        Some((4, 25))
    } else {
        None
    }
}

/// A length argument in the window `[a, b)`: the numeric portion runs to
/// the first alphabetic or `%` character, the unit portion from there to
/// the next `)` (or the window's end); both are trimmed, the number is
/// parsed as a decimal literal and scaled by the unit's pixel multiplier.
/// An empty unit is allowed only on a literal zero; a unit outside the
/// table is an error naming the offending unit text.  The exact rational
/// must fit a 64-bit `Ratio`.
pub open spec fn spec_pixel(s: Seq<char>, a: int, b: int) -> Result<Ratio, SpecParseError> {
    let k1 = spec_seek_unit(s, a, b);
    let k2 = match spec_find(s, k1, b, ')') {
        Some(k) => k,
        None => b,
    };
    let sl = spec_skip_ws(s, a, k1);
    let sr = spec_rskip_ws(s, sl, k1);
    match spec_decimal(s, sl, sr) {
        None => Err(SpecParseError::FloatParseError),
        Some((neg, m, f)) => {
            let ul = spec_skip_ws(s, k1, k2);
            let ur = spec_rskip_ws(s, ul, k2);
            if ul == ur {
                if m == 0 {
                    Ok(Ratio { num: 0, den: 1 })
                } else {
                    Err(SpecParseError::UnitParseError("[No unit assigned]"@))
                }
            } else {
                match spec_unit(s, ul, ur) {
                    Some((un, ud)) => match spec_ratio(neg, m, un, ud, f) {
                        Some(rt) => Ok(rt),
                        None => Err(SpecParseError::FloatParseError),
                    },
                    None => Err(SpecParseError::UnitParseError(s.subrange(ul, ur))),
                }
            }
        },
    }
}

/// Executable form of [`spec_pixel`].
pub(crate) fn pixel_at(s: &str, a: usize, b: usize) -> (r: Result<Ratio, ParseFilterError>)
    requires
        a <= b,
        b <= s@.len(),
    ensures
        ratio_res_ok(r, spec_pixel(s@, a as int, b as int)),
{
    let k1 = seek_unit(s, a, b);
    let k2 = match find_char(s, k1, b, ')') {
        Some(k) => k,
        None => b,
    };
    let sl = skip_ws(s, a, k1);
    let sr = rskip_ws(s, sl, k1);
    match decimal_at(s, sl, sr) {
        None => Err(ParseFilterError::FloatParseError),
        Some((neg, m, gmv, f)) => {
            let ul = skip_ws(s, k1, k2);
            let ur = rskip_ws(s, ul, k2);
            if ul == ur {
                let mzero = match m {
                    Some(x) => x == 0,
                    None => false,
                };
                if mzero {
                    Ok(Ratio { num: 0, den: 1 })
                } else {
                    Err(ParseFilterError::UnitParseError("[No unit assigned]".to_owned()))
                }
            } else {
                match unit_at(s, ul, ur) {
                    Some((un, ud)) => match ratio_scaled(neg, m, gmv, un, ud, f as i128) {
                        Some(rt) => Ok(rt),
                        None => Err(ParseFilterError::FloatParseError),
                    },
                    None => Err(ParseFilterError::UnitParseError(
                        s.substring_char(ul, ur).to_owned(),
                    )),
                }
            }
        },
    }
}

/// Normalizes one textual length argument (number plus unit) to CSS pixels.
///
/// The split rule and the conversion table are those of [`spec_pixel`],
/// applied to the whole input.
pub fn pixel(input: &str) -> (r: Result<Ratio, ParseFilterError>)
    ensures
        ratio_res_ok(r, spec_pixel(input@, 0, input@.len() as int)),
{
    let n = input.unicode_len();
    pixel_at(input, 0, n)
}

} // verus!
