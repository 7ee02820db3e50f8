//! The filter-function grammars and the list driver.
//!
//! Each per-function grammar is a step: from a position `i` inside the
//! window `[i, end)` it either produces the parsed filter and the position
//! after it (trailing blanks consumed), or an error that the driver treats
//! as "this function does not match here".  The driver tries the grammars
//! in a fixed order and stops at the first position where none matches,
//! returning the parsed prefix and the unconsumed remainder.

use crate::color::{color_of, color_or_black, parse_color, spec_color_or_black};
use crate::number::{
    lemma_number_percentage_bounds, number_percentage_at, spec_number_percentage,
};
use crate::scan::{
    find_char, find_close2, matches_at, rskip_ws, seek_sp_close, skip_ws, spec_find,
    spec_find_close2, spec_rskip_ws, spec_seek_sp_close, spec_skip_ws, tag_at,
};
use crate::types::{err_ok, CssFilter, ParseFilterError, Ratio, Rgba, SpecParseError};
use crate::unit::{pixel_at, spec_pixel};
use vstd::prelude::*;

verus! {

/// Relates an executable grammar step to its specification.
pub open spec fn step_ok(r: Result<(usize, CssFilter), ParseFilterError>, m: Result<
    (int, CssFilter),
    SpecParseError,
>) -> bool {
    match (r, m) {
        (Ok((j, a)), Ok((sj, sa))) => j == sj && a == sa,
        (Err(e), Err(se)) => err_ok(e, se),
        _ => false,
    }
}

/// `blur(<length>)`: the function name, one length argument running to the
/// next `)`, the `)`, then trailing blanks.
pub open spec fn spec_blur(s: Seq<char>, i: int, end: int) -> Result<
    (int, CssFilter),
    SpecParseError,
> {
    if !matches_at(s, i, end, "blur("@) {
        Err(SpecParseError::GrammarMismatch)
    } else {
        let a = i + "blur("@.len();
        match spec_find(s, a, end, ')') {
            None => Err(SpecParseError::GrammarMismatch),
            Some(k) => match spec_pixel(s, a, k) {
                Err(e) => Err(e),
                Ok(px) => Ok((spec_skip_ws(s, k + 1, end), CssFilter::Blur(px))),
            },
        }
    }
}

/// `brightness(<number>|<percentage>)`: the function name, a factor
/// argument, the `)` past blanks, then trailing blanks.
pub open spec fn spec_brightness(s: Seq<char>, i: int, end: int) -> Result<
    (int, CssFilter),
    SpecParseError,
> {
    if !matches_at(s, i, end, "brightness("@) {
        Err(SpecParseError::GrammarMismatch)
    } else {
        let a = i + "brightness("@.len();
        match spec_number_percentage(s, a, end) {
            Err(e) => Err(e),
            Ok((j, val)) => {
                let j4 = spec_skip_ws(s, j, end);
                if j4 < end && s[j4] == ')' {
                    Ok((spec_skip_ws(s, j4 + 1, end), CssFilter::Brightness(val)))
                } else {
                    Err(SpecParseError::GrammarMismatch)
                }
            },
        }
    }
}

/// `contrast(<number>|<percentage>)`: same shape as `brightness`.
pub open spec fn spec_contrast(s: Seq<char>, i: int, end: int) -> Result<
    (int, CssFilter),
    SpecParseError,
> {
    if !matches_at(s, i, end, "contrast("@) {
        Err(SpecParseError::GrammarMismatch)
    } else {
        let a = i + "contrast("@.len();
        match spec_number_percentage(s, a, end) {
            Err(e) => Err(e),
            Ok((j, val)) => {
                let j4 = spec_skip_ws(s, j, end);
                if j4 < end && s[j4] == ')' {
                    Ok((spec_skip_ws(s, j4 + 1, end), CssFilter::Contrast(val)))
                } else {
                    Err(SpecParseError::GrammarMismatch)
                }
            },
        }
    }
}

/// `drop-shadow(<length> <length> [<length>] [<color>])`: two mandatory
/// offsets (the first runs to the next space, the second to the next space
/// or `)`), an optional blur radius defaulting to zero, and an optional
/// color text running to the closing `)` — or to `))` when it is an
/// `rgb(`/`rgba(` function, whose own parenthesis must also be closed.
/// An absent or unparsable color yields opaque black.
pub open spec fn spec_drop_shadow(s: Seq<char>, i: int, end: int) -> Result<
    (int, CssFilter),
    SpecParseError,
> {
    if !matches_at(s, i, end, "drop-shadow("@) {
        Err(SpecParseError::GrammarMismatch)
    } else {
        let a = spec_skip_ws(s, i + "drop-shadow("@.len(), end);
        match spec_find(s, a, end, ' ') {
            None => Err(SpecParseError::GrammarMismatch),
            Some(xe) => match spec_pixel(s, a, xe) {
                Err(e) => Err(e),
                Ok(ox) => {
                    let a2 = spec_skip_ws(s, xe, end);
                    let ye = spec_seek_sp_close(s, a2, end);
                    match spec_pixel(s, a2, ye) {
                        Err(e) => Err(e),
                        Ok(oy) => {
                            let a3 = spec_skip_ws(s, ye, end);
                            let be = spec_seek_sp_close(s, a3, end);
                            let brp = match spec_pixel(s, a3, be) {
                                Ok(v) => (v, be),
                                Err(_) => (Ratio { num: 0, den: 1 }, a3),
                            };
                            let a4 = spec_skip_ws(s, brp.1, end);
                            let rgbfn = matches_at(s, a4, end, "rgb("@) || matches_at(
                                s,
                                a4,
                                end,
                                "rgba("@,
                            );
                            let ke = if rgbfn {
                                spec_find_close2(s, a4, end)
                            } else {
                                spec_find(s, a4, end, ')')
                            };
                            match ke {
                                None => Err(SpecParseError::GrammarMismatch),
                                Some(k) => {
                                    let cl = spec_skip_ws(s, a4, k);
                                    let cr = spec_rskip_ws(s, cl, k);
                                    let col = if cl == cr {
                                        crate::types::spec_black()
                                    } else {
                                        spec_color_or_black(color_of(s.subrange(cl, cr)))
                                    };
                                    let j = if rgbfn {
                                        k + 2
                                    } else {
                                        k + 1
                                    };
                                    Ok((spec_skip_ws(s, j, end), CssFilter::DropShadow(ox, oy,
                                        brp.0, col)))
                                },
                            }
                        },
                    }
                },
            },
        }
    }
}

/// Executable form of [`spec_blur`].
pub(crate) fn blur_at(s: &str, i: usize, end: usize) -> (r: Result<
    (usize, CssFilter),
    ParseFilterError,
>)
    requires
        i <= end <= s@.len(),
    ensures
        step_ok(r, spec_blur(s@, i as int, end as int)),
        r matches Ok(p) ==> i < p.0 <= end,
{
    proof {
        reveal_strlit("blur(");
    }
    if !tag_at(s, i, end, "blur(") {
        return Err(ParseFilterError::GrammarMismatch);
    }
    let a = i + 5;
    match find_char(s, a, end, ')') {
        None => Err(ParseFilterError::GrammarMismatch),
        Some(k) => match pixel_at(s, a, k) {
            Err(e) => Err(e),
            Ok(px) => {
                let j = skip_ws(s, k + 1, end);
                Ok((j, CssFilter::Blur(px)))
            },
        },
    }
}

/// Executable form of [`spec_brightness`].
pub(crate) fn brightness_at(s: &str, i: usize, end: usize) -> (r: Result<
    (usize, CssFilter),
    ParseFilterError,
>)
    requires
        i <= end <= s@.len(),
    ensures
        step_ok(r, spec_brightness(s@, i as int, end as int)),
        r matches Ok(p) ==> i < p.0 <= end,
{
    proof {
        reveal_strlit("brightness(");
    }
    if !tag_at(s, i, end, "brightness(") {
        return Err(ParseFilterError::GrammarMismatch);
    }
    let a = i + 11;
    match number_percentage_at(s, a, end) {
        Err(e) => Err(e),
        Ok((j, val)) => {
            proof {
                lemma_number_percentage_bounds(s@, a as int, end as int);
            }
            let j4 = skip_ws(s, j, end);
            if j4 < end && s.get_char(j4) == ')' {
                let j5 = skip_ws(s, j4 + 1, end);
                Ok((j5, CssFilter::Brightness(val)))
            } else {
                Err(ParseFilterError::GrammarMismatch)
            }
        },
    }
}

/// Executable form of [`spec_contrast`].
pub(crate) fn contrast_at(s: &str, i: usize, end: usize) -> (r: Result<
    (usize, CssFilter),
    ParseFilterError,
>)
    requires
        i <= end <= s@.len(),
    ensures
        step_ok(r, spec_contrast(s@, i as int, end as int)),
        r matches Ok(p) ==> i < p.0 <= end,
{
    proof {
        reveal_strlit("contrast(");
    }
    if !tag_at(s, i, end, "contrast(") {
        return Err(ParseFilterError::GrammarMismatch);
    }
    let a = i + 9;
    match number_percentage_at(s, a, end) {
        Err(e) => Err(e),
        Ok((j, val)) => {
            proof {
                lemma_number_percentage_bounds(s@, a as int, end as int);
            }
            let j4 = skip_ws(s, j, end);
            if j4 < end && s.get_char(j4) == ')' {
                let j5 = skip_ws(s, j4 + 1, end);
                Ok((j5, CssFilter::Contrast(val)))
            } else {
                Err(ParseFilterError::GrammarMismatch)
            }
        },
    }
}

/// Executable form of [`spec_drop_shadow`].
#[verifier::rlimit(60)]
pub(crate) fn drop_shadow_at(s: &str, i: usize, end: usize) -> (r: Result<
    (usize, CssFilter),
    ParseFilterError,
>)
    requires
        i <= end <= s@.len(),
    ensures
        step_ok(r, spec_drop_shadow(s@, i as int, end as int)),
        r matches Ok(p) ==> i < p.0 <= end,
{
    proof {
        reveal_strlit("drop-shadow(");
        reveal_strlit("rgb(");
        reveal_strlit("rgba(");
    }
    if !tag_at(s, i, end, "drop-shadow(") {
        return Err(ParseFilterError::GrammarMismatch);
    }
    let a = skip_ws(s, i + 12, end);
    let xe = match find_char(s, a, end, ' ') {
        None => {
            return Err(ParseFilterError::GrammarMismatch);
        },
        Some(x) => x,
    };
    let ox = match pixel_at(s, a, xe) {
        Err(e) => {
            return Err(e);
        },
        Ok(v) => v,
    };
    let a2 = skip_ws(s, xe, end);
    let ye = seek_sp_close(s, a2, end);
    let oy = match pixel_at(s, a2, ye) {
        Err(e) => {
            return Err(e);
        },
        Ok(v) => v,
    };
    let a3 = skip_ws(s, ye, end);
    let be = seek_sp_close(s, a3, end);
    let brp = match pixel_at(s, a3, be) {
        Ok(v) => (v, be),
        Err(_) => (Ratio { num: 0, den: 1 }, a3),
    };
    let br = brp.0;
    let bpos = brp.1;
    let a4 = skip_ws(s, bpos, end);
    let rgbfn = tag_at(s, a4, end, "rgb(") || tag_at(s, a4, end, "rgba(");
    let ke = if rgbfn {
        find_close2(s, a4, end)
    } else {
        find_char(s, a4, end, ')')
    };
    let k = match ke {
        None => {
            return Err(ParseFilterError::GrammarMismatch);
        },
        Some(k) => k,
    };
    let cl = skip_ws(s, a4, k);
    let cr = rskip_ws(s, cl, k);
    let col = if cl == cr {
        Rgba::black()
    } else {
        let ctext = s.substring_char(cl, cr);
        color_or_black(parse_color(ctext))
    };
    let j0 = if rgbfn {
        k + 2
    } else {
        k + 1
    };
    let j = skip_ws(s, j0, end);
    Ok((j, CssFilter::DropShadow(ox, oy, br, col)))
}

/// The ordered alternation: `blur`, then `brightness`, then `contrast`,
/// then `drop-shadow`; the first success wins.
pub open spec fn spec_alternatives(s: Seq<char>, i: int, end: int) -> Result<
    (int, CssFilter),
    SpecParseError,
> {
    match spec_blur(s, i, end) {
        Ok(r) => Ok(r),
        Err(_) => match spec_brightness(s, i, end) {
            Ok(r) => Ok(r),
            Err(_) => match spec_contrast(s, i, end) {
                Ok(r) => Ok(r),
                Err(_) => spec_drop_shadow(s, i, end),
            },
        },
    }
}

/// Executable form of [`spec_alternatives`].
pub(crate) fn alternatives_at(s: &str, i: usize, end: usize) -> (r: Result<
    (usize, CssFilter),
    ParseFilterError,
>)
    requires
        i <= end <= s@.len(),
    ensures
        step_ok(r, spec_alternatives(s@, i as int, end as int)),
        r matches Ok(p) ==> i < p.0 <= end,
{
    match blur_at(s, i, end) {
        Ok(r) => Ok(r),
        Err(_) => match brightness_at(s, i, end) {
            Ok(r) => Ok(r),
            Err(_) => match contrast_at(s, i, end) {
                Ok(r) => Ok(r),
                Err(_) => drop_shadow_at(s, i, end),
            },
        },
    }
}

/// The driver's loop: from position `i`, parse filters while a grammar
/// matches, collecting them in textual order; stop, keeping the prefix, at
/// the first position where none does.
pub open spec fn spec_run(s: Seq<char>, i: int, end: int) -> (Seq<CssFilter>, int)
    decreases end - i,
{
    match spec_alternatives(s, i, end) {
        Ok((j, f)) => {
            if i < j <= end {
                let rest = spec_run(s, j, end);
                (seq![f] + rest.0, rest.1)
            } else {
                (seq![f], j)
            }
        },
        Err(_) => (Seq::empty(), i),
    }
}

/// What parsing a whole filter list yields: the input is trimmed once, the
/// grammars are run from the left, and the result is the parsed filters in
/// textual order together with the unconsumed remainder of the trimmed
/// input.
pub open spec fn spec_css_filter(s: Seq<char>) -> (Seq<CssFilter>, Seq<char>) {
    let t0 = spec_skip_ws(s, 0, s.len() as int);
    let e = spec_rskip_ws(s, t0, s.len() as int);
    let run = spec_run(s, t0, e);
    (run.0, s.subrange(run.1, e))
}

/// Parses a CSS `filter` property value: returns the unconsumed remainder
/// and the filters parsed before it, in textual order.
///
/// The whole call never fails: a malformed or unknown trailing function
/// merely stops consumption, and everything already parsed is kept.
pub fn css_filter<'a>(input: &'a str) -> (r: (&'a str, Vec<CssFilter>))
    ensures
        r.1@ == spec_css_filter(input@).0,
        r.0@ == spec_css_filter(input@).1,
{
    let n = input.unicode_len();
    let t0 = skip_ws(input, 0, n);
    let e = rskip_ws(input, t0, n);
    let mut i = t0;
    let mut out: Vec<CssFilter> = Vec::new();
    loop
        invariant
            t0 <= i <= e <= n,
            n == input@.len(),
            spec_run(input@, t0 as int, e as int).0 == out@ + spec_run(
                input@,
                i as int,
                e as int,
            ).0,
            spec_run(input@, t0 as int, e as int).1 == spec_run(input@, i as int, e as int).1,
        ensures
            t0 <= i <= e,
            spec_run(input@, t0 as int, e as int).0 == out@,
            spec_run(input@, t0 as int, e as int).1 == i as int,
        decreases e - i,
    {
        match alternatives_at(input, i, e) {
            Ok((j, f)) => {
                proof {
                    let rest = spec_run(input@, j as int, e as int);
                    assert(spec_run(input@, i as int, e as int).0 =~= seq![f] + rest.0);
                    assert(out@ + (seq![f] + rest.0) =~= (out@ + seq![f]) + rest.0);
                }
                out.push(f);
                i = j;
            },
            Err(_) => {
                proof {
                    assert(spec_run(input@, i as int, e as int).0 =~= Seq::<CssFilter>::empty());
                    assert(out@ + Seq::<CssFilter>::empty() =~= out@);
                }
                break ;
            },
        }
    }
    let rem = input.substring_char(i, e);
    (rem, out)
}

/// Parses one leading `blur(...)` function; the remainder is returned with
/// surrounding blanks trimmed.
pub fn blur_parser<'a>(input: &'a str) -> (r: Result<(&'a str, CssFilter), ParseFilterError>)
    ensures
        ({
            let e = spec_rskip_ws(input@, 0, input@.len() as int);
            match (r, spec_blur(input@, 0, e)) {
                (Ok((rem, f)), Ok((sj, sf))) => rem@ == input@.subrange(sj, e) && f == sf,
                (Err(er), Err(se)) => err_ok(er, se),
                _ => false,
            }
        }),
{
    let n = input.unicode_len();
    let e = rskip_ws(input, 0, n);
    match blur_at(input, 0, e) {
        Err(er) => Err(er),
        Ok((j, f)) => Ok((input.substring_char(j, e), f)),
    }
}

/// Parses one leading `brightness(...)` function; the remainder is
/// returned with surrounding blanks trimmed.
pub fn brightness_parser<'a>(input: &'a str) -> (r: Result<(&'a str, CssFilter), ParseFilterError>)
    ensures
        ({
            let e = spec_rskip_ws(input@, 0, input@.len() as int);
            match (r, spec_brightness(input@, 0, e)) {
                (Ok((rem, f)), Ok((sj, sf))) => rem@ == input@.subrange(sj, e) && f == sf,
                (Err(er), Err(se)) => err_ok(er, se),
                _ => false,
            }
        }),
{
    let n = input.unicode_len();
    let e = rskip_ws(input, 0, n);
    match brightness_at(input, 0, e) {
        Err(er) => Err(er),
        Ok((j, f)) => Ok((input.substring_char(j, e), f)),
    }
}

/// Parses one leading `contrast(...)` function; the remainder is returned
/// with surrounding blanks trimmed.
pub fn contrast_parser<'a>(input: &'a str) -> (r: Result<(&'a str, CssFilter), ParseFilterError>)
    ensures
        ({
            let e = spec_rskip_ws(input@, 0, input@.len() as int);
            match (r, spec_contrast(input@, 0, e)) {
                (Ok((rem, f)), Ok((sj, sf))) => rem@ == input@.subrange(sj, e) && f == sf,
                (Err(er), Err(se)) => err_ok(er, se),
                _ => false,
            }
        }),
{
    let n = input.unicode_len();
    let e = rskip_ws(input, 0, n);
    match contrast_at(input, 0, e) {
        Err(er) => Err(er),
        Ok((j, f)) => Ok((input.substring_char(j, e), f)),
    }
}

/// Parses one leading `drop-shadow(...)` function; the remainder is
/// returned with surrounding blanks trimmed.
pub fn parse_drop_shadow<'a>(input: &'a str) -> (r: Result<
    (&'a str, CssFilter),
    ParseFilterError,
>)
    ensures
        ({
            let e = spec_rskip_ws(input@, 0, input@.len() as int);
            match (r, spec_drop_shadow(input@, 0, e)) {
                (Ok((rem, f)), Ok((sj, sf))) => rem@ == input@.subrange(sj, e) && f == sf,
                (Err(er), Err(se)) => err_ok(er, se),
                _ => false,
            }
        }),
{
    let n = input.unicode_len();
    let e = rskip_ws(input, 0, n);
    match drop_shadow_at(input, 0, e) {
        Err(er) => Err(er),
        Ok((j, f)) => Ok((input.substring_char(j, e), f)),
    }
}

/// Parses one leading number-or-percentage factor; the remainder is the
/// rest of the trimmed input, starting right after the literal (or the
/// `%`).
pub fn number_percentage<'a>(input: &'a str) -> (r: Result<(&'a str, Ratio), ParseFilterError>)
    ensures
        ({
            let e = spec_rskip_ws(input@, 0, input@.len() as int);
            match (r, spec_number_percentage(input@, 0, e)) {
                (Ok((rem, v)), Ok((sj, sv))) => rem@ == input@.subrange(sj, e) && v == sv,
                (Err(er), Err(se)) => err_ok(er, se),
                _ => false,
            }
        }),
{
    let n = input.unicode_len();
    let e = rskip_ws(input, 0, n);
    match number_percentage_at(input, 0, e) {
        Err(er) => Err(er),
        Ok((j, v)) => {
            proof {
                lemma_number_percentage_bounds(input@, 0, e as int);
            }
            Ok((input.substring_char(j, e), v))
        },
    }
}

} // verus!
