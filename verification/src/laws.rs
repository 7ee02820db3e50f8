//! General properties of the parser, stated and proved over its
//! specification: every successful grammar step consumes input, the driver
//! stops exactly at the first unparsable position while keeping the parsed
//! prefix, a whole valid single function parses to exactly that one
//! filter, and filters are collected in textual order.

use crate::filter::{
    spec_alternatives, spec_blur, spec_brightness, spec_contrast, spec_css_filter,
    spec_drop_shadow, spec_run,
};
use crate::number::lemma_number_percentage_bounds;
use crate::scan::{
    lemma_find_bounds, lemma_find_close2_bounds, lemma_rskip_ws_bounds,
    lemma_seek_sp_close_bounds, lemma_skip_ws_bounds, spec_find, spec_find_close2,
    spec_rskip_ws, spec_seek_sp_close, spec_skip_ws,
};
use crate::number::spec_number_percentage;
use crate::types::{lemma_spec_ratio_wf, CssFilter, Ratio};
use crate::unit::{spec_pixel, spec_unit};
use vstd::prelude::*;

verus! {

/// Any length [`spec_pixel`] yields is a well-formed rational.
pub proof fn lemma_pixel_wf(s: Seq<char>, a: int, b: int)
    ensures
        spec_pixel(s, a, b) matches Ok(rt) ==> rt.wf(),
{
    let k1 = crate::scan::spec_seek_unit(s, a, b);
    let k2 = match spec_find(s, k1, b, ')') {
        Some(k) => k,
        None => b,
    };
    let sl = spec_skip_ws(s, a, k1);
    let sr = spec_rskip_ws(s, sl, k1);
    match crate::number::spec_decimal(s, sl, sr) {
        Some(t) => {
            let ul = spec_skip_ws(s, k1, k2);
            let ur = spec_rskip_ws(s, ul, k2);
            match spec_unit(s, ul, ur) {
                Some(u) => {
                    lemma_spec_ratio_wf(t.0, t.1, u.0, u.1, t.2);
                },
                None => {
                },
            }
        },
        None => {
        },
    }
}

/// Any factor [`spec_number_percentage`] yields is a well-formed rational.
pub proof fn lemma_number_percentage_wf(s: Seq<char>, i: int, end: int)
    ensures
        spec_number_percentage(s, i, end) matches Ok(p) ==> p.1.wf(),
{
    let i0 = spec_skip_ws(s, i, end);
    match crate::number::spec_float_scan(s, i0, end) {
        Some(t) => {
            let j2 = spec_skip_ws(s, t.3, end);
            let pct = j2 < end && s[j2] == '%';
            let fp2 = if pct {
                t.2 + 2
            } else {
                t.2
            };
            lemma_spec_ratio_wf(t.0, t.1, 1, 1, fp2);
        },
        None => {
        },
    }
}

/// A successful `blur` step lands strictly past its start, within the window.
pub proof fn lemma_blur_bounds(s: Seq<char>, i: int, end: int)
    requires
        0 <= i <= end,
    ensures
        spec_blur(s, i, end) matches Ok(p) ==> i < p.0 <= end,
{
    if crate::scan::matches_at(s, i, end, "blur("@) {
        let a = i + "blur("@.len();
        match spec_find(s, a, end, ')') {
            Some(k) => {
                lemma_find_bounds(s, a, end, ')');
                lemma_skip_ws_bounds(s, k + 1, end);
            },
            None => {
            },
        }
    }
}

/// A successful `brightness` step lands strictly past its start, within the
/// window.
pub proof fn lemma_brightness_bounds(s: Seq<char>, i: int, end: int)
    requires
        0 <= i <= end,
    ensures
        spec_brightness(s, i, end) matches Ok(p) ==> i < p.0 <= end,
{
    if crate::scan::matches_at(s, i, end, "brightness("@) {
        let a = i + "brightness("@.len();
        lemma_number_percentage_bounds(s, a, end);
        match crate::number::spec_number_percentage(s, a, end) {
            Ok(q) => {
                lemma_skip_ws_bounds(s, q.0, end);
                let j4 = spec_skip_ws(s, q.0, end);
                if j4 < end && s[j4] == ')' {
                    lemma_skip_ws_bounds(s, j4 + 1, end);
                }
            },
            Err(_) => {
            },
        }
    }
}

/// A successful `contrast` step lands strictly past its start, within the
/// window.
pub proof fn lemma_contrast_bounds(s: Seq<char>, i: int, end: int)
    requires
        0 <= i <= end,
    ensures
        spec_contrast(s, i, end) matches Ok(p) ==> i < p.0 <= end,
{
    if crate::scan::matches_at(s, i, end, "contrast("@) {
        let a = i + "contrast("@.len();
        lemma_number_percentage_bounds(s, a, end);
        match crate::number::spec_number_percentage(s, a, end) {
            Ok(q) => {
                lemma_skip_ws_bounds(s, q.0, end);
                let j4 = spec_skip_ws(s, q.0, end);
                if j4 < end && s[j4] == ')' {
                    lemma_skip_ws_bounds(s, j4 + 1, end);
                }
            },
            Err(_) => {
            },
        }
    }
}

/// A successful `drop-shadow` step lands strictly past its start, within
/// the window.
pub proof fn lemma_drop_shadow_bounds(s: Seq<char>, i: int, end: int)
    requires
        0 <= i <= end,
    ensures
        spec_drop_shadow(s, i, end) matches Ok(p) ==> i < p.0 <= end,
{
    if crate::scan::matches_at(s, i, end, "drop-shadow("@) {
        lemma_skip_ws_bounds(s, i + "drop-shadow("@.len(), end);
        let a = spec_skip_ws(s, i + "drop-shadow("@.len(), end);
        match spec_find(s, a, end, ' ') {
            Some(xe) => {
                lemma_find_bounds(s, a, end, ' ');
                lemma_skip_ws_bounds(s, xe, end);
                let a2 = spec_skip_ws(s, xe, end);
                lemma_seek_sp_close_bounds(s, a2, end);
                let ye = spec_seek_sp_close(s, a2, end);
                lemma_skip_ws_bounds(s, ye, end);
                let a3 = spec_skip_ws(s, ye, end);
                lemma_seek_sp_close_bounds(s, a3, end);
                let be = spec_seek_sp_close(s, a3, end);
                let bpos = match crate::unit::spec_pixel(s, a3, be) {
                    Ok(_) => be,
                    Err(_) => a3,
                };
                lemma_skip_ws_bounds(s, bpos, end);
                let a4 = spec_skip_ws(s, bpos, end);
                let rgbfn = crate::scan::matches_at(s, a4, end, "rgb("@)
                    || crate::scan::matches_at(s, a4, end, "rgba("@);
                if rgbfn {
                    match spec_find_close2(s, a4, end) {
                        Some(k) => {
                            lemma_find_close2_bounds(s, a4, end);
                            lemma_skip_ws_bounds(s, k + 2, end);
                        },
                        None => {
                        },
                    }
                } else {
                    match spec_find(s, a4, end, ')') {
                        Some(k) => {
                            lemma_find_bounds(s, a4, end, ')');
                            lemma_skip_ws_bounds(s, k + 1, end);
                        },
                        None => {
                        },
                    }
                }
            },
            None => {
            },
        }
    }
}

/// Every grammar the alternation can succeed with consumes at least one
/// character and stays within the window.
pub proof fn lemma_alternatives_bounds(s: Seq<char>, i: int, end: int)
    requires
        0 <= i <= end,
    ensures
        spec_alternatives(s, i, end) matches Ok(p) ==> i < p.0 <= end,
{
    lemma_blur_bounds(s, i, end);
    lemma_brightness_bounds(s, i, end);
    lemma_contrast_bounds(s, i, end);
    lemma_drop_shadow_bounds(s, i, end);
}

/// The driver's loop stops exactly at the first position where no grammar
/// matches, and that position lies within the window.
pub proof fn lemma_run_stops(s: Seq<char>, i: int, end: int)
    requires
        0 <= i <= end,
    ensures
        i <= spec_run(s, i, end).1 <= end,
        spec_alternatives(s, spec_run(s, i, end).1, end) is Err,
    decreases end - i,
{
    lemma_alternatives_bounds(s, i, end);
    match spec_alternatives(s, i, end) {
        Ok(p) => {
            lemma_run_stops(s, p.0, end);
        },
        Err(_) => {
        },
    }
}

/// Permissive termination: parsing a filter list never fails.  The
/// remainder is the suffix of the trimmed input starting at the first
/// position where no grammar matches, and every filter parsed before that
/// position is kept.
pub proof fn lemma_permissive_termination(s: Seq<char>)
    ensures
        ({
            let t0 = spec_skip_ws(s, 0, s.len() as int);
            let e = spec_rskip_ws(s, t0, s.len() as int);
            let run = spec_run(s, t0, e);
            &&& t0 <= run.1 <= e
            &&& spec_alternatives(s, run.1, e) is Err
            &&& spec_css_filter(s).0 == run.0
            &&& spec_css_filter(s).1 == s.subrange(run.1, e)
        }),
{
    lemma_skip_ws_bounds(s, 0, s.len() as int);
    let t0 = spec_skip_ws(s, 0, s.len() as int);
    lemma_rskip_ws_bounds(s, t0, s.len() as int);
    let e = spec_rskip_ws(s, t0, s.len() as int);
    lemma_run_stops(s, t0, e);
}

/// A single valid filter function: when the whole trimmed input is
/// consumed by one grammar step, the parse yields exactly that one filter
/// and an empty remainder.
pub proof fn lemma_single_function(s: Seq<char>, j: int, f: CssFilter)
    requires
        ({
            let t0 = spec_skip_ws(s, 0, s.len() as int);
            let e = spec_rskip_ws(s, t0, s.len() as int);
            spec_alternatives(s, t0, e) == Ok::<(int, CssFilter), crate::types::SpecParseError>(
                (j, f),
            ) && j == e
        }),
    ensures
        spec_css_filter(s).0 == seq![f],
        spec_css_filter(s).1 == Seq::<char>::empty(),
{
    lemma_skip_ws_bounds(s, 0, s.len() as int);
    let t0 = spec_skip_ws(s, 0, s.len() as int);
    lemma_rskip_ws_bounds(s, t0, s.len() as int);
    let e = spec_rskip_ws(s, t0, s.len() as int);
    lemma_alternatives_bounds(s, t0, e);
    lemma_alternatives_bounds(s, e, e);
    let rest = spec_run(s, e, e);
    assert(rest.0 =~= Seq::<CssFilter>::empty());
    assert(spec_run(s, t0, e).0 =~= seq![f] + rest.0);
    assert(seq![f] + Seq::<CssFilter>::empty() =~= seq![f]);
    assert(s.subrange(e, e) =~= Seq::<char>::empty());
}

/// Textual order is preserved: the first function matched at the head of
/// the trimmed input is the first element of the parsed list, followed
/// exactly by the filters of the rest of the input.
pub proof fn lemma_first_function(s: Seq<char>, j: int, f: CssFilter)
    requires
        ({
            let t0 = spec_skip_ws(s, 0, s.len() as int);
            let e = spec_rskip_ws(s, t0, s.len() as int);
            spec_alternatives(s, t0, e) == Ok::<(int, CssFilter), crate::types::SpecParseError>(
                (j, f),
            )
        }),
    ensures
        ({
            let t0 = spec_skip_ws(s, 0, s.len() as int);
            let e = spec_rskip_ws(s, t0, s.len() as int);
            &&& spec_css_filter(s).0 == seq![f] + spec_run(s, j, e).0
            &&& spec_css_filter(s).0.len() >= 1
            &&& spec_css_filter(s).0[0] == f
        }),
{
    lemma_skip_ws_bounds(s, 0, s.len() as int);
    let t0 = spec_skip_ws(s, 0, s.len() as int);
    lemma_rskip_ws_bounds(s, t0, s.len() as int);
    let e = spec_rskip_ws(s, t0, s.len() as int);
    lemma_alternatives_bounds(s, t0, e);
    assert(spec_run(s, t0, e).0 =~= seq![f] + spec_run(s, j, e).0);
    assert((seq![f] + spec_run(s, j, e).0)[0] == f);
}

/// At every position, the parsed list is the filter matched there followed
/// exactly by the filters of the rest of the input: output order is the
/// textual order of the matches.
pub proof fn lemma_run_order(s: Seq<char>, i: int, end: int)
    requires
        0 <= i <= end,
    ensures
        match spec_alternatives(s, i, end) {
            Ok(p) => spec_run(s, i, end).0 == seq![p.1] + spec_run(s, p.0, end).0 && spec_run(
                s,
                i,
                end,
            ).1 == spec_run(s, p.0, end).1,
            Err(_) => spec_run(s, i, end).0 == Seq::<CssFilter>::empty(),
        },
{
    lemma_alternatives_bounds(s, i, end);
    match spec_alternatives(s, i, end) {
        Ok(p) => {
            assert(spec_run(s, i, end).0 =~= seq![p.1] + spec_run(s, p.0, end).0);
        },
        Err(_) => {
            assert(spec_run(s, i, end).0 =~= Seq::<CssFilter>::empty());
        },
    }
}

/// Any filter a single grammar step yields has well-formed rational
/// payloads.
pub proof fn lemma_alternatives_wf(s: Seq<char>, i: int, end: int)
    ensures
        spec_alternatives(s, i, end) matches Ok(p) ==> p.1.wf(),
{
    if crate::scan::matches_at(s, i, end, "blur("@) {
        let a = i + "blur("@.len();
        match spec_find(s, a, end, ')') {
            Some(k) => {
                lemma_pixel_wf(s, a, k);
            },
            None => {
            },
        }
    }
    lemma_number_percentage_wf(s, i + "brightness("@.len(), end);
    lemma_number_percentage_wf(s, i + "contrast("@.len(), end);
    if crate::scan::matches_at(s, i, end, "drop-shadow("@) {
        let a = spec_skip_ws(s, i + "drop-shadow("@.len(), end);
        match spec_find(s, a, end, ' ') {
            Some(xe) => {
                lemma_pixel_wf(s, a, xe);
                let a2 = spec_skip_ws(s, xe, end);
                let ye = spec_seek_sp_close(s, a2, end);
                lemma_pixel_wf(s, a2, ye);
                let a3 = spec_skip_ws(s, ye, end);
                let be = spec_seek_sp_close(s, a3, end);
                lemma_pixel_wf(s, a3, be);
                assert((Ratio { num: 0, den: 1 }).wf());
            },
            None => {
            },
        }
    }
}

/// Every filter the driver's loop collects has well-formed rational
/// payloads.
pub proof fn lemma_run_wf(s: Seq<char>, i: int, end: int)
    requires
        0 <= i <= end,
    ensures
        forall|k: int|
            0 <= k < spec_run(s, i, end).0.len() ==> (#[trigger] spec_run(s, i, end).0[k]).wf(),
    decreases end - i,
{
    lemma_alternatives_bounds(s, i, end);
    lemma_alternatives_wf(s, i, end);
    match spec_alternatives(s, i, end) {
        Ok(p) => {
            lemma_run_wf(s, p.0, end);
            let rest = spec_run(s, p.0, end).0;
            assert forall|k: int| 0 <= k < spec_run(s, i, end).0.len() implies (#[trigger] spec_run(
                s,
                i,
                end,
            ).0[k]).wf() by {
                if k > 0 {
                    assert(spec_run(s, i, end).0[k] == rest[k - 1]);
                }
            }
        },
        Err(_) => {
        },
    }
}

/// The data model's invariant: every filter a parse yields carries
/// well-formed rational payloads (positive denominators), so each numeric
/// argument is a genuine finite value.
pub proof fn lemma_filters_wf(s: Seq<char>)
    ensures
        forall|k: int|
            0 <= k < spec_css_filter(s).0.len() ==> (#[trigger] spec_css_filter(s).0[k]).wf(),
{
    lemma_skip_ws_bounds(s, 0, s.len() as int);
    let t0 = spec_skip_ws(s, 0, s.len() as int);
    lemma_rskip_ws_bounds(s, t0, s.len() as int);
    let e = spec_rskip_ws(s, t0, s.len() as int);
    lemma_run_wf(s, t0, e);
}

} // verus!
