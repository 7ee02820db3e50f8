//! Lexical ground layer: character classes and cursor primitives.
//!
//! All parsing works on a `&str` through char positions `i` in a window
//! `[i, end)`; every executable scanner is proved equal to a spec-level
//! counterpart over the string's view (a `Seq<char>`).

use vstd::prelude::*;

verus! {

/// ASCII whitespace: the blank characters this parser skips between tokens.
pub open spec fn is_space(c: char) -> bool {
    c == ' ' || c == '\t' || c == '\n' || c == '\r' || c == '\x0b' || c == '\x0c'
}

/// ASCII alphabetic.
pub open spec fn is_alpha(c: char) -> bool {
    (65 <= c as u32 && c as u32 <= 90) || (97 <= c as u32 && c as u32 <= 122)
}

/// A character that starts the unit portion of a length argument: ASCII
/// alphabetic or `%`.  The numeric portion ends at the first such
/// character.
pub open spec fn is_unit_start(c: char) -> bool {
    is_alpha(c) || c == '%'
}

/// ASCII decimal digit.
pub open spec fn is_digit(c: char) -> bool {
    48 <= c as u32 && c as u32 <= 57
}

/// Numeric value of an ASCII decimal digit.
pub open spec fn digit_val(c: char) -> int
    recommends
        is_digit(c),
{
    c as u32 - 48
}

/// First position at or after `i` whose character is not ASCII whitespace,
/// stopping at `end`.
pub open spec fn spec_skip_ws(s: Seq<char>, i: int, end: int) -> int
    decreases end - i,
{
    if i < end && is_space(s[i]) {
        spec_skip_ws(s, i + 1, end)
    } else {
        i
    }
}

/// Position just after the last non-whitespace character in `[lo, end)`;
/// `lo` itself if that range is all whitespace.
pub open spec fn spec_rskip_ws(s: Seq<char>, lo: int, end: int) -> int
    decreases end - lo,
{
    if lo < end && is_space(s[end - 1]) {
        spec_rskip_ws(s, lo, end - 1)
    } else {
        end
    }
}

/// First occurrence of `c` in `[i, end)`, if any.
pub open spec fn spec_find(s: Seq<char>, i: int, end: int, c: char) -> Option<int>
    decreases end - i,
{
    if i >= end {
        None
    } else if s[i] == c {
        Some(i)
    } else {
        spec_find(s, i + 1, end, c)
    }
}

/// First occurrence of the two adjacent characters `))` in `[i, end)`, if any.
pub open spec fn spec_find_close2(s: Seq<char>, i: int, end: int) -> Option<int>
    decreases end - i,
{
    if i + 2 > end {
        None
    } else if s[i] == ')' && s[i + 1] == ')' {
        Some(i)
    } else {
        spec_find_close2(s, i + 1, end)
    }
}

/// First position in `[i, end)` holding an ASCII alphabetic character or
/// `%`, or `end`; the numeric portion of a length argument is everything
/// before it.
pub open spec fn spec_seek_unit(s: Seq<char>, i: int, end: int) -> int
    decreases end - i,
{
    if i < end && !is_unit_start(s[i]) {
        spec_seek_unit(s, i + 1, end)
    } else {
        i
    }
}

/// First position in `[i, end)` holding a space or `)`, or `end`; a
/// `drop-shadow` length argument runs up to there.
pub open spec fn spec_seek_sp_close(s: Seq<char>, i: int, end: int) -> int
    decreases end - i,
{
    if i < end && !(s[i] == ' ' || s[i] == ')') {
        spec_seek_sp_close(s, i + 1, end)
    } else {
        i
    }
}

/// First position in `[i, end)` holding a non-digit, or `end`.
pub open spec fn spec_seek_nondigit(s: Seq<char>, i: int, end: int) -> int
    decreases end - i,
{
    if i < end && is_digit(s[i]) {
        spec_seek_nondigit(s, i + 1, end)
    } else {
        i
    }
}

/// The literal `t` occurs in `s` at position `i`, wholly inside `[i, end)`.
pub open spec fn matches_at(s: Seq<char>, i: int, end: int, t: Seq<char>) -> bool {
    &&& 0 <= i
    &&& i + t.len() <= end
    &&& forall|k: int| 0 <= k < t.len() ==> s[i + k] == t[k]
}

/// The range `[a, b)` of `s` holds exactly the literal `t`.
pub open spec fn spec_eq_range(s: Seq<char>, a: int, b: int, t: Seq<char>) -> bool {
    b - a == t.len() && matches_at(s, a, b, t)
}

pub proof fn lemma_skip_ws_bounds(s: Seq<char>, i: int, end: int)
    requires
        0 <= i <= end,
    ensures
        i <= spec_skip_ws(s, i, end) <= end,
    decreases end - i,
{
    if i < end && is_space(s[i]) {
        lemma_skip_ws_bounds(s, i + 1, end);
    }
}

pub proof fn lemma_rskip_ws_bounds(s: Seq<char>, lo: int, end: int)
    requires
        0 <= lo <= end,
    ensures
        lo <= spec_rskip_ws(s, lo, end) <= end,
    decreases end - lo,
{
    if lo < end && is_space(s[end - 1]) {
        lemma_rskip_ws_bounds(s, lo, end - 1);
    }
}

pub proof fn lemma_find_bounds(s: Seq<char>, i: int, end: int, c: char)
    requires
        0 <= i,
        spec_find(s, i, end, c) is Some,
    ensures
        i <= spec_find(s, i, end, c)->0 < end,
        s[spec_find(s, i, end, c)->0] == c,
    decreases end - i,
{
    if i < end && s[i] != c {
        lemma_find_bounds(s, i + 1, end, c);
    }
}

pub proof fn lemma_find_close2_bounds(s: Seq<char>, i: int, end: int)
    requires
        0 <= i,
        spec_find_close2(s, i, end) is Some,
    ensures
        i <= spec_find_close2(s, i, end)->0,
        spec_find_close2(s, i, end)->0 + 2 <= end,
        s[spec_find_close2(s, i, end)->0] == ')',
        s[spec_find_close2(s, i, end)->0 + 1] == ')',
    decreases end - i,
{
    if i + 2 <= end && !(s[i] == ')' && s[i + 1] == ')') {
        lemma_find_close2_bounds(s, i + 1, end);
    }
}

pub proof fn lemma_seek_sp_close_bounds(s: Seq<char>, i: int, end: int)
    requires
        0 <= i <= end,
    ensures
        i <= spec_seek_sp_close(s, i, end) <= end,
    decreases end - i,
{
    if i < end && !(s[i] == ' ' || s[i] == ')') {
        lemma_seek_sp_close_bounds(s, i + 1, end);
    }
}

pub proof fn lemma_seek_nondigit_bounds(s: Seq<char>, i: int, end: int)
    requires
        0 <= i <= end,
    ensures
        i <= spec_seek_nondigit(s, i, end) <= end,
        forall|k: int| i <= k < spec_seek_nondigit(s, i, end) ==> is_digit(s[k]),
    decreases end - i,
{
    if i < end && is_digit(s[i]) {
        lemma_seek_nondigit_bounds(s, i + 1, end);
    }
}

/// Whether `c` is ASCII whitespace.
pub fn space_char(c: char) -> (b: bool)
    ensures
        b == is_space(c),
{
    c == ' ' || c == '\t' || c == '\n' || c == '\r' || c == '\x0b' || c == '\x0c'
}

/// Whether `c` starts a unit portion: ASCII alphabetic or `%`.
pub fn unit_start_char(c: char) -> (b: bool)
    ensures
        b == is_unit_start(c),
{
    let u = c as u32;
    (65 <= u && u <= 90) || (97 <= u && u <= 122) || c == '%'
}

/// Whether `c` is an ASCII digit.
pub fn digit_char(c: char) -> (b: bool)
    ensures
        b == is_digit(c),
{
    let u = c as u32;
    48 <= u && u <= 57
}

/// Skips ASCII whitespace forward from `i`, staying within `[i, end]`.
pub fn skip_ws(s: &str, i: usize, end: usize) -> (j: usize)
    requires
        i <= end,
        end <= s@.len(),
    ensures
        j == spec_skip_ws(s@, i as int, end as int),
        i <= j <= end,
{
    let mut j = i;
    loop
        invariant
            i <= j <= end,
            end <= s@.len(),
            spec_skip_ws(s@, i as int, end as int) == spec_skip_ws(s@, j as int, end as int),
        ensures
            i <= j <= end,
            j == spec_skip_ws(s@, i as int, end as int),
        decreases end - j,
    {
        if j < end {
            let c = s.get_char(j);
            if space_char(c) {
                j = j + 1;
            } else {
                break ;
            }
        } else {
            break ;
        }
    }
    j
}

/// Drops ASCII whitespace from the right end of the window `[lo, end)`.
pub fn rskip_ws(s: &str, lo: usize, end: usize) -> (j: usize)
    requires
        lo <= end,
        end <= s@.len(),
    ensures
        j == spec_rskip_ws(s@, lo as int, end as int),
        lo <= j <= end,
{
    let mut j = end;
    loop
        invariant
            lo <= j <= end,
            end <= s@.len(),
            spec_rskip_ws(s@, lo as int, end as int) == spec_rskip_ws(s@, lo as int, j as int),
        ensures
            lo <= j <= end,
            j == spec_rskip_ws(s@, lo as int, end as int),
        decreases j - lo,
    {
        if j > lo {
            let c = s.get_char(j - 1);
            if space_char(c) {
                j = j - 1;
            } else {
                break ;
            }
        } else {
            break ;
        }
    }
    j
}

/// Finds the first occurrence of `c` in `[i, end)`.
pub fn find_char(s: &str, i: usize, end: usize, c: char) -> (r: Option<usize>)
    requires
        i <= end,
        end <= s@.len(),
    ensures
        match r {
            Some(j) => spec_find(s@, i as int, end as int, c) == Some(j as int) && i <= j < end,
            None => spec_find(s@, i as int, end as int, c) is None,
        },
{
    let mut j = i;
    loop
        invariant
            i <= j <= end,
            end <= s@.len(),
            spec_find(s@, i as int, end as int, c) == spec_find(s@, j as int, end as int, c),
        decreases end - j,
    {
        if j < end {
            if s.get_char(j) == c {
                return Some(j);
            }
            j = j + 1;
        } else {
            return None;
        }
    }
}

/// Finds the first occurrence of `))` in `[i, end)`.
pub fn find_close2(s: &str, i: usize, end: usize) -> (r: Option<usize>)
    requires
        i <= end,
        end <= s@.len(),
    ensures
        match r {
            Some(j) => spec_find_close2(s@, i as int, end as int) == Some(j as int) && i <= j && j
                + 2 <= end,
            None => spec_find_close2(s@, i as int, end as int) is None,
        },
{
    let mut j = i;
    loop
        invariant
            i <= j <= end,
            end <= s@.len(),
            spec_find_close2(s@, i as int, end as int) == spec_find_close2(
                s@,
                j as int,
                end as int,
            ),
        decreases end - j,
    {
        if j < end && j + 1 < end {
            if s.get_char(j) == ')' && s.get_char(j + 1) == ')' {
                return Some(j);
            }
            j = j + 1;
        } else {
            return None;
        }
    }
}

/// Scans to the first ASCII alphabetic character or `%` in `[i, end)`, or
/// `end`.
pub fn seek_unit(s: &str, i: usize, end: usize) -> (j: usize)
    requires
        i <= end,
        end <= s@.len(),
    ensures
        j == spec_seek_unit(s@, i as int, end as int),
        i <= j <= end,
{
    let mut j = i;
    loop
        invariant
            i <= j <= end,
            end <= s@.len(),
            spec_seek_unit(s@, i as int, end as int) == spec_seek_unit(s@, j as int, end as int),
        ensures
            i <= j <= end,
            j == spec_seek_unit(s@, i as int, end as int),
        decreases end - j,
    {
        if j < end {
            if unit_start_char(s.get_char(j)) {
                break ;
            }
            j = j + 1;
        } else {
            break ;
        }
    }
    j
}

/// Scans to the first space or `)` in `[i, end)`, or `end`.
pub fn seek_sp_close(s: &str, i: usize, end: usize) -> (j: usize)
    requires
        i <= end,
        end <= s@.len(),
    ensures
        j == spec_seek_sp_close(s@, i as int, end as int),
        i <= j <= end,
{
    let mut j = i;
    loop
        invariant
            i <= j <= end,
            end <= s@.len(),
            spec_seek_sp_close(s@, i as int, end as int) == spec_seek_sp_close(
                s@,
                j as int,
                end as int,
            ),
        ensures
            i <= j <= end,
            j == spec_seek_sp_close(s@, i as int, end as int),
        decreases end - j,
    {
        if j < end {
            let c = s.get_char(j);
            if c == ' ' || c == ')' {
                break ;
            }
            j = j + 1;
        } else {
            break ;
        }
    }
    j
}

/// Whether the literal `t` occurs at position `i` of `s`, inside `[i, end)`.
pub fn tag_at(s: &str, i: usize, end: usize, t: &str) -> (b: bool)
    requires
        i <= end,
        end <= s@.len(),
    ensures
        b == matches_at(s@, i as int, end as int, t@),
{
    let tn = t.unicode_len();
    if tn > end - i {
        return false;
    }
    let mut k: usize = 0;
    loop
        invariant
            0 <= k <= tn,
            tn == t@.len(),
            i + tn <= end <= s@.len(),
            forall|m: int| 0 <= m < k ==> s@[i + m] == t@[m],
        ensures
            k == tn,
            forall|m: int| 0 <= m < tn ==> s@[i + m] == t@[m],
        decreases tn - k,
    {
        if k < tn {
            if s.get_char(i + k) != t.get_char(k) {
                return false;
            }
            k = k + 1;
        } else {
            break ;
        }
    }
    true
}

/// Whether the range `[a, b)` of `s` holds exactly the literal `t`.
pub fn eq_range(s: &str, a: usize, b: usize, t: &str) -> (r: bool)
    requires
        a <= b,
        b <= s@.len(),
    ensures
        r == spec_eq_range(s@, a as int, b as int, t@),
{
    let tn = t.unicode_len();
    if b - a != tn {
        return false;
    }
    tag_at(s, a, b, t)
}

} // verus!
