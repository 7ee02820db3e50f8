//! Numeric literals: digit runs, plain decimal literals (as `f32::parse`
//! accepts them, minus the alphabetic forms a length argument can never
//! contain), and greedy floating-point scanning with optional exponent and
//! percent sign, as the `brightness`/`contrast` factor argument uses.

use crate::scan::{
    digit_char, digit_val, is_digit, lemma_seek_nondigit_bounds, lemma_skip_ws_bounds, skip_ws,
    spec_seek_nondigit, spec_skip_ws,
};
use crate::types::{digits_ok, err_ok, spec_ratio, ratio_scaled, Ratio, ParseFilterError, SpecParseError};
use vstd::arithmetic::mul::{lemma_mul_inequality, lemma_mul_strictly_positive};
use vstd::arithmetic::power::{lemma_pow_increases, lemma_pow_positive, pow};
use vstd::prelude::*;

verus! {

/// Value of the digit run `[i, j)` of `s` appended to an accumulator `acc`:
/// each digit multiplies the accumulator by ten and adds itself.
pub open spec fn spec_digits_val_acc(s: Seq<char>, i: int, j: int, acc: int) -> int
    decreases j - i,
{
    if i < j {
        spec_digits_val_acc(s, i + 1, j, acc * 10 + digit_val(s[i]))
    } else {
        acc
    }
}

pub proof fn lemma_digits_snoc(s: Seq<char>, i: int, j: int, acc: int)
    requires
        i <= j,
    ensures
        spec_digits_val_acc(s, i, j + 1, acc) == spec_digits_val_acc(s, i, j, acc) * 10
            + digit_val(s[j]),
    decreases j - i,
{
    if i < j {
        lemma_digits_snoc(s, i + 1, j, acc * 10 + digit_val(s[i]));
    } else {
        assert(spec_digits_val_acc(s, i, j + 1, acc) == acc * 10 + digit_val(s[j])) by {
            reveal_with_fuel(spec_digits_val_acc, 3);
        }
    }
}

/// A run of `n` digits appended to `acc` yields less than `(acc+1)·10^n`.
pub proof fn lemma_digits_upper(s: Seq<char>, i: int, j: int, acc: int)
    requires
        i <= j,
        0 <= acc,
        forall|k: int| i <= k < j ==> is_digit(s[k]),
    ensures
        spec_digits_val_acc(s, i, j, acc) < (acc + 1) * pow(10, (j - i) as nat),
    decreases j - i,
{
    if i < j {
        let d = digit_val(s[i]);
        let a2 = acc * 10 + d;
        lemma_digits_upper(s, i + 1, j, a2);
        let p = pow(10, (j - i - 1) as nat);
        lemma_pow_positive(10, (j - i - 1) as nat);
        assert(pow(10, (j - i) as nat) == 10 * p) by {
            reveal_with_fuel(pow, 2);
        }
        assert((a2 + 1) * p <= (acc + 1) * (10 * p)) by (nonlinear_arith)
            requires
                0 <= d <= 9,
                0 < p,
                a2 == acc * 10 + d,
        ;
    } else {
        assert(pow(10, 0) == 1) by {
            reveal_with_fuel(pow, 1);
        }
        assert((acc + 1) * 1 == acc + 1) by (nonlinear_arith);
    }
}

/// Consumes the digit run starting at `i` and folds it into the
/// accumulator; the `Option` goes `None` once the exact value (tracked by
/// the ghost result) no longer fits in `u64`.
pub(crate) fn scan_digits(s: &str, i: usize, end: usize, acc: Option<u64>, Ghost(av): Ghost<int>) -> (r: (
    usize,
    Option<u64>,
    Ghost<int>,
))
    requires
        i <= end <= s@.len(),
        digits_ok(acc, av),
        0 <= av,
    ensures
        r.0 == spec_seek_nondigit(s@, i as int, end as int),
        i <= r.0 <= end,
        r.2@ == spec_digits_val_acc(s@, i as int, r.0 as int, av),
        digits_ok(r.1, r.2@),
        av <= r.2@,
{
    let mut j = i;
    let mut cur = acc;
    let ghost mut cv: int = av;
    loop
        invariant
            i <= j <= end <= s@.len(),
            spec_seek_nondigit(s@, i as int, end as int) == spec_seek_nondigit(
                s@,
                j as int,
                end as int,
            ),
            cv == spec_digits_val_acc(s@, i as int, j as int, av),
            digits_ok(cur, cv),
            av <= cv,
        ensures
            j == spec_seek_nondigit(s@, i as int, end as int),
            i <= j <= end,
            cv == spec_digits_val_acc(s@, i as int, j as int, av),
            digits_ok(cur, cv),
            av <= cv,
        decreases end - j,
    {
        if j < end {
            let c = s.get_char(j);
            if digit_char(c) {
                let d = (c as u32 - 48) as u64;
                proof {
                    lemma_digits_snoc(s@, i as int, j as int, av);
                }
                match cur {
                    Some(m) => {
                        let t: u128 = (m as u128) * 10 + (d as u128);
                        if t <= 0xffffffffffffffffu128 {
                            cur = Some(t as u64);
                        } else {
                            cur = None;
                        }
                    },
                    None => {
                    },
                }
                proof {
                    cv = cv * 10 + digit_val(c);
                }
                j = j + 1;
            } else {
                break ;
            }
        } else {
            break ;
        }
    }
    (j, cur, Ghost(cv))
}

/// A decimal literal filling the whole range `[l, r)`: optional sign, then
/// digits with at most one point and at least one digit.  Yields the sign,
/// the exact unsigned mantissa, and the count of fractional digits.
pub open spec fn spec_decimal(s: Seq<char>, l: int, r: int) -> Option<(bool, int, int)> {
    if l >= r {
        None
    } else {
        let neg = s[l] == '-';
        let l1 = if s[l] == '-' || s[l] == '+' {
            l + 1
        } else {
            l
        };
        let j1 = spec_seek_nondigit(s, l1, r);
        if j1 == r {
            if l1 < r {
                Some((neg, spec_digits_val_acc(s, l1, r, 0), 0))
            } else {
                None
            }
        } else if s[j1] == '.' {
            let j2 = spec_seek_nondigit(s, j1 + 1, r);
            if j2 == r && r - l1 >= 2 {
                Some((neg, spec_digits_val_acc(s, j1 + 1, r, spec_digits_val_acc(s, l1, j1, 0)), r
                    - j1 - 1))
            } else {
                None
            }
        } else {
            None
        }
    }
}

/// Parses the range `[l, r)` as a decimal literal; on success returns the
/// sign, the mantissa accumulator with its exact ghost value, and the
/// fractional digit count.
pub(crate) fn decimal_at(s: &str, l: usize, r: usize) -> (res: Option<(bool, Option<u64>, Ghost<int>, usize)>)
    requires
        l <= r <= s@.len(),
    ensures
        match res {
            Some(p) => {
                &&& spec_decimal(s@, l as int, r as int) matches Some((neg, m, f))
                &&& p.0 == neg
                &&& p.2@ == m
                &&& digits_ok(p.1, p.2@)
                &&& 0 <= p.2@
                &&& p.3 == f
            },
            None => spec_decimal(s@, l as int, r as int) is None,
        },
{
    if l >= r {
        return None;
    }
    let c0 = s.get_char(l);
    let neg = c0 == '-';
    let l1 = if c0 == '-' || c0 == '+' {
        l + 1
    } else {
        l
    };
    let (j1, m1, Ghost(v1)) = scan_digits(s, l1, r, Some(0), Ghost(0));
    if j1 == r {
        if l1 < r {
            Some((neg, m1, Ghost(v1), 0))
        } else {
            None
        }
    } else if s.get_char(j1) == '.' {
        let (j2, m2, Ghost(v2)) = scan_digits(s, j1 + 1, r, m1, Ghost(v1));
        if j2 == r && r - l1 >= 2 {
            Some((neg, m2, Ghost(v2), r - j1 - 1))
        } else {
            None
        }
    } else {
        None
    }
}

/// Greedy scan of a floating-point literal at `i`: optional sign, digits
/// with an optional point (or a point with at least one digit), then an
/// optional exponent.  An `e` not followed by a digit fails the whole scan.
/// Yields the sign, the unsigned mantissa, the net power of ten dividing
/// the mantissa (fractional digits minus exponent), and the next position.
pub open spec fn spec_float_scan(s: Seq<char>, i: int, end: int) -> Option<(bool, int, int, int)> {
    if i >= end {
        None
    } else {
        let neg = s[i] == '-';
        let l1 = if s[i] == '-' || s[i] == '+' {
            i + 1
        } else {
            i
        };
        let d1 = spec_seek_nondigit(s, l1, end);
        if d1 > l1 {
            if d1 < end && s[d1] == '.' {
                let d2 = spec_seek_nondigit(s, d1 + 1, end);
                spec_float_exp(s, d2, end, neg, spec_digits_val_acc(s, d1 + 1, d2,
                    spec_digits_val_acc(s, l1, d1, 0)), d2 - d1 - 1)
            } else {
                spec_float_exp(s, d1, end, neg, spec_digits_val_acc(s, l1, d1, 0), 0)
            }
        } else if l1 < end && s[l1] == '.' {
            let d2 = spec_seek_nondigit(s, l1 + 1, end);
            if d2 > l1 + 1 {
                spec_float_exp(s, d2, end, neg, spec_digits_val_acc(s, l1 + 1, d2, 0), d2 - l1 - 1)
            } else {
                None
            }
        } else {
            None
        }
    }
}

/// Optional exponent part of a floating-point literal, folded into the net
/// power of ten `f`.
pub open spec fn spec_float_exp(s: Seq<char>, j: int, end: int, neg: bool, m: int, f: int) -> Option<
    (bool, int, int, int),
> {
    if j < end && (s[j] == 'e' || s[j] == 'E') {
        let esign = j + 1 < end && (s[j + 1] == '-' || s[j + 1] == '+');
        let eneg = j + 1 < end && s[j + 1] == '-';
        let x0 = if esign {
            j + 2
        } else {
            j + 1
        };
        let x1 = spec_seek_nondigit(s, x0, end);
        if x1 > x0 {
            let ev = spec_digits_val_acc(s, x0, x1, 0);
            Some((neg, m, if eneg {
                f + ev
            } else {
                f - ev
            }, x1))
        } else {
            None
        }
    } else {
        Some((neg, m, f, j))
    }
}

/// A number-or-percentage factor argument: leading whitespace, a greedy
/// floating-point literal, and an optional `%` (looked for past blanks)
/// that divides the value by 100.  The resulting exact rational must fit a
/// 64-bit `Ratio`; the position consumed stops right after the literal, or
/// right after the `%` when one is taken.
pub open spec fn spec_number_percentage(s: Seq<char>, i: int, end: int) -> Result<
    (int, Ratio),
    SpecParseError,
> {
    let i0 = spec_skip_ws(s, i, end);
    match spec_float_scan(s, i0, end) {
        None => Err(SpecParseError::GrammarMismatch),
        Some((neg, m, fp, j)) => {
            let j2 = spec_skip_ws(s, j, end);
            let pct = j2 < end && s[j2] == '%';
            let fp2 = if pct {
                fp + 2
            } else {
                fp
            };
            let j3 = if pct {
                j2 + 1
            } else {
                j
            };
            match spec_ratio(neg, m, 1, 1, fp2) {
                Some(rt) => Ok((j3, rt)),
                None => Err(SpecParseError::FloatParseError),
            }
        },
    }
}

/// Relates an executable parse step producing a position and a `Ratio` to
/// its specification.
pub open spec fn ratio_step_ok(r: Result<(usize, Ratio), ParseFilterError>, m: Result<
    (int, Ratio),
    SpecParseError,
>) -> bool {
    match (r, m) {
        (Ok((j, a)), Ok((sj, sa))) => j == sj && a == sa,
        (Err(e), Err(se)) => err_ok(e, se),
        _ => false,
    }
}

/// Executable scan of one floating-point literal at `i` (no leading
/// blanks).  On success the result mirrors [`spec_float_scan`]: position
/// after the literal, sign, mantissa accumulator with exact ghost value,
/// and the net power of ten with exact ghost value.  `e_bad` records that
/// the exponent digits overflowed `u64`, in which case the net power is
/// at least 20 or at most -21.
pub(crate) struct FloatScan {
    pub jx: usize,
    pub neg: bool,
    pub m: Option<u64>,
    pub mv: Ghost<int>,
    pub e_bad: bool,
    pub fp: i128,
    pub fpv: Ghost<int>,
}

#[verifier::rlimit(100)]
#[verifier::spinoff_prover]
pub(crate) fn float_scan_at(s: &str, i: usize, end: usize) -> (r: Option<FloatScan>)
    requires
        i <= end <= s@.len(),
    ensures
        match r {
            Some(t) => {
                &&& spec_float_scan(s@, i as int, end as int) == Some(
                    (t.neg, t.mv@, t.fpv@, t.jx as int),
                )
                &&& digits_ok(t.m, t.mv@)
                &&& 0 <= t.mv@
                &&& i <= t.jx <= end
                &&& !t.e_bad ==> t.fp as int == t.fpv@ && -0xffffffffffffffff <= t.fpv@
                    <= 0x1ffffffffffffffff
                &&& t.e_bad ==> (t.fpv@ >= 20 || t.fpv@ <= -21)
            },
            None => spec_float_scan(s@, i as int, end as int) is None,
        },
{
    if i >= end {
        return None;
    }
    let c0 = s.get_char(i);
    let neg = c0 == '-';
    let l1 = if c0 == '-' || c0 == '+' {
        i + 1
    } else {
        i
    };
    let (d1, m1, Ghost(v1)) = scan_digits(s, l1, end, Some(0), Ghost(0));
    let m: Option<u64>;
    let ghost mv: int;
    let f: usize;
    let j: usize;
    if d1 > l1 {
        if d1 < end && s.get_char(d1) == '.' {
            let (d2, m2, Ghost(v2)) = scan_digits(s, d1 + 1, end, m1, Ghost(v1));
            m = m2;
            proof {
                mv = v2;
            }
            f = d2 - d1 - 1;
            j = d2;
        } else {
            m = m1;
            proof {
                mv = v1;
            }
            f = 0;
            j = d1;
        }
    } else if l1 < end && s.get_char(l1) == '.' {
        let (d2, m2, Ghost(v2)) = scan_digits(s, l1 + 1, end, Some(0), Ghost(0));
        if d2 > l1 + 1 {
            m = m2;
            proof {
                mv = v2;
            }
            f = d2 - l1 - 1;
            j = d2;
        } else {
            return None;
        }
    } else {
        return None;
    }
    // Optional exponent.
    let mut jx: usize = j;
    let mut e_bad = false;
    let mut fp: i128 = f as i128;
    let ghost mut fpv: int = f as int;
    if j < end {
        let ce = s.get_char(j);
        if ce == 'e' || ce == 'E' {
            let esign = j + 1 < end && (s.get_char(j + 1) == '-' || s.get_char(j + 1) == '+');
            let e_neg = j + 1 < end && s.get_char(j + 1) == '-';
            let x0 = if esign {
                j + 2
            } else {
                j + 1
            };
            let (x1, me, Ghost(ve)) = scan_digits(s, x0, end, Some(0), Ghost(0));
            if x1 == x0 {
                return None;
            }
            jx = x1;
            proof {
                fpv = if e_neg {
                    f + ve
                } else {
                    f - ve
                };
            }
            match me {
                Some(ev) => {
                    if e_neg {
                        fp = f as i128 + ev as i128;
                    } else {
                        fp = f as i128 - ev as i128;
                    }
                },
                None => {
                    e_bad = true;
                    proof {
                        // A u64 overflow needs a run of at least 20 digits,
                        // so here the exponent dwarfs the input length.
                        lemma_seek_nondigit_bounds(s@, x0 as int, end as int);
                        if x1 - x0 <= 19 {
                            lemma_digits_upper(s@, x0 as int, x1 as int, 0);
                            assert(pow(10, 19) == 10000000000000000000) by {
                                reveal_with_fuel(pow, 20);
                            }
                            lemma_pow_increases(10, (x1 - x0) as nat, 19);
                            assert(1 * pow(10, (x1 - x0) as nat) == pow(10, (x1 - x0) as nat))
                                by (nonlinear_arith);
                        }
                        assert(x1 - x0 >= 20);
                    }
                },
            }
        }
    }
    Some(FloatScan { jx, neg, m, mv: Ghost(mv), e_bad, fp, fpv: Ghost(fpv) })
}

/// Executable form of [`spec_number_percentage`].
pub(crate) fn number_percentage_at(s: &str, i: usize, end: usize) -> (r: Result<
    (usize, Ratio),
    ParseFilterError,
>)
    requires
        i <= end <= s@.len(),
    ensures
        ratio_step_ok(r, spec_number_percentage(s@, i as int, end as int)),
{
    let i0 = skip_ws(s, i, end);
    let t = match float_scan_at(s, i0, end) {
        None => {
            return Err(ParseFilterError::GrammarMismatch);
        },
        Some(t) => t,
    };
    // Optional percent, looked for past blanks but only consumed with it.
    let j2 = skip_ws(s, t.jx, end);
    let pct = j2 < end && s.get_char(j2) == '%';
    let j3 = if pct {
        j2 + 1
    } else {
        t.jx
    };
    let ghost fpv2: int = if pct {
        t.fpv@ + 2
    } else {
        t.fpv@
    };
    if t.e_bad {
        // The exponent magnitude itself overflowed u64.
        let mzero = match t.m {
            Some(x) => x == 0,
            None => false,
        };
        if mzero {
            proof {
                assert(0 * 1 * pow(10, if fpv2 < 0 { (-fpv2) as nat } else { 0 }) == 0)
                    by (nonlinear_arith);
            }
            return Ok((j3, Ratio { num: 0, den: 1 }));
        }
        proof {
            lemma_number_overflow(t.mv@, fpv2);
        }
        return Err(ParseFilterError::FloatParseError);
    }
    let fp2: i128 = if pct {
        t.fp + 2
    } else {
        t.fp
    };
    match ratio_scaled(t.neg, t.m, Ghost(t.mv@), 1, 1, fp2) {
        Some(rt) => Ok((j3, rt)),
        None => Err(ParseFilterError::FloatParseError),
    }
}

pub proof fn lemma_float_exp_bounds(s: Seq<char>, j: int, end: int, neg: bool, m: int, f: int)
    requires
        0 <= j <= end,
    ensures
        spec_float_exp(s, j, end, neg, m, f) matches Some(t) ==> j <= t.3 <= end,
{
    if j < end && (s[j] == 'e' || s[j] == 'E') {
        let esign = j + 1 < end && (s[j + 1] == '-' || s[j + 1] == '+');
        let x0 = if esign {
            j + 2
        } else {
            j + 1
        };
        lemma_seek_nondigit_bounds(s, x0, end);
    }
}

pub proof fn lemma_float_scan_bounds(s: Seq<char>, i: int, end: int)
    requires
        0 <= i <= end,
    ensures
        spec_float_scan(s, i, end) matches Some(t) ==> i < t.3 <= end,
{
    if i < end {
        let l1 = if s[i] == '-' || s[i] == '+' {
            i + 1
        } else {
            i
        };
        lemma_seek_nondigit_bounds(s, l1, end);
        let d1 = spec_seek_nondigit(s, l1, end);
        if d1 > l1 {
            if d1 < end && s[d1] == '.' {
                lemma_seek_nondigit_bounds(s, d1 + 1, end);
                let d2 = spec_seek_nondigit(s, d1 + 1, end);
                lemma_float_exp_bounds(s, d2, end, s[i] == '-', spec_digits_val_acc(s, d1 + 1, d2,
                    spec_digits_val_acc(s, l1, d1, 0)), d2 - d1 - 1);
            } else {
                lemma_float_exp_bounds(s, d1, end, s[i] == '-', spec_digits_val_acc(s, l1, d1, 0),
                    0);
            }
        } else if l1 < end && s[l1] == '.' {
            lemma_seek_nondigit_bounds(s, l1 + 1, end);
            let d2 = spec_seek_nondigit(s, l1 + 1, end);
            if d2 > l1 + 1 {
                lemma_float_exp_bounds(s, d2, end, s[i] == '-', spec_digits_val_acc(s, l1 + 1, d2,
                    0), d2 - l1 - 1);
            }
        }
    }
}

pub proof fn lemma_number_percentage_bounds(s: Seq<char>, i: int, end: int)
    requires
        0 <= i <= end,
    ensures
        spec_number_percentage(s, i, end) matches Ok(p) ==> i < p.0 <= end,
{
    lemma_skip_ws_bounds(s, i, end);
    let i0 = spec_skip_ws(s, i, end);
    lemma_float_scan_bounds(s, i0, end);
    match spec_float_scan(s, i0, end) {
        Some(t) => {
            lemma_skip_ws_bounds(s, t.3, end);
        },
        None => {
        },
    }
}

/// When the mantissa is nonzero and the net power of ten is at least 20 in
/// magnitude, the value fits no 64-bit rational.
proof fn lemma_number_overflow(mv: int, fpv: int)
    requires
        1 <= mv,
        fpv >= 20 || fpv <= -19,
    ensures
        spec_ratio(false, mv, 1, 1, fpv) is None,
        spec_ratio(true, mv, 1, 1, fpv) is None,
{
    let pnum = pow(10, if fpv < 0 { (-fpv) as nat } else { 0 });
    let pden = pow(10, if fpv > 0 { fpv as nat } else { 0 });
    lemma_pow_positive(10, if fpv < 0 { (-fpv) as nat } else { 0 });
    lemma_pow_positive(10, if fpv > 0 { fpv as nat } else { 0 });
    assert(mv * 1 == mv && 1 * pnum == pnum && 1 * pden == pden) by (nonlinear_arith);
    if fpv >= 20 {
        assert(pow(10, 20) == 100000000000000000000) by {
            reveal_with_fuel(pow, 21);
        }
        lemma_pow_increases(10, 20, fpv as nat);
        lemma_mul_strictly_positive(mv, pnum);
    } else {
        assert(pow(10, 19) == 10000000000000000000) by {
            reveal_with_fuel(pow, 20);
        }
        lemma_pow_increases(10, 19, (-fpv) as nat);
        lemma_mul_inequality(1, mv, pnum);
    }
}

} // verus!
