//! Public data model: exact rational numbers, colors, filter operations and
//! the parser's error taxonomy.

use vstd::arithmetic::mul::{
    lemma_mul_inequality, lemma_mul_left_inequality, lemma_mul_strictly_positive,
    lemma_mul_upper_bound,
};
use vstd::arithmetic::power::{lemma_pow_increases, lemma_pow_positive, pow};
use vstd::prelude::*;

verus! {

/// An exact rational number `num / den`.
///
/// Numeric filter arguments are decimal literals scaled by rational unit
/// multipliers, so every value the parser produces is an exact rational with
/// a 64-bit numerator and denominator.  `den` is always at least 1, and a
/// zero value is always stored as `0 / 1`.
#[derive(Clone, Copy, Debug, PartialEq, Eq, Structural)]
pub struct Ratio {
    pub num: i64,
    pub den: u64,
}

impl Ratio {
    /// Well-formedness: the denominator is positive.
    pub open spec fn wf(self) -> bool {
        self.den >= 1
    }
}

/// The rational `n / d` as a `Ratio`, if it is representable: `n` must fit
/// in `i64` and `d` in `u64`.  A zero value is normalized to `0 / 1`.
pub open spec fn spec_make_ratio(n: int, d: int) -> Option<Ratio> {
    if n == 0 {
        Some(Ratio { num: 0, den: 1 })
    } else if -0x8000000000000000 <= n <= 0x7fffffffffffffff && 1 <= d <= 0xffffffffffffffff {
        Some(Ratio { num: n as i64, den: d as u64 })
    } else {
        None
    }
}

/// Relates an executable 64-bit digit accumulator to the exact value of the
/// digit string: `None` records that the exact value overflowed `u64`.
pub open spec fn digits_ok(o: Option<u64>, v: int) -> bool {
    match o {
        Some(m) => m == v,
        None => v > 0xffffffffffffffff,
    }
}

/// The rational `±(m·un) / (ud·10^fp)` (numerator scaled by `10^-fp` instead
/// when `fp` is negative) as a `Ratio`, if representable.
///
/// `m` is the unsigned decimal mantissa, `neg` its sign, `un / ud` the unit
/// multiplier, and `fp` the net power of ten dividing the value (fractional
/// digits, percent scaling and exponent combined).
pub open spec fn spec_ratio(neg: bool, m: int, un: int, ud: int, fp: int) -> Option<Ratio> {
    let mag = m * un * pow(10, if fp < 0 { (-fp) as nat } else { 0 });
    let n = if neg {
        -mag
    } else {
        mag
    };
    let d = ud * pow(10, if fp > 0 { fp as nat } else { 0 });
    spec_make_ratio(n, d)
}

/// Any rational [`spec_make_ratio`] yields is well-formed.
pub proof fn lemma_make_ratio_wf(n: int, d: int)
    ensures
        spec_make_ratio(n, d) matches Some(rt) ==> rt.wf(),
{
}

/// Any rational [`spec_ratio`] yields is well-formed.
pub proof fn lemma_spec_ratio_wf(neg: bool, m: int, un: int, ud: int, fp: int)
    ensures
        spec_ratio(neg, m, un, ud, fp) matches Some(rt) ==> rt.wf(),
{
    let mag = m * un * pow(10, if fp < 0 { (-fp) as nat } else { 0 });
    let n = if neg {
        -mag
    } else {
        mag
    };
    let d = ud * pow(10, if fp > 0 { fp as nat } else { 0 });
    lemma_make_ratio_wf(n, d);
}

/// A color as four 8-bit channels.
#[derive(Clone, Copy, Debug, PartialEq, Eq, Structural)]
pub struct Rgba {
    pub red: u8,
    pub green: u8,
    pub blue: u8,
    pub alpha: u8,
}

/// Opaque black, the default shadow color.
pub open spec fn spec_black() -> Rgba {
    Rgba { red: 0, green: 0, blue: 0, alpha: 255 }
}

impl Rgba {
    /// Builds a color from its four channels.
    pub fn new(red: u8, green: u8, blue: u8, alpha: u8) -> (c: Rgba)
        ensures
            c == (Rgba { red, green, blue, alpha }),
    {
        Rgba { red, green, blue, alpha }
    }

    /// Opaque black.
    pub fn black() -> (c: Rgba)
        ensures
            c == spec_black(),
    {
        Rgba { red: 0, green: 0, blue: 0, alpha: 255 }
    }
}

/// One parsed filter operation.  Lengths are normalized to CSS pixels;
/// `Brightness` and `Contrast` carry a dimensionless factor.
#[derive(Clone, Copy, Debug, PartialEq, Eq, Structural)]
pub enum CssFilter {
    Blur(Ratio),
    Brightness(Ratio),
    Contrast(Ratio),
    DropShadow(Ratio, Ratio, Ratio, Rgba),
}

impl CssFilter {
    /// Every numeric payload is a well-formed rational.
    pub open spec fn wf(self) -> bool {
        match self {
            CssFilter::Blur(r) => r.wf(),
            CssFilter::Brightness(r) => r.wf(),
            CssFilter::Contrast(r) => r.wf(),
            CssFilter::DropShadow(x, y, b, _) => x.wf() && y.wf() && b.wf(),
        }
    }
}

/// Why a single grammar attempt failed.  The list driver swallows these and
/// simply stops consuming input.
#[derive(Clone, Debug, PartialEq, Eq)]
pub enum ParseFilterError {
    /// The input does not have the shape the grammar expects.
    GrammarMismatch,
    /// A numeric portion is not a valid decimal literal, or its exact value
    /// does not fit in a 64-bit rational.
    FloatParseError,
    /// A length carries an unknown unit, or a nonzero length carries none;
    /// the text names the offending unit.
    UnitParseError(String),
}

/// Spec-level form of a grammar error: the unit error carries the
/// offending unit text as a character sequence.
pub enum SpecParseError {
    GrammarMismatch,
    FloatParseError,
    UnitParseError(Seq<char>),
}

/// Relates an executable error to its spec-level form: the same variant,
/// with the unit error naming the same text.
pub open spec fn err_ok(e: ParseFilterError, m: SpecParseError) -> bool {
    match (e, m) {
        (ParseFilterError::GrammarMismatch, SpecParseError::GrammarMismatch) => true,
        (ParseFilterError::FloatParseError, SpecParseError::FloatParseError) => true,
        (ParseFilterError::UnitParseError(u), SpecParseError::UnitParseError(su)) => u@ == su,
        _ => false,
    }
}

/// Relates an executable length-normalization result to its specification.
pub open spec fn ratio_res_ok(r: Result<Ratio, ParseFilterError>, m: Result<
    Ratio,
    SpecParseError,
>) -> bool {
    match (r, m) {
        (Ok(a), Ok(b)) => a == b,
        (Err(e), Err(se)) => err_ok(e, se),
        _ => false,
    }
}

/// Builds the `Ratio` for mantissa `m` (exact value `mv`, sign `neg`), unit
/// multiplier `un / ud` and net power-of-ten denominator exponent `fp`,
/// exactly as [`spec_ratio`] defines it.
pub(crate) fn ratio_scaled(
    neg: bool,
    m: Option<u64>,
    Ghost(mv): Ghost<int>,
    un: u64,
    ud: u64,
    fp: i128,
) -> (r: Option<Ratio>)
    requires
        digits_ok(m, mv),
        0 <= mv,
        1 <= un <= 9600,
        1 <= ud <= 127,
    ensures
        r == spec_ratio(neg, mv, un as int, ud as int, fp as int),
{
    let ghost fpi = fp as int;
    let ghost pnum = pow(10, if fpi < 0 { (-fpi) as nat } else { 0 });
    let ghost pden = pow(10, if fpi > 0 { fpi as nat } else { 0 });
    let ghost mag = mv * (un as int) * pnum;
    proof {
        lemma_pow_positive(10, if fpi < 0 { (-fpi) as nat } else { 0 });
        lemma_pow_positive(10, if fpi > 0 { fpi as nat } else { 0 });
    }
    let m0 = match m {
        Some(m0) => m0,
        None => {
            // The mantissa alone exceeds u64::MAX, so the numerator cannot
            // fit in i64 whatever the scaling.
            proof {
                lemma_mul_strictly_positive(mv, un as int);
                lemma_mul_left_inequality(mv, 1, un as int);
                lemma_mul_left_inequality(mv * (un as int), 1, pnum);
                assert(mv * 1 == mv && mv * (un as int) * 1 == mv * (un as int)) by (nonlinear_arith);
            }
            return None;
        },
    };
    if m0 == 0 {
        proof {
            assert(mag == 0) by (nonlinear_arith)
                requires
                    mv == 0,
                    mag == mv * (un as int) * pnum,
            ;
        }
        return Some(Ratio { num: 0, den: 1 });
    }
    proof {
        lemma_mul_strictly_positive(mv, un as int);
        lemma_mul_strictly_positive(mv * (un as int), pnum);
        lemma_mul_upper_bound(mv, 0xffffffffffffffff, un as int, 9600);
    }
    let nb0: u128 = (m0 as u128) * (un as u128);
    if fp >= 20 {
        // Denominator at least 10^20, which exceeds u64::MAX.
        proof {
            assert(pow(10, 20) == 100000000000000000000) by {
                reveal_with_fuel(pow, 21);
            }
            lemma_pow_increases(10, 20, fpi as nat);
            lemma_mul_left_inequality(pden, 1, ud as int);
            assert(pden * 1 == pden && pden * (ud as int) == (ud as int) * pden)
                by (nonlinear_arith);
        }
        return None;
    }
    if fp <= -19 {
        // Numerator magnitude at least 10^19, which exceeds 2^63.
        proof {
            assert(pow(10, 19) == 10000000000000000000) by {
                reveal_with_fuel(pow, 20);
            }
            lemma_pow_increases(10, 19, (-fpi) as nat);
            lemma_mul_inequality(1, mv * (un as int), pnum);
            assert(1 * pnum == pnum) by (nonlinear_arith);
            lemma_mul_left_inequality(mv * (un as int), pow(10, 19), pnum);
        }
        return None;
    }
    // Scale the numerator (fp < 0) or the denominator (fp > 0) by 10 at a
    // time; both loops run fewer than 20 iterations.
    let mut nb: u128 = nb0;
    let mut big = false;
    let lim: u128 = 9223372036854775808;
    proof {
        assert(pow(10, 0) == 1) by {
            reveal_with_fuel(pow, 1);
        }
        assert(mv * (un as int) * 1 == mv * (un as int)) by (nonlinear_arith);
    }
    if fp < 0 {
        let steps: usize = (-fp) as usize;
        let mut k: usize = 0;
        while k < steps
            invariant
                0 <= k <= steps,
                steps == -fpi,
                mag == mv * (un as int) * pnum,
                pnum == pow(10, (-fpi) as nat),
                !big ==> nb == mv * (un as int) * pow(10, k as nat),
                big ==> mv * (un as int) * pow(10, k as nat) > lim,
                nb <= 0xffffffffffffffff * 9600 * 10,
                lim == 9223372036854775808,
            decreases steps - k,
        {
            proof {
                assert(mv * (un as int) * (10 * pow(10, k as nat)) == (mv * (un as int) * pow(
                    10,
                    k as nat,
                )) * 10) by (nonlinear_arith);
                assert(pow(10, (k + 1) as nat) == 10 * pow(10, k as nat)) by {
                    reveal_with_fuel(pow, 2);
                }
            }
            if big || nb > lim {
                if !big {
                    big = true;
                }
            } else {
                nb = nb * 10;
            }
            k = k + 1;
        }
        proof {
            assert(pow(10, steps as nat) == pnum);
        }
    } else if fp > 0 {
        let steps: usize = fp as usize;
        let mut dd: u128 = ud as u128;
        let mut k: usize = 0;
        proof {
            assert(pow(10, 19) == 10000000000000000000) by {
                reveal_with_fuel(pow, 20);
            }
        }
        while k < steps
            invariant
                0 <= k <= steps,
                steps == fpi,
                steps <= 19,
                pden == pow(10, fpi as nat),
                1 <= ud <= 127,
                dd == (ud as int) * pow(10, k as nat),
                dd <= 127 * 10000000000000000000,
            decreases steps - k,
        {
            proof {
                assert((ud as int) * (10 * pow(10, k as nat)) == ((ud as int) * pow(10, k as nat))
                    * 10) by (nonlinear_arith);
                assert(pow(10, (k + 1) as nat) == 10 * pow(10, k as nat)) by {
                    reveal_with_fuel(pow, 2);
                }
                lemma_pow_positive(10, (k + 1) as nat);
                lemma_pow_increases(10, (k + 1) as nat, 19);
                lemma_mul_left_inequality(ud as int, pow(10, (k + 1) as nat), pow(10, 19));
                assert(pow(10, 19) == 10000000000000000000) by {
                    reveal_with_fuel(pow, 20);
                }
                lemma_mul_upper_bound(ud as int, 127, pow(10, (k + 1) as nat), pow(10, 19));
            }
            dd = dd * 10;
            k = k + 1;
        }
        proof {
            assert(pow(10, steps as nat) == pden);
            lemma_pow_positive(10, steps as nat);
            lemma_mul_strictly_positive(ud as int, pow(10, steps as nat));
        }
        if dd > 0xffffffffffffffffu128 {
            return None;
        }
        if !neg && nb < lim {
            return Some(Ratio { num: nb as i64, den: dd as u64 });
        }
        if neg && nb <= lim {
            let num: i64 = if nb == lim {
                i64::MIN
            } else {
                -(nb as i64)
            };
            return Some(Ratio { num, den: dd as u64 });
        }
        return None;
    }
    // Here fp <= 0: the denominator is just `ud`, and `nb`/`big` describe
    // the scaled numerator magnitude.
    proof {
        if fpi == 0 {
            assert(mag == mv * (un as int) * 1);
        }
    }
    if big || nb > lim || (!neg && nb == lim) {
        return None;
    }
    let num: i64 = if nb == lim {
        i64::MIN
    } else if neg {
        -(nb as i64)
    } else {
        nb as i64
    };
    Some(Ratio { num, den: ud })
}

} // verus!
