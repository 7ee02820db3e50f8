//! Edge cases from the unit table, the error taxonomy, and the permissive
//! termination policy.

use cssfilter::{
    blur_parser, brightness_parser, css_filter, number_percentage, pixel, CssFilter,
    ParseFilterError, Ratio, Rgba,
};

fn to_f32(r: &Ratio) -> f32 {
    r.num as f32 / r.den as f32
}

fn px(input: &str) -> f32 {
    to_f32(&pixel(input).unwrap())
}

#[test]
fn unit_table_exact_values() {
    assert_eq!(px("16px"), 16.0);
    assert_eq!(px("1em"), 16.0);
    assert_eq!(px("1.5rem"), 24.0);
    assert_eq!(px("2pc"), 32.0);
    assert_eq!(px("3pt"), 4.0);
    assert_eq!(px("1in"), 96.0);
    assert_eq!(px("2.54cm"), 96.0);
    assert_eq!(px("25.4mm"), 96.0);
    assert_eq!(px("101.6q"), 96.0);
    assert_eq!(px("0"), 0.0);
    assert_eq!(px("-3px"), -3.0);
    // A percentage length counts 16 px per 100.
    assert_eq!(px("20%"), 3.2);
    assert_eq!(px("100%"), 16.0);
    assert_eq!(pixel("20%").unwrap(), Ratio { num: 80, den: 25 });
    // The exact rationals behind the inexact multipliers.
    assert_eq!(pixel("1cm").unwrap(), Ratio { num: 4800, den: 127 });
    assert_eq!(pixel("1mm").unwrap(), Ratio { num: 480, den: 127 });
    assert_eq!(pixel("1q").unwrap(), Ratio { num: 120, den: 127 });
}

#[test]
fn unit_errors() {
    // A nonzero length without a unit is refused...
    assert_eq!(
        pixel("5"),
        Err(ParseFilterError::UnitParseError("[No unit assigned]".to_string()))
    );
    // ...as is an unknown unit, and the error names it.
    assert_eq!(
        pixel("5vw"),
        Err(ParseFilterError::UnitParseError("vw".to_string()))
    );
    // A broken numeric portion is a float error.
    assert_eq!(pixel("..px"), Err(ParseFilterError::FloatParseError));
    assert_eq!(pixel(""), Err(ParseFilterError::FloatParseError));
    // Whitespace between number and unit is fine.
    assert_eq!(px("20 px"), 20.0);
}

#[test]
fn unitless_nonzero_blur_fails_whole_grammar() {
    // The grammar attempt fails and the text stays unconsumed.
    assert_eq!(css_filter("blur(5)"), ("blur(5)", vec![]));
    assert_eq!(px("0.000"), 0.0);
}

#[test]
fn percentage_lengths_in_filters() {
    // The unit table applies inside the grammars too.
    let (rem, fs) = css_filter("blur(50%)");
    assert_eq!(rem, "");
    assert!(matches!(&fs[0], CssFilter::Blur(r) if to_f32(r) == 8.0));
    let (rem, fs) = css_filter("drop-shadow(50% 2px)");
    assert_eq!(rem, "");
    match &fs[0] {
        CssFilter::DropShadow(x, y, _, _) => {
            assert_eq!(to_f32(x), 8.0);
            assert_eq!(to_f32(y), 2.0);
        }
        other => panic!("expected drop-shadow, got {:?}", other),
    }
}

#[test]
fn percentage_factors() {
    let (rem, fs) = css_filter("brightness(150%)");
    assert_eq!(rem, "");
    assert!(matches!(&fs[0], CssFilter::Brightness(r) if to_f32(r) == 1.5));
    let (rem, fs) = css_filter("contrast(200%)");
    assert_eq!(rem, "");
    assert!(matches!(&fs[0], CssFilter::Contrast(r) if to_f32(r) == 2.0));
}

#[test]
fn factors_with_exponents() {
    let (rem, fs) = css_filter("brightness(2e2)");
    assert_eq!(rem, "");
    assert!(matches!(&fs[0], CssFilter::Brightness(r) if to_f32(r) == 200.0));
    let (rem, fs) = css_filter("brightness(25e-2)");
    assert_eq!(rem, "");
    assert!(matches!(&fs[0], CssFilter::Brightness(r) if to_f32(r) == 0.25));
}

#[test]
fn ordering_preserved() {
    let (rem, fs) = css_filter("brightness(2) blur(1.5rem) drop-shadow(2px 2px 5px)");
    assert_eq!(rem, "");
    assert_eq!(fs.len(), 3);
    assert!(matches!(&fs[0], CssFilter::Brightness(r) if to_f32(r) == 2.0));
    assert!(matches!(&fs[1], CssFilter::Blur(r) if to_f32(r) == 24.0));
    match &fs[2] {
        CssFilter::DropShadow(x, y, b, c) => {
            assert_eq!((to_f32(x), to_f32(y), to_f32(b)), (2.0, 2.0, 5.0));
            assert_eq!(*c, Rgba::new(0, 0, 0, 255));
        }
        other => panic!("expected drop-shadow, got {:?}", other),
    }
}

#[test]
fn single_function_inputs() {
    assert_eq!(css_filter("blur(1in)").1, css_filter(" blur( 1 in ) ").1);
    let (rem, fs) = css_filter("blur(1in)");
    assert_eq!(rem, "");
    assert_eq!(fs.len(), 1);
    assert!(matches!(&fs[0], CssFilter::Blur(r) if to_f32(r) == 96.0));
}

#[test]
fn permissive_termination() {
    let (rem, fs) = css_filter("blur(20px) unknown-fn(1)");
    assert_eq!(rem, "unknown-fn(1)");
    assert_eq!(fs.len(), 1);
    assert!(matches!(&fs[0], CssFilter::Blur(r) if to_f32(r) == 20.0));

    // A malformed second function keeps the parsed prefix too.
    let (rem, fs) = css_filter("brightness(2) blur(nope)");
    assert_eq!(rem, "blur(nope)");
    assert_eq!(fs.len(), 1);

    // Unrecognized leading text parses to nothing, trimmed once.
    assert_eq!(css_filter("  opacity(0.5)  "), ("opacity(0.5)", vec![]));
}

#[test]
fn drop_shadow_named_color() {
    // The color comes back from the CSS color grammar, not from the raw
    // text: a keyword maps to its channels.
    let (rem, fs) = css_filter("drop-shadow(1px 2px 3px red)");
    assert_eq!(rem, "");
    match &fs[0] {
        CssFilter::DropShadow(x, y, b, c) => {
            assert_eq!(to_f32(x), 1.0);
            assert_eq!(to_f32(y), 2.0);
            assert_eq!(to_f32(b), 3.0);
            assert_eq!(*c, Rgba::new(255, 0, 0, 255));
        }
        other => panic!("expected drop-shadow, got {:?}", other),
    }
}

#[test]
fn drop_shadow_unparsable_color_is_black() {
    let (rem, fs) = css_filter("drop-shadow(1px 2px 3px notacolor)");
    assert_eq!(rem, "");
    match &fs[0] {
        CssFilter::DropShadow(_, _, _, c) => assert_eq!(*c, Rgba::new(0, 0, 0, 255)),
        other => panic!("expected drop-shadow, got {:?}", other),
    }
}

#[test]
fn drop_shadow_negative_offsets() {
    let (rem, fs) = css_filter("drop-shadow(-2px -3px)");
    assert_eq!(rem, "");
    match &fs[0] {
        CssFilter::DropShadow(x, y, b, c) => {
            assert_eq!(to_f32(x), -2.0);
            assert_eq!(to_f32(y), -3.0);
            assert_eq!(to_f32(b), 0.0);
            assert_eq!(*c, Rgba::new(0, 0, 0, 255));
        }
        other => panic!("expected drop-shadow, got {:?}", other),
    }
}

#[test]
fn repeated_functions_keep_order_and_count() {
    let (rem, fs) = css_filter("blur(1px) blur(2px) blur(1px)");
    assert_eq!(rem, "");
    let vals: Vec<f32> = fs
        .iter()
        .map(|f| match f {
            CssFilter::Blur(r) => to_f32(r),
            other => panic!("expected blur, got {:?}", other),
        })
        .collect();
    assert_eq!(vals, vec![1.0, 2.0, 1.0]);
}

#[test]
fn whitespace_only_input() {
    assert_eq!(css_filter("   "), ("", vec![]));
}

#[test]
fn grammar_mismatch_errors() {
    assert!(matches!(
        blur_parser("brightness(2)"),
        Err(ParseFilterError::GrammarMismatch)
    ));
    assert!(matches!(
        brightness_parser("brightness(2"),
        Err(ParseFilterError::GrammarMismatch)
    ));
    assert!(matches!(
        number_percentage("x"),
        Err(ParseFilterError::GrammarMismatch)
    ));
}

#[test]
fn values_beyond_64_bit_rationals_fail() {
    // Mantissa past u64.
    assert!(matches!(
        brightness_parser("brightness(99999999999999999999999999)"),
        Err(ParseFilterError::FloatParseError)
    ));
    // Exponent past u64 on a nonzero mantissa.
    assert!(matches!(
        brightness_parser("brightness(1e99999999999999999999)"),
        Err(ParseFilterError::FloatParseError)
    ));
    // A zero mantissa absorbs any exponent.
    let (rem, f) = brightness_parser("brightness(0e99999999999999999999)").unwrap();
    assert_eq!(rem, "");
    assert!(matches!(&f, CssFilter::Brightness(r) if to_f32(r) == 0.0));
}
