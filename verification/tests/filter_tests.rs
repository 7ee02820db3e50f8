//! The parser's core behavior on whole filter lists and single functions.

use cssfilter::{css_filter, number_percentage, parse_drop_shadow, CssFilter, Ratio, Rgba};

fn to_f32(r: &Ratio) -> f32 {
    r.num as f32 / r.den as f32
}

fn one_blur(input: &str) -> f32 {
    let (rem, fs) = css_filter(input);
    assert_eq!(rem, "");
    assert_eq!(fs.len(), 1);
    match &fs[0] {
        CssFilter::Blur(r) => to_f32(r),
        other => panic!("expected blur, got {:?}", other),
    }
}

fn one_brightness(input: &str) -> f32 {
    let (rem, fs) = css_filter(input);
    assert_eq!(rem, "");
    assert_eq!(fs.len(), 1);
    match &fs[0] {
        CssFilter::Brightness(r) => to_f32(r),
        other => panic!("expected brightness, got {:?}", other),
    }
}

fn one_contrast(input: &str) -> f32 {
    let (rem, fs) = css_filter(input);
    assert_eq!(rem, "");
    assert_eq!(fs.len(), 1);
    match &fs[0] {
        CssFilter::Contrast(r) => to_f32(r),
        other => panic!("expected contrast, got {:?}", other),
    }
}

fn shadow_parts(f: &CssFilter) -> (f32, f32, f32, Rgba) {
    match f {
        CssFilter::DropShadow(x, y, b, c) => (to_f32(x), to_f32(y), to_f32(b), *c),
        other => panic!("expected drop-shadow, got {:?}", other),
    }
}

#[test]
fn parse_empty() {
    assert_eq!(css_filter(""), ("", vec![]));
}

#[test]
fn parse_blur() {
    assert_eq!(one_blur("blur(20px)"), 20.0);
    assert_eq!(one_blur("blur(0)"), 0.0);
    assert_eq!(one_blur("blur(1.5rem)"), 24.0);
    assert_eq!(one_blur("blur(20 px)"), 20.0);
    assert_eq!(one_blur("blur( 20 px )"), 20.0);
}

#[test]
fn parse_brightness() {
    assert_eq!(one_brightness("brightness(2)"), 2.0f32);
    assert_eq!(one_brightness("brightness(2%)"), 0.02f32);
    assert_eq!(one_brightness("brightness( 2%)"), 0.02f32);
    assert_eq!(one_brightness("brightness( 2% )"), 0.02f32);
    assert_eq!(one_brightness("brightness( 2 % )"), 0.02f32);
    assert_eq!(one_brightness(" brightness( 2 % )  "), 0.02f32);
}

#[test]
fn drop_shadow_parse() {
    let (rem, f) = parse_drop_shadow("drop-shadow(2px 2px)").unwrap();
    assert_eq!(rem, "");
    assert_eq!(
        shadow_parts(&f),
        (2.0f32, 2.0f32, 0.0f32, Rgba::new(0, 0, 0, 255))
    );

    let (rem, f) = parse_drop_shadow("drop-shadow(2px 2px 5px)").unwrap();
    assert_eq!(rem, "");
    assert_eq!(
        shadow_parts(&f),
        (2.0f32, 2.0f32, 5.0f32, Rgba::new(0, 0, 0, 255))
    );

    let (rem, f) = parse_drop_shadow("drop-shadow(2px 2px 5px #2F14DF)").unwrap();
    assert_eq!(rem, "");
    assert_eq!(
        shadow_parts(&f),
        (2.0f32, 2.0f32, 5.0f32, Rgba::new(47, 20, 223, 255))
    );

    let (rem, f) = parse_drop_shadow("drop-shadow(2px 2px 5px rgba(47, 20, 223, 255))").unwrap();
    assert_eq!(rem, "");
    assert_eq!(
        shadow_parts(&f),
        (2.0f32, 2.0f32, 5.0f32, Rgba::new(47, 20, 223, 255))
    );
}

#[test]
fn contrast_parse() {
    assert_eq!(one_contrast("contrast(200%)"), 2.0f32);
    assert_eq!(one_contrast("contrast( 200%)"), 2.0f32);
    assert_eq!(one_contrast("contrast(200% )"), 2.0f32);
    assert_eq!(one_contrast("contrast( 200% )"), 2.0f32);
    assert_eq!(one_contrast("contrast( 200% )  "), 2.0f32);
}

#[test]
fn composite_parse() {
    let (rem, fs) = css_filter("blur(1.5rem) brightness(2)");
    assert_eq!(rem, "");
    assert_eq!(fs.len(), 2);
    assert!(matches!(&fs[0], CssFilter::Blur(r) if to_f32(r) == 24.0));
    assert!(matches!(&fs[1], CssFilter::Brightness(r) if to_f32(r) == 2.0f32));

    let (rem, fs) = css_filter("brightness(2) blur(1.5rem)");
    assert_eq!(rem, "");
    assert_eq!(fs.len(), 2);
    assert!(matches!(&fs[0], CssFilter::Brightness(r) if to_f32(r) == 2.0f32));
    assert!(matches!(&fs[1], CssFilter::Blur(r) if to_f32(r) == 24.0));

    let shadow = Rgba::new(47, 20, 223, 255);

    let (rem, fs) =
        css_filter("drop-shadow(2px 2px 5px rgba(47, 20, 223, 255)) brightness(2) blur(1.5rem)");
    assert_eq!(rem, "");
    assert_eq!(fs.len(), 3);
    assert_eq!(shadow_parts(&fs[0]), (2.0f32, 2.0f32, 5.0f32, shadow));
    assert!(matches!(&fs[1], CssFilter::Brightness(r) if to_f32(r) == 2.0f32));
    assert!(matches!(&fs[2], CssFilter::Blur(r) if to_f32(r) == 24.0));

    let (rem, fs) =
        css_filter("brightness(2) drop-shadow(2px 2px 5px rgba(47, 20, 223, 255)) blur(1.5rem)");
    assert_eq!(rem, "");
    assert_eq!(fs.len(), 3);
    assert!(matches!(&fs[0], CssFilter::Brightness(r) if to_f32(r) == 2.0f32));
    assert_eq!(shadow_parts(&fs[1]), (2.0f32, 2.0f32, 5.0f32, shadow));
    assert!(matches!(&fs[2], CssFilter::Blur(r) if to_f32(r) == 24.0));

    let (rem, fs) =
        css_filter("brightness(2) blur(1.5rem) drop-shadow(2px 2px 5px rgba(47, 20, 223, 255))");
    assert_eq!(rem, "");
    assert_eq!(fs.len(), 3);
    assert!(matches!(&fs[0], CssFilter::Brightness(r) if to_f32(r) == 2.0f32));
    assert!(matches!(&fs[1], CssFilter::Blur(r) if to_f32(r) == 24.0));
    assert_eq!(shadow_parts(&fs[2]), (2.0f32, 2.0f32, 5.0f32, shadow));
}

#[test]
fn parse_number_or_percentage() {
    let (rem, v) = number_percentage("2").unwrap();
    assert_eq!(rem, "");
    assert_eq!(to_f32(&v), 2f32);

    let (rem, v) = number_percentage("1.11").unwrap();
    assert_eq!(rem, "");
    assert_eq!(to_f32(&v), 1.11f32);

    let (rem, v) = number_percentage("20%").unwrap();
    assert_eq!(rem, "");
    assert_eq!(to_f32(&v), 0.2f32);

    let (rem, v) = number_percentage("-20%").unwrap();
    assert_eq!(rem, "");
    assert_eq!(to_f32(&v), -0.2f32);

    let (rem, v) = number_percentage("-0.1").unwrap();
    assert_eq!(rem, "");
    assert_eq!(to_f32(&v), -0.1f32);
}
