use palette::{IntoColor, Oklch, Srgb};
use reedstyle::color::{
    generate_color_scale, generate_neutral_scale, generate_scale, generate_variations, parse_color,
    ColorParseError, ColorScale, OklchColor, RawColor,
};

fn steps(s: &ColorScale) -> Vec<OklchColor> {
    vec![s.scale_1, s.scale_2, s.scale_3, s.scale_4, s.scale_5, s.scale_6, s.scale_7, s.scale_8, s.scale_9]
}

#[test]
fn scale_has_nine_darkening_steps_with_one_hue() {
    let base = OklchColor { lightness: 7116, chroma: 181, hue: 228 };
    let s = steps(&generate_scale(base));
    assert_eq!(s.len(), 9);
    for w in s.windows(2) {
        assert!(w[0].lightness >= w[1].lightness);
    }
    assert!(s.iter().all(|c| c.hue == 228));
    let l: Vec<u32> = s.iter().map(|c| c.lightness).collect();
    assert_eq!(l, vec![9500, 8500, 7500, 6500, 5500, 4500, 3500, 2500, 1500]);
    let c: Vec<u32> = s.iter().map(|c| c.chroma).collect();
    assert_eq!(c, vec![18, 54, 91, 181, 181, 181, 145, 109, 72]);
}

#[test]
fn scale_text_form() {
    let s = generate_color_scale("oklch(71.16% 0.181 22.8)");
    assert_eq!(s.scale_1.to_css(), "oklch(95.00% 0.018 22.8)");
    assert_eq!(s.scale_5.to_css(), "oklch(55.00% 0.181 22.8)");
    assert_eq!(s.scale_9.to_css(), "oklch(15.00% 0.072 22.8)");
}

#[test]
fn unreadable_literal_falls_back_to_neutral() {
    assert_eq!(generate_color_scale("oklch(50%)"), generate_neutral_scale());
    assert_eq!(generate_color_scale("not a colour"), generate_neutral_scale());
}

#[test]
fn neutral_scale_is_fixed() {
    let a = generate_neutral_scale();
    let b = generate_neutral_scale();
    assert_eq!(a, b);
    assert_eq!(ColorScale::grayscale(), a);
    for c in steps(&a) {
        assert_eq!(c.chroma, 0);
        assert_eq!(c.hue, 0);
    }
    assert_eq!(a.scale_1.to_css(), "oklch(95.00% 0.000 0.0)");
}

#[test]
fn variations_pick_named_steps() {
    let v = generate_variations("oklch(60% 0.2 250)");
    let s = generate_color_scale("oklch(60% 0.2 250)");
    assert_eq!(v.weak, s.scale_2);
    assert_eq!(v.light, s.scale_3);
    assert_eq!(v.normal, s.scale_5);
    assert_eq!(v.intense, s.scale_6);
    assert_eq!(v.bright, s.scale_4);
    assert_eq!(v.strong, s.scale_7);
}

#[test]
fn hex_literal_channels() {
    assert_eq!(parse_color("#3B82F6"), Ok(RawColor::Hex { r: 0x3B, g: 0x82, b: 0xF6 }));
    assert_eq!(parse_color("#3b82f6"), Ok(RawColor::Hex { r: 0x3B, g: 0x82, b: 0xF6 }));
}

#[test]
fn invalid_hex_is_rejected() {
    assert_eq!(parse_color("#3B82F"), Err(ColorParseError::InvalidHex));
    assert_eq!(parse_color("#3B82FG"), Err(ColorParseError::InvalidHex));
}

#[test]
fn rgb_and_hsl_literals() {
    assert_eq!(parse_color("rgb(59, 130, 246)"), Ok(RawColor::Rgb { r: 59, g: 130, b: 246 }));
    assert_eq!(parse_color("rgba(1,2,3,0.5)"), Ok(RawColor::Rgb { r: 1, g: 2, b: 3 }));
    assert_eq!(
        parse_color("hsl(217.2, 91.2%, 59.8%)"),
        Ok(RawColor::Hsl { hue: 2172, saturation: 912, lightness: 598 })
    );
    assert_eq!(
        parse_color("oklch(68.5% 0.24 25)"),
        Ok(RawColor::Oklch(OklchColor { lightness: 6850, chroma: 240, hue: 250 }))
    );
}

#[test]
fn bad_components_are_rejected() {
    assert_eq!(parse_color("rgb(256, 0, 0)"), Err(ColorParseError::InvalidComponent));
    assert_eq!(parse_color("rgb(1, 2)"), Err(ColorParseError::InvalidComponent));
    assert_eq!(parse_color("rgb(a, 2, 3)"), Err(ColorParseError::InvalidComponent));
    assert_eq!(parse_color("hsl(10, 20, 30%)"), Err(ColorParseError::InvalidComponent));
    assert_eq!(parse_color("oklch(68.5% 0.24)"), Err(ColorParseError::InvalidComponent));
}

#[test]
fn unknown_formats_are_rejected() {
    assert_eq!(parse_color("red"), Err(ColorParseError::UnsupportedFormat));
    assert_eq!(parse_color(""), Err(ColorParseError::UnsupportedFormat));
}

#[test]
fn blue_hex_converts_near_reference_oklch() {
    let (r, g, b) = match parse_color("#3B82F6") {
        Ok(RawColor::Hex { r, g, b }) => (r, g, b),
        other => panic!("unexpected {:?}", other),
    };
    let c: Oklch = Srgb::new(r as f32 / 255.0, g as f32 / 255.0, b as f32 / 255.0).into_color();
    assert!((c.l - 0.6231).abs() < 0.01);
    assert!((c.chroma - 0.1880).abs() < 0.01);
    assert!((c.hue.into_positive_degrees() - 259.81).abs() < 1.0);
}

#[test]
fn extra_decimals_are_rounded() {
    let s = generate_color_scale("oklch(50% 0.1234 20)");
    assert_eq!(s.scale_4, OklchColor { lightness: 6500, chroma: 123, hue: 200 });
    assert!(steps(&s).iter().all(|c| c.hue == 200));
    assert_eq!(
        parse_color("oklch(50.125% 0.1 20)"),
        Ok(RawColor::Oklch(OklchColor { lightness: 5013, chroma: 100, hue: 200 }))
    );
    assert_eq!(generate_color_scale("oklch(50.125% 0.1 20)"), generate_color_scale("oklch(50% 0.1 20)"));
    assert_eq!(parse_color("rgb(59.5, 130, 246)"), Ok(RawColor::Rgb { r: 60, g: 130, b: 246 }));
    assert_eq!(
        parse_color("hsl(120.25, 50%, 50%)"),
        Ok(RawColor::Hsl { hue: 1203, saturation: 500, lightness: 500 })
    );
    assert_eq!(
        parse_color("oklch(0.9999% .5 359.99)"),
        Ok(RawColor::Oklch(OklchColor { lightness: 100, chroma: 500, hue: 0 }))
    );
}

#[test]
fn oklch_words_split_on_any_whitespace() {
    assert_eq!(
        parse_color("oklch(60%\t0.2  250)"),
        Ok(RawColor::Oklch(OklchColor { lightness: 6000, chroma: 200, hue: 2500 }))
    );
}
