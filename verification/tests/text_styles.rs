use gpui_style::color::{black, Hsla};
use gpui_style::geometry::{AbsoluteLength, DefiniteLength, Pixels, Rems};
use gpui_style::text::{
    FontFeatures, FontStyle, FontWeight, HighlightStyle, TextStyle, TextStyleRefinement, UnderlineStyle,
    WhiteSpace,
};

fn hsla(h: f32, s: f32, l: f32, a: f32) -> Hsla {
    Hsla { h: h.to_bits(), s: s.to_bits(), l: l.to_bits(), a: a.to_bits() }
}

fn blend(bottom: Hsla, top: Hsla) -> Hsla {
    let alpha = f32::from_bits(top.a);
    if alpha >= 1.0 {
        top
    } else if alpha <= 0.0 {
        bottom
    } else {
        panic!("translucent colors are not blended in these tests")
    }
}

fn fade(color: Hsla, factor: u32) -> Hsla {
    let f = f32::from_bits(factor).clamp(0., 1.);
    Hsla { a: (f32::from_bits(color.a) * (1. - f)).to_bits(), ..color }
}

fn mix(source: u32, dest: u32) -> u32 {
    let s = f32::from_bits(source);
    let d = f32::from_bits(dest);
    (d * (1. + s)).clamp(0., 1.).to_bits()
}

fn underline() -> UnderlineStyle {
    UnderlineStyle { thickness: Pixels(1.0f32.to_bits()), color: None, wavy: true }
}

#[test]
fn default_text_style() {
    let style = TextStyle::default();
    assert_eq!(style.color, black());
    assert_eq!(style.color, hsla(0., 0., 0., 1.));
    assert_eq!(style.font_family, "Helvetica");
    assert_eq!(style.font_features, FontFeatures { enabled: 0, disabled: 0 });
    assert_eq!(style.font_size, AbsoluteLength::Rems(Rems(1.0f32.to_bits())));
    assert_eq!(style.line_height, DefiniteLength::Fraction(1.618_034f32.to_bits()));
    assert_eq!(style.font_weight, FontWeight(400.0f32.to_bits()));
    assert_eq!(style.font_style, FontStyle::Normal);
    assert_eq!(style.background_color, None);
    assert_eq!(style.underline, None);
    assert_eq!(style.white_space, WhiteSpace::Normal);
}

#[test]
fn font_of_text_style() {
    let mut style = TextStyle::default();
    style.font_family = "Zed Mono".to_string();
    style.font_features = FontFeatures { enabled: 5, disabled: 2 };
    style.font_style = FontStyle::Italic;
    let font = style.font();
    assert_eq!(font.family, "Zed Mono");
    assert_eq!(font.features, FontFeatures { enabled: 5, disabled: 2 });
    assert_eq!(font.weight, style.font_weight);
    assert_eq!(font.style, FontStyle::Italic);
}

#[test]
fn run_of_text_style_drops_features() {
    let mut style = TextStyle::default();
    style.font_features = FontFeatures { enabled: 7, disabled: 0 };
    style.background_color = Some(hsla(0.5, 0.5, 0.5, 1.));
    style.underline = Some(underline());
    let run = style.to_run(12);
    assert_eq!(run.len, 12);
    assert_eq!(run.font.family, "Helvetica");
    assert_eq!(run.font.features, FontFeatures { enabled: 0, disabled: 0 });
    assert_eq!(run.font.weight, style.font_weight);
    assert_eq!(run.color, style.color);
    assert_eq!(run.background_color, Some(hsla(0.5, 0.5, 0.5, 1.)));
    assert_eq!(run.underline, Some(underline()));
}

#[test]
fn text_highlight_overrides_and_blends() {
    let red = hsla(0., 1., 0.5, 1.);
    let highlight = HighlightStyle {
        color: Some(red),
        font_weight: Some(FontWeight(700.0f32.to_bits())),
        font_style: Some(FontStyle::Oblique),
        background_color: Some(black()),
        underline: Some(underline()),
        fade_out: None,
    };
    let out = TextStyle::default().highlight(highlight, &blend, &fade);
    assert_eq!(out.color, red);
    assert_eq!(out.font_weight, FontWeight(700.0f32.to_bits()));
    assert_eq!(out.font_style, FontStyle::Oblique);
    assert_eq!(out.background_color, Some(black()));
    assert_eq!(out.underline, Some(underline()));
    assert_eq!(out.font_family, "Helvetica");
}

#[test]
fn text_highlight_fades_after_blending() {
    let red = hsla(0., 1., 0.5, 1.);
    let highlight =
        HighlightStyle { color: Some(red), fade_out: Some(0.25f32.to_bits()), ..Default::default() };
    let out = TextStyle::default().highlight(highlight, &blend, &fade);
    assert_eq!(out.color, hsla(0., 1., 0.5, 0.75));
    let only_fade = HighlightStyle { fade_out: Some(0.5f32.to_bits()), ..Default::default() };
    let out = TextStyle::default().highlight(only_fade, &blend, &fade);
    assert_eq!(out.color, hsla(0., 0., 0., 0.5));
}

#[test]
fn empty_highlight_changes_no_text_style() {
    let before = TextStyle::default();
    let after = TextStyle::default().highlight(HighlightStyle::default(), &blend, &fade);
    assert_eq!(after.color, before.color);
    assert_eq!(after.font_family, before.font_family);
    assert_eq!(after.font_weight, before.font_weight);
    assert_eq!(after.font_style, before.font_style);
    assert_eq!(after.background_color, before.background_color);
    assert_eq!(after.underline, before.underline);
}

#[test]
fn highlight_layering_rules() {
    let red = hsla(0., 1., 0.5, 1.);
    let blue = hsla(0.6, 1., 0.5, 1.);
    let mut base = HighlightStyle {
        color: Some(red),
        font_weight: Some(FontWeight(300.0f32.to_bits())),
        fade_out: Some(0.5f32.to_bits()),
        ..Default::default()
    };
    base.highlight(
        HighlightStyle {
            color: Some(blue),
            font_style: Some(FontStyle::Italic),
            fade_out: Some(0.5f32.to_bits()),
            ..Default::default()
        },
        &blend,
        &mix,
    );
    assert_eq!(base.color, Some(red));
    assert_eq!(base.font_weight, Some(FontWeight(300.0f32.to_bits())));
    assert_eq!(base.font_style, Some(FontStyle::Italic));
    assert_eq!(base.fade_out, Some(0.75f32.to_bits()));

    let mut empty = HighlightStyle::default();
    empty.highlight(
        HighlightStyle { color: Some(blue), fade_out: Some(0.25f32.to_bits()), ..Default::default() },
        &blend,
        &mix,
    );
    assert_eq!(empty.color, Some(blue));
    assert_eq!(empty.fade_out, Some(0.25f32.to_bits()));

    let mut unchanged = base;
    unchanged.highlight(HighlightStyle::default(), &blend, &mix);
    assert_eq!(unchanged, base);
}

#[test]
fn highlight_from_values() {
    let red = hsla(0., 1., 0.5, 1.);
    assert_eq!(HighlightStyle::from(red), HighlightStyle { color: Some(red), ..Default::default() });
    let w = FontWeight(900.0f32.to_bits());
    assert_eq!(HighlightStyle::from(w), HighlightStyle { font_weight: Some(w), ..Default::default() });
    assert_eq!(
        HighlightStyle::from(FontStyle::Italic),
        HighlightStyle { font_style: Some(FontStyle::Italic), ..Default::default() }
    );
    let mut text = TextStyle::default();
    text.underline = Some(underline());
    let expected = HighlightStyle {
        color: Some(black()),
        font_weight: Some(FontWeight(400.0f32.to_bits())),
        font_style: Some(FontStyle::Normal),
        background_color: None,
        underline: Some(underline()),
        fade_out: None,
    };
    assert_eq!(HighlightStyle::from(&text), expected);
    assert_eq!(HighlightStyle::from(text), expected);
}

#[test]
fn refinement_is_some_when_a_field_is_set() {
    let mut refinement = TextStyleRefinement::default();
    assert!(!refinement.is_some());
    refinement.white_space = Some(WhiteSpace::Nowrap);
    assert!(refinement.is_some());
}

#[test]
fn highlight_equality_compares_floats() {
    let a = HighlightStyle { fade_out: Some(0.0f32.to_bits()), ..Default::default() };
    let b = HighlightStyle { fade_out: Some((-0.0f32).to_bits()), ..Default::default() };
    assert_eq!(a, b);
    let n = HighlightStyle { font_weight: Some(FontWeight(f32::NAN.to_bits())), ..Default::default() };
    assert_ne!(n, n);
    assert_ne!(a, HighlightStyle::default());
    let u = UnderlineStyle { thickness: Pixels(0), color: Some(hsla(0., 0., 0., 1.)), wavy: false };
    assert_eq!(u, UnderlineStyle { thickness: Pixels((-0.0f32).to_bits()), ..u });
    assert_ne!(u, UnderlineStyle { wavy: true, ..u });
}
