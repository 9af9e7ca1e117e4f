use std::ops::Range;

use gpui_style::color::Hsla;
use gpui_style::highlights::{combine_highlights, highlight_segments};
use gpui_style::text::{FontStyle, FontWeight, HighlightStyle};

fn hsla(h: f32, s: f32, l: f32, a: f32) -> Hsla {
    Hsla { h: h.to_bits(), s: s.to_bits(), l: l.to_bits(), a: a.to_bits() }
}

fn red() -> Hsla {
    hsla(0., 1., 0.5, 1.)
}

fn green() -> Hsla {
    hsla(0.33, 1., 0.5, 1.)
}

fn blue() -> Hsla {
    hsla(0.6, 1., 0.5, 1.)
}

fn yellow() -> Hsla {
    hsla(0.16, 1., 0.5, 1.)
}

fn bold() -> FontWeight {
    FontWeight(700.0f32.to_bits())
}

/// Draws `top` over `bottom`; enough for opaque and fully transparent colors.
fn blend(bottom: Hsla, top: Hsla) -> Hsla {
    let alpha = f32::from_bits(top.a);
    if alpha >= 1.0 {
        top
    } else if alpha <= 0.0 {
        bottom
    } else {
        panic!("translucent colors are not blended in these tests")
    }
}

fn mix(source: u32, dest: u32) -> u32 {
    let s = f32::from_bits(source);
    let d = f32::from_bits(dest);
    (d * (1. + s)).clamp(0., 1.).to_bits()
}

fn only_color(c: Hsla) -> HighlightStyle {
    HighlightStyle { color: Some(c), ..HighlightStyle::default() }
}

#[test]
fn test_combine_highlights() {
    let a: Vec<(Range<usize>, HighlightStyle)> =
        vec![(0..5, green().into()), (4..10, bold().into()), (15..20, yellow().into())];
    let b: Vec<(Range<usize>, HighlightStyle)> =
        vec![(2..6, FontStyle::Italic.into()), (1..3, blue().into()), (21..23, red().into())];
    assert_eq!(
        combine_highlights(a, b, &blend, &mix),
        [
            (0..1, HighlightStyle { color: Some(green()), ..Default::default() }),
            (1..2, HighlightStyle { color: Some(green()), ..Default::default() }),
            (
                2..3,
                HighlightStyle {
                    color: Some(green()),
                    font_style: Some(FontStyle::Italic),
                    ..Default::default()
                }
            ),
            (
                3..4,
                HighlightStyle {
                    color: Some(green()),
                    font_style: Some(FontStyle::Italic),
                    ..Default::default()
                }
            ),
            (
                4..5,
                HighlightStyle {
                    color: Some(green()),
                    font_weight: Some(bold()),
                    font_style: Some(FontStyle::Italic),
                    ..Default::default()
                }
            ),
            (
                5..6,
                HighlightStyle {
                    font_weight: Some(bold()),
                    font_style: Some(FontStyle::Italic),
                    ..Default::default()
                }
            ),
            (6..10, HighlightStyle { font_weight: Some(bold()), ..Default::default() }),
            (15..20, HighlightStyle { color: Some(yellow()), ..Default::default() }),
            (21..23, HighlightStyle { color: Some(red()), ..Default::default() }),
        ]
    );
}

#[test]
fn segments_of_nothing_are_empty() {
    let ranges: Vec<Range<usize>> = vec![];
    assert!(highlight_segments(&ranges).is_empty());
}

#[test]
fn empty_ranges_hold_nothing() {
    let ranges: Vec<Range<usize>> = vec![3..3, 7..2];
    assert!(highlight_segments(&ranges).is_empty());
    let ranges: Vec<Range<usize>> = vec![3..3, 1..5];
    assert_eq!(highlight_segments(&ranges), vec![(1..5, vec![1])]);
}

#[test]
fn segments_are_cut_at_every_boundary() {
    let ranges: Vec<Range<usize>> = vec![0..10, 2..4, 2..6, 20..30];
    assert_eq!(
        highlight_segments(&ranges),
        vec![
            (0..2, vec![0]),
            (2..4, vec![0, 1, 2]),
            (4..6, vec![0, 2]),
            (6..10, vec![0]),
            (20..30, vec![3]),
        ]
    );
}

#[test]
fn touching_ranges_are_not_merged() {
    let ranges: Vec<Range<usize>> = vec![5..8, 0..5];
    assert_eq!(highlight_segments(&ranges), vec![(0..5, vec![1]), (5..8, vec![0])]);
}

#[test]
fn a_single_highlight_keeps_its_style() {
    let style = HighlightStyle {
        color: Some(red()),
        font_weight: Some(bold()),
        font_style: Some(FontStyle::Oblique),
        background_color: Some(blue()),
        underline: None,
        fade_out: Some(0.25f32.to_bits()),
    };
    assert_eq!(combine_highlights(vec![(4..9, style)], vec![], &blend, &mix), vec![(4..9, style)]);
}

#[test]
fn earlier_highlights_are_drawn_over_later_ones() {
    let out = combine_highlights(vec![(0..2, only_color(red()))], vec![(0..2, only_color(blue()))], &blend, &mix);
    assert_eq!(out, vec![(0..2, only_color(red()))]);
    let clear = hsla(0.6, 1., 0.5, 0.);
    let out = combine_highlights(vec![(0..2, only_color(clear))], vec![(0..2, only_color(blue()))], &blend, &mix);
    assert_eq!(out, vec![(0..2, only_color(blue()))]);
}

#[test]
fn fades_are_mixed_when_layered() {
    let a = HighlightStyle { fade_out: Some(0.5f32.to_bits()), ..Default::default() };
    let b = HighlightStyle { fade_out: Some(0.5f32.to_bits()), ..Default::default() };
    let out = combine_highlights(vec![(0..1, a)], vec![(0..1, b)], &blend, &mix);
    assert_eq!(out, vec![(0..1, HighlightStyle { fade_out: Some(0.75f32.to_bits()), ..Default::default() })]);
}

#[test]
fn empty_and_reversed_highlights_change_nothing() {
    let a: Vec<(Range<usize>, HighlightStyle)> = vec![(0..5, only_color(green())), (3..8, only_color(blue()))];
    let expected = combine_highlights(a.clone(), vec![], &blend, &mix);
    let a2: Vec<(Range<usize>, HighlightStyle)> = vec![
        (5..5, only_color(red())),
        (0..5, only_color(green())),
        (7..3, only_color(yellow())),
        (3..8, only_color(blue())),
    ];
    assert_eq!(combine_highlights(a2, vec![(2..2, only_color(red()))], &blend, &mix), expected);
}

#[test]
fn disjoint_highlights_come_back_sorted() {
    let x = only_color(red());
    let y = HighlightStyle { font_style: Some(FontStyle::Italic), ..Default::default() };
    let z = only_color(blue());
    let out = combine_highlights(vec![(5..8, x), (0..5, y), (9..9, z)], vec![], &blend, &mix);
    assert_eq!(out, vec![(0..5, y), (5..8, x)]);
}
