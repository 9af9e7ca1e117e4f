use gpui_style::color::Hsla;
use gpui_style::geometry::{AbsoluteLength, DefiniteLength, Edges, Length, Pixels, Point, Rems, Size};
use gpui_style::layout::{Display, FlexDirection, FlexWrap, Overflow, Position};
use gpui_style::geometry::Corners;
use gpui_style::style::{BoxShadow, BoxShadows, Fill, OverflowClip, PaintPlan, QuadPlan, Style, Visibility};
use gpui_style::text::FontStyle;

fn hsla(h: f32, s: f32, l: f32, a: f32) -> Hsla {
    Hsla { h: h.to_bits(), s: s.to_bits(), l: l.to_bits(), a: a.to_bits() }
}

fn px(v: f32) -> AbsoluteLength {
    AbsoluteLength::Pixels(Pixels(v.to_bits()))
}

#[test]
fn default_style() {
    let style = Style::default();
    assert_eq!(style.display, Display::Block);
    assert_eq!(style.visibility, Visibility::Visible);
    assert_eq!(style.overflow, Point { x: Overflow::Visible, y: Overflow::Visible });
    assert_eq!(style.position, Position::Relative);
    assert_eq!(style.inset.left, Length::Auto);
    assert_eq!(style.size, Size { width: Length::Auto, height: Length::Auto });
    let zero = DefiniteLength::Absolute(px(0.));
    assert_eq!(style.margin.top, Length::Definite(zero));
    assert_eq!(style.padding, Edges { top: zero, right: zero, bottom: zero, left: zero });
    assert_eq!(style.border_widths.bottom, px(0.));
    assert_eq!(style.gap, Size { width: zero, height: zero });
    assert_eq!(style.flex_direction, FlexDirection::Row);
    assert_eq!(style.flex_wrap, FlexWrap::NoWrap);
    assert_eq!(style.flex_grow, 0.0f32.to_bits());
    assert_eq!(style.flex_shrink, 1.0f32.to_bits());
    assert_eq!(style.flex_basis, Length::Auto);
    assert_eq!(style.corner_radii.top_left, px(0.));
    assert!(style.background.is_none());
    assert!(style.border_color.is_none());
    assert!(style.mouse_cursor.is_none());
    assert!(style.z_index.is_none());
    assert!(style.text_style().is_none());
    assert_eq!(Visibility::default(), Visibility::Visible);
}

#[test]
fn text_style_is_given_when_set() {
    let mut style = Style::default();
    style.text.font_style = Some(FontStyle::Italic);
    assert_eq!(style.text_style().unwrap().font_style, Some(FontStyle::Italic));
}

#[test]
fn border_visibility() {
    let mut style = Style::default();
    assert!(!style.is_border_visible());
    style.border_color = Some(hsla(0., 1., 0.5, 1.));
    assert!(!style.is_border_visible());
    style.border_widths.left = AbsoluteLength::Rems(Rems((-0.0f32).to_bits()));
    assert!(!style.is_border_visible());
    style.border_widths.left = px(2.);
    assert!(style.is_border_visible());
    style.border_color = Some(hsla(0., 1., 0.5, 0.));
    assert!(!style.is_border_visible());
}

#[test]
fn overflow_clipping() {
    let mut style = Style::default();
    assert_eq!(style.overflow_clip(), None);
    style.overflow.y = Overflow::Hidden;
    assert_eq!(style.overflow_clip(), Some(OverflowClip { inset_x: false, inset_y: false }));
    style.border_color = Some(hsla(0., 0., 0., 1.));
    // The vertical overflow is hidden: the horizontal extent is drawn in by the border.
    assert_eq!(style.overflow_clip(), Some(OverflowClip { inset_x: true, inset_y: false }));
    style.overflow.x = Overflow::Scroll;
    assert_eq!(style.overflow_clip(), Some(OverflowClip { inset_x: true, inset_y: true }));
    style.overflow.y = Overflow::Visible;
    assert_eq!(style.overflow_clip(), Some(OverflowClip { inset_x: false, inset_y: true }));
    style.border_color = Some(hsla(0., 0., 0., 0.));
    assert_eq!(style.overflow_clip(), Some(OverflowClip { inset_x: false, inset_y: false }));
}

#[test]
fn fills() {
    let c = hsla(0.2, 0.3, 0.4, 1.);
    assert_eq!(Fill::from(c), Fill::Color(c));
    assert_eq!(Fill::Color(c).color(), Some(c));
    assert_eq!(Fill::default().color(), Some(Hsla { h: 0, s: 0, l: 0, a: 0 }));
}

#[test]
fn zero_lengths() {
    assert!(px(0.).is_zero());
    assert!(px(-0.).is_zero());
    assert!(!px(0.5).is_zero());
    assert!(AbsoluteLength::Rems(Rems(0))
        .is_zero());
    assert!(!AbsoluteLength::Rems(Rems(1.0f32.to_bits())).is_zero());
}

#[test]
fn paint_plan_decisions() {
    let mut style = Style::default();
    let radius = px(3.);
    style.corner_radii = Corners { top_left: radius, top_right: radius, bottom_right: px(0.), bottom_left: px(0.) };
    let zero_edges = Edges { top: px(0.), right: px(0.), bottom: px(0.), left: px(0.) };
    assert_eq!(
        style.paint_plan(false),
        PaintPlan {
            mark_debug_below: false,
            outline: false,
            shadow_corner_radii: style.corner_radii,
            background: None,
            border: None
        }
    );
    assert!(style.paint_plan(true).outline);

    let c = hsla(0.2, 0.3, 0.4, 1.);
    let clear_c = Hsla { a: 0, ..c };
    style.background = Some(Fill::Color(c));
    assert_eq!(
        style.paint_plan(false).background,
        Some(QuadPlan { corner_radii: style.corner_radii, border_widths: zero_edges, fill: c, border: clear_c })
    );
    style.background = Some(Fill::Color(hsla(0.2, 0.3, 0.4, 0.)));
    assert_eq!(style.paint_plan(false).background, None);

    style.border_color = Some(c);
    assert_eq!(style.paint_plan(false).border, None);
    style.border_widths.top = px(1.);
    assert_eq!(
        style.paint_plan(false).border,
        Some(QuadPlan {
            corner_radii: style.corner_radii,
            border_widths: style.border_widths,
            fill: clear_c,
            border: c
        })
    );

    style.debug_below = true;
    let plan = style.paint_plan(false);
    assert!(plan.mark_debug_below);
    assert!(plan.outline);
}

#[test]
fn box_shadows_hold_what_they_are_given() {
    assert!(Style::default().box_shadow.as_slice().is_empty());
    let shadow = BoxShadow {
        color: hsla(0., 0., 0., 0.5),
        offset: Point { x: Pixels(1.0f32.to_bits()), y: Pixels(2.0f32.to_bits()) },
        blur_radius: Pixels(4.0f32.to_bits()),
        spread_radius: Pixels(0),
    };
    let other = BoxShadow { spread_radius: Pixels(1.0f32.to_bits()), ..shadow };
    let shadows = BoxShadows::from_vec(vec![shadow, other, shadow]);
    assert_eq!(shadows.as_slice(), &[shadow, other, shadow]);
    let mut style = Style::default();
    style.box_shadow = shadows;
    assert_eq!(style.box_shadow.as_slice().len(), 3);
}

#[test]
fn floats_compare_as_floats() {
    assert_eq!(Pixels(0.0f32.to_bits()), Pixels((-0.0f32).to_bits()));
    assert_ne!(Pixels(f32::NAN.to_bits()), Pixels(f32::NAN.to_bits()));
    assert_ne!(Pixels(1.0f32.to_bits()), Pixels(2.0f32.to_bits()));
    assert_eq!(hsla(0., 1., 0.5, 1.), hsla(-0., 1., 0.5, 1.));
    assert_ne!(hsla(f32::NAN, 1., 0.5, 1.), hsla(f32::NAN, 1., 0.5, 1.));
    assert_eq!(px(0.), px(-0.));
    assert_ne!(px(1.), AbsoluteLength::Rems(Rems(1.0f32.to_bits())));
    assert_eq!(DefiniteLength::Fraction(0.0f32.to_bits()), DefiniteLength::Fraction((-0.0f32).to_bits()));
    assert_ne!(DefiniteLength::Fraction(f32::NAN.to_bits()), DefiniteLength::Fraction(f32::NAN.to_bits()));
}
