use vstd::prelude::*;

use smallvec::SmallVec;

use crate::color::{Hsla, F32_ONE_BITS};
use crate::geometry::{
    length_bits, zero_absolute, zero_definite, AbsoluteLength, Corners, DefiniteLength, Edges, Length, Pixels, Point,
    Size,
};
use crate::layout::{
    AlignContent, AlignItems, AlignSelf, CursorStyle, Display, FlexDirection, FlexWrap, JustifyContent,
    Overflow, Position,
};
use crate::text::TextStyleRefinement;

verus! {

/// The box shadows of an element, kept inline up to two.
#[verifier::external_body]
#[derive(Debug)]
pub struct BoxShadows {
    inner: SmallVec<[BoxShadow; 2]>,
}

/// The shadows held, in order.
pub uninterp spec fn box_shadows(v: BoxShadows) -> Seq<BoxShadow>;

/// Makes an empty list with `SmallVec::new`, which holds no item.
#[verifier::external_body]
fn new_box_shadows() -> (v: BoxShadows)
    ensures
        box_shadows(v) == Seq::<BoxShadow>::empty(),
{
    BoxShadows { inner: SmallVec::new() }
}

/// Makes a list with `SmallVec::from_vec`, which holds the items of the
/// vector in their order.
#[verifier::external_body]
fn box_shadows_from_vec(shadows: Vec<BoxShadow>) -> (v: BoxShadows)
    ensures
        box_shadows(v) == shadows@,
{
    BoxShadows { inner: SmallVec::from_vec(shadows) }
}

/// `SmallVec::as_slice`: all the items held, in order.
#[verifier::external_body]
fn box_shadows_as_slice(v: &BoxShadows) -> (s: &[BoxShadow])
    ensures
        s@ == box_shadows(*v),
{
    v.inner.as_slice()
}

impl BoxShadows {
    /// A list of `shadows`, in their order.
    pub fn from_vec(shadows: Vec<BoxShadow>) -> (v: BoxShadows)
        ensures
            box_shadows(v) == shadows@,
    {
        box_shadows_from_vec(shadows)
    }

    /// The shadows held, in order.
    pub fn as_slice(&self) -> (s: &[BoxShadow])
        ensures
            s@ == box_shadows(*self),
    {
        box_shadows_as_slice(self)
    }
}

/// Marks, while painting, that the outlines of elements below are drawn.
#[derive(Clone, Copy, Debug, PartialEq, Eq)]
pub struct DebugBelow;

/// Whether an element is painted.
#[derive(Clone, Copy, Debug, PartialEq, Eq)]
pub enum Visibility {
    Visible,
    Hidden,
}

impl Default for Visibility {
    fn default() -> (r: Visibility)
        ensures
            r == Visibility::Visible,
    {
        Visibility::Visible
    }
}

/// A shadow drawn around an element's box.
#[derive(Clone, Copy, Debug, PartialEq)]
pub struct BoxShadow {
    pub color: Hsla,
    pub offset: Point<Pixels>,
    pub blur_radius: Pixels,
    pub spread_radius: Pixels,
}

/// How an element's background is filled.
#[derive(Clone, Copy, Debug, PartialEq)]
pub enum Fill {
    Color(Hsla),
}

impl Fill {
    /// The color of the fill.
    pub fn color(&self) -> (c: Option<Hsla>)
        ensures
            c == Some(match *self { Fill::Color(h) => h }),
    {
        match self {
            Fill::Color(color) => Some(*color),
        }
    }
}

impl Default for Fill {
    /// A fill with the color whose channels are all zero.
    fn default() -> (r: Fill)
        ensures
            r == Fill::Color(Hsla { h: 0, s: 0, l: 0, a: 0 }),
    {
        Fill::Color(Hsla { h: 0, s: 0, l: 0, a: 0 })
    }
}

impl From<Hsla> for Fill {
    fn from(color: Hsla) -> (r: Fill)
        ensures
            r == Fill::Color(color),
    {
        Fill::Color(color)
    }
}

impl vstd::std_specs::convert::FromSpecImpl<Hsla> for Fill {
    open spec fn obeys_from_spec() -> bool {
        true
    }

    open spec fn from_spec(v: Hsla) -> Fill {
        Fill::Color(v)
    }
}

/// The content mask of an element whose overflow is not visible on both
/// axes: the element's bounds, with the horizontal extent drawn in by the
/// left and right border widths when `inset_x`, and the vertical extent
/// drawn in by the top and bottom border widths when `inset_y`.
#[derive(Clone, Copy, Debug, PartialEq, Eq)]
pub struct OverflowClip {
    pub inset_x: bool,
    pub inset_y: bool,
}

/// The style of an element: its layout, box, background, border, shadows and text.
/// Floating-point properties hold the bit patterns of their `f32` values.
#[derive(Debug)]
pub struct Style {
    pub display: Display,
    pub visibility: Visibility,
    pub overflow: Point<Overflow>,
    pub scrollbar_width: u32,
    pub position: Position,
    pub inset: Edges<Length>,
    pub size: Size<Length>,
    pub min_size: Size<Length>,
    pub max_size: Size<Length>,
    pub aspect_ratio: Option<u32>,
    pub margin: Edges<Length>,
    pub padding: Edges<DefiniteLength>,
    pub border_widths: Edges<AbsoluteLength>,
    pub align_items: Option<AlignItems>,
    pub align_self: Option<AlignSelf>,
    pub align_content: Option<AlignContent>,
    pub justify_content: Option<JustifyContent>,
    pub gap: Size<DefiniteLength>,
    pub flex_direction: FlexDirection,
    pub flex_wrap: FlexWrap,
    pub flex_basis: Length,
    pub flex_grow: u32,
    pub flex_shrink: u32,
    pub background: Option<Fill>,
    pub border_color: Option<Hsla>,
    pub corner_radii: Corners<AbsoluteLength>,
    pub box_shadow: BoxShadows,
    pub text: TextStyleRefinement,
    pub mouse_cursor: Option<CursorStyle>,
    pub z_index: Option<u8>,
    pub debug: bool,
    pub debug_below: bool,
}

impl Default for Style {
    /// A block element that takes its size from the layout, with visible
    /// overflow, no margin, padding, border, background or shadow, square
    /// corners, no text refinement, and flex items that do not grow, shrink
    /// by a factor of one, and do not wrap.
    fn default() -> (r: Style)
        ensures
            r.display == Display::Block,
            r.visibility == Visibility::Visible,
            r.overflow == (Point { x: Overflow::Visible, y: Overflow::Visible }),
            r.scrollbar_width == 0,
            r.position == Position::Relative,
            r.inset == (Edges { top: Length::Auto, right: Length::Auto, bottom: Length::Auto, left: Length::Auto }),
            r.margin == (Edges {
                top: Length::Definite(zero_definite()),
                right: Length::Definite(zero_definite()),
                bottom: Length::Definite(zero_definite()),
                left: Length::Definite(zero_definite()),
            }),
            r.padding == (Edges { top: zero_definite(), right: zero_definite(), bottom: zero_definite(), left: zero_definite() }),
            r.border_widths == (Edges {
                top: zero_absolute(),
                right: zero_absolute(),
                bottom: zero_absolute(),
                left: zero_absolute(),
            }),
            r.size == (Size { width: Length::Auto, height: Length::Auto }),
            r.min_size == (Size { width: Length::Auto, height: Length::Auto }),
            r.max_size == (Size { width: Length::Auto, height: Length::Auto }),
            r.aspect_ratio is None,
            r.gap == (Size { width: zero_definite(), height: zero_definite() }),
            r.align_items is None,
            r.align_self is None,
            r.align_content is None,
            r.justify_content is None,
            r.flex_direction == FlexDirection::Row,
            r.flex_wrap == FlexWrap::NoWrap,
            r.flex_grow == 0,
            r.flex_shrink == F32_ONE_BITS,
            r.flex_basis == Length::Auto,
            r.background is None,
            r.border_color is None,
            r.corner_radii == (Corners {
                top_left: zero_absolute(),
                top_right: zero_absolute(),
                bottom_right: zero_absolute(),
                bottom_left: zero_absolute(),
            }),
            box_shadows(r.box_shadow) == Seq::<BoxShadow>::empty(),
            !r.text.spec_is_some(),
            r.mouse_cursor is None,
            r.z_index is None,
            !r.debug,
            !r.debug_below,
    {
        Style {
            display: Display::Block,
            visibility: Visibility::Visible,
            overflow: Point { x: Overflow::Visible, y: Overflow::Visible },
            scrollbar_width: 0,
            position: Position::Relative,
            inset: Edges::<Length>::auto(),
            margin: Edges::<Length>::zero(),
            padding: Edges::<DefiniteLength>::zero(),
            border_widths: Edges::<AbsoluteLength>::zero(),
            size: Size::<Length>::auto(),
            min_size: Size::<Length>::auto(),
            max_size: Size::<Length>::auto(),
            aspect_ratio: None,
            gap: Size::<DefiniteLength>::zero(),
            align_items: None,
            align_self: None,
            align_content: None,
            justify_content: None,
            flex_direction: FlexDirection::Row,
            flex_wrap: FlexWrap::NoWrap,
            flex_grow: 0,
            flex_shrink: F32_ONE_BITS,
            flex_basis: Length::Auto,
            background: None,
            border_color: None,
            corner_radii: Corners::<AbsoluteLength>::zero(),
            box_shadow: new_box_shadows(),
            text: TextStyleRefinement::default(),
            mouse_cursor: None,
            z_index: None,
            debug: false,
            debug_below: false,
        }
    }
}

/// A quad drawn over an element's bounds: the radii of its corners, the
/// widths of its edges, the color that fills it and the color of its edges.
#[derive(Clone, Copy, Debug, PartialEq)]
pub struct QuadPlan {
    pub corner_radii: Corners<AbsoluteLength>,
    pub border_widths: Edges<AbsoluteLength>,
    pub fill: Hsla,
    pub border: Hsla,
}

/// What painting an element involves besides its content (layer 2): whether
/// the marker for outlining the elements below is set while it paints,
/// whether its outline is drawn, the corner radii of its shadows (layer 0),
/// and the quad of its background (layer 1) and of its border (layer 3), if
/// any. The border quad is drawn four times, each time clipped to the band
/// of one side (top, right, bottom, left), as wide as the widest border or
/// corner radius.
#[derive(Clone, Copy, Debug, PartialEq)]
pub struct PaintPlan {
    pub mark_debug_below: bool,
    pub outline: bool,
    pub shadow_corner_radii: Corners<AbsoluteLength>,
    pub background: Option<QuadPlan>,
    pub border: Option<QuadPlan>,
}

/// Edges of zero pixels on every side.
pub open spec fn zero_edges() -> Edges<AbsoluteLength> {
    Edges { top: zero_absolute(), right: zero_absolute(), bottom: zero_absolute(), left: zero_absolute() }
}

/// `c` with its alpha set to zero.
pub open spec fn clear(c: Hsla) -> Hsla {
    Hsla { a: 0, ..c }
}

/// The overflow of both axes is visible.
pub open spec fn overflow_all_visible(o: Point<Overflow>) -> bool {
    o.x == Overflow::Visible && o.y == Overflow::Visible
}

impl Style {
    /// The border is drawn: it has a color that is not transparent and some
    /// side of non-zero width.
    pub open spec fn spec_is_border_visible(&self) -> bool {
        &&& self.border_color matches Some(c) && !c.spec_is_transparent()
        &&& self.border_widths.spec_any_nonzero()
    }

    pub fn is_border_visible(&self) -> (r: bool)
        ensures
            r == self.spec_is_border_visible(),
    {
        let colored = match self.border_color {
            Some(color) => !color.is_transparent(),
            None => false,
        };
        colored && self.border_widths.any_nonzero()
    }

    /// The decisions of painting this element. `debug_below_marked` tells
    /// whether an element above has set the marker for outlining the
    /// elements below it.
    ///
    /// The shadows take the style's corner radii. The background is painted
    /// when the fill has a color that is not transparent, as a quad with the
    /// style's corner radii, edges of zero width, that color as fill and
    /// that color made clear as edge. The border is painted when it is
    /// visible, as a quad with the style's corner radii and border widths,
    /// the border color made clear as fill and the border color as edge.
    pub fn paint_plan(&self, debug_below_marked: bool) -> (r: PaintPlan)
        ensures
            r.mark_debug_below == self.debug_below,
            r.outline == (self.debug || self.debug_below || debug_below_marked),
            r.shadow_corner_radii == self.corner_radii,
            r.background == (match self.background {
                Some(Fill::Color(c)) => if c.spec_is_transparent() {
                    None
                } else {
                    Some(
                        QuadPlan {
                            corner_radii: self.corner_radii,
                            border_widths: zero_edges(),
                            fill: c,
                            border: clear(c),
                        },
                    )
                },
                None => None,
            }),
            r.border == (if self.spec_is_border_visible() {
                Some(
                    QuadPlan {
                        corner_radii: self.corner_radii,
                        border_widths: self.border_widths,
                        fill: clear(self.border_color.unwrap()),
                        border: self.border_color.unwrap(),
                    },
                )
            } else {
                None
            }),
    {
        let background_color = match &self.background {
            Some(fill) => fill.color(),
            None => None,
        };
        let background = match background_color {
            Some(color) => if color.is_transparent() {
                None
            } else {
                Some(
                    QuadPlan {
                        corner_radii: self.corner_radii,
                        border_widths: Edges::<AbsoluteLength>::zero(),
                        fill: color,
                        border: Hsla { a: 0, ..color },
                    },
                )
            },
            None => None,
        };
        let border = if self.is_border_visible() {
            let color = match self.border_color {
                Some(c) => c,
                None => Hsla { h: 0, s: 0, l: 0, a: 0 },
            };
            Some(
                QuadPlan {
                    corner_radii: self.corner_radii,
                    border_widths: self.border_widths,
                    fill: Hsla { a: 0, ..color },
                    border: color,
                },
            )
        } else {
            None
        };
        PaintPlan {
            mark_debug_below: self.debug_below,
            outline: self.debug || self.debug_below || debug_below_marked,
            shadow_corner_radii: self.corner_radii,
            background,
            border,
        }
    }

    /// The text refinement of this style, if it sets anything.
    pub fn text_style(&self) -> (r: Option<&TextStyleRefinement>)
        ensures
            r == (if self.text.spec_is_some() { Some(&self.text) } else { None }),
    {
        if self.text.is_some() {
            Some(&self.text)
        } else {
            None
        }
    }

    /// The content mask of this element: none when the overflow of both axes
    /// is visible. Otherwise, when the border has a color that is not
    /// transparent, the horizontal extent of the bounds is drawn in by the
    /// border when the vertical overflow is not visible, and the vertical
    /// extent when the horizontal overflow is not visible; without such a
    /// border the mask is the bounds.
    pub fn overflow_clip(&self) -> (r: Option<OverflowClip>)
        ensures
            r is None <==> overflow_all_visible(self.overflow),
            r matches Some(c) ==> {
                &&& c.inset_x == (self.border_color matches Some(col) && !col.spec_is_transparent()
                    && self.overflow.y != Overflow::Visible)
                &&& c.inset_y == (self.border_color matches Some(col) && !col.spec_is_transparent()
                    && self.overflow.x != Overflow::Visible)
            },
    {
        let x_visible = match self.overflow.x {
            Overflow::Visible => true,
            _ => false,
        };
        let y_visible = match self.overflow.y {
            Overflow::Visible => true,
            _ => false,
        };
        if x_visible && y_visible {
            return None;
        }
        let inside_border = match self.border_color {
            Some(color) => !color.is_transparent(),
            None => false,
        };
        Some(OverflowClip { inset_x: inside_border && !y_visible, inset_y: inside_border && !x_visible })
    }
}

/// The border of an element is visible, and painted, exactly when it has a
/// color whose alpha is not zero and a width other than zero on at least
/// one side, whichever side that is: a border on the bottom only, as a
/// divider has, is visible.
pub proof fn lemma_border_visible_exactly(s: Style)
    ensures
        s.spec_is_border_visible() <==> (s.border_color matches Some(c) && c.a != 0 && c.a != 0x8000_0000
            && {
            let e = s.border_widths;
            ||| length_bits(e.top) != 0 && length_bits(e.top) != 0x8000_0000
            ||| length_bits(e.right) != 0 && length_bits(e.right) != 0x8000_0000
            ||| length_bits(e.bottom) != 0 && length_bits(e.bottom) != 0x8000_0000
            ||| length_bits(e.left) != 0 && length_bits(e.left) != 0x8000_0000
        }),
{
}

/// The content mask of an element is drawn in by its border exactly when
/// the border has a color whose alpha is not zero, however small: the
/// horizontal extent when the vertical overflow is not visible, the vertical
/// extent when the horizontal overflow is not visible.
pub proof fn lemma_border_colored_iff(s: Style)
    ensures
        (s.border_color matches Some(col) && !col.spec_is_transparent()) <==> (s.border_color matches Some(
            col,
        ) && col.a != 0 && col.a != 0x8000_0000),
{
}

} // verus!
