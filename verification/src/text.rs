use vstd::prelude::*;

use crate::color::{black, f32_bits_eq, f32_bits_same, hsla_same, Hsla, F32_ONE_BITS};
use crate::geometry::{AbsoluteLength, DefiniteLength, Pixels, Rems};

verus! {

/// The bit pattern of the `f32` weight of regular text, `400.0`.
pub const FONT_WEIGHT_NORMAL_BITS: u32 = 0x43c8_0000;

/// The bit pattern of the golden ratio as an `f32`, the default line height factor.
pub const PHI_BITS: u32 = 0x3fcf_1bbd;

/// The weight of a font, held as the bit pattern of an `f32`, and compared
/// as that `f32`.
#[derive(Clone, Copy, Debug)]
pub struct FontWeight(pub u32);

impl PartialEq for FontWeight {
    fn eq(&self, other: &FontWeight) -> (r: bool) {
        f32_bits_eq(self.0, other.0)
    }
}

impl vstd::std_specs::cmp::PartialEqSpecImpl for FontWeight {
    open spec fn obeys_eq_spec() -> bool {
        true
    }

    open spec fn eq_spec(&self, other: &FontWeight) -> bool {
        f32_bits_same(self.0, other.0)
    }
}

/// Both are absent, or both are present and `same` holds of them.
pub open spec fn opt_same<T>(x: Option<T>, y: Option<T>, same: spec_fn(T, T) -> bool) -> bool {
    match (x, y) {
        (None, None) => true,
        (Some(a), Some(b)) => same(a, b),
        _ => false,
    }
}

/// Compares two optional colors as `==` on `Option<Hsla>` does.
fn opt_hsla_eq(x: Option<Hsla>, y: Option<Hsla>) -> (r: bool)
    ensures
        r == opt_same(x, y, |a: Hsla, b: Hsla| hsla_same(a, b)),
{
    match (x, y) {
        (None, None) => true,
        (Some(a), Some(b)) => a == b,
        _ => false,
    }
}

/// Compares two optional `f32` bit patterns as `==` on `Option<f32>` does.
fn opt_f32_bits_eq(x: Option<u32>, y: Option<u32>) -> (r: bool)
    ensures
        r == opt_same(x, y, |a: u32, b: u32| f32_bits_same(a, b)),
{
    match (x, y) {
        (None, None) => true,
        (Some(a), Some(b)) => f32_bits_eq(a, b),
        _ => false,
    }
}

impl FontWeight {
    /// The weight of regular text.
    pub fn normal() -> (r: FontWeight)
        ensures
            r == FontWeight(FONT_WEIGHT_NORMAL_BITS),
    {
        FontWeight(FONT_WEIGHT_NORMAL_BITS)
    }
}

/// The slant of a font.
#[derive(Clone, Copy, Debug, PartialEq, Eq)]
pub enum FontStyle {
    Normal,
    Italic,
    Oblique,
}

/// The OpenType features that are switched on and off, one bit per feature.
#[derive(Clone, Copy, Debug, PartialEq, Eq)]
pub struct FontFeatures {
    pub enabled: u64,
    pub disabled: u64,
}

impl Default for FontFeatures {
    /// No feature switched on or off.
    fn default() -> (r: FontFeatures)
        ensures
            r == no_font_features(),
    {
        FontFeatures { enabled: 0, disabled: 0 }
    }
}

/// No feature switched on or off.
pub open spec fn no_font_features() -> FontFeatures {
    FontFeatures { enabled: 0, disabled: 0 }
}

/// A font, as the text system looks it up.
#[derive(Clone, Debug)]
pub struct Font {
    pub family: String,
    pub features: FontFeatures,
    pub weight: FontWeight,
    pub style: FontStyle,
}

/// How an underline is drawn.
#[derive(Clone, Copy, Debug, Default)]
pub struct UnderlineStyle {
    pub thickness: Pixels,
    pub color: Option<Hsla>,
    pub wavy: bool,
}

/// Two underlines compare equal field by field, their floats as `f32`s.
pub open spec fn underline_same(x: UnderlineStyle, y: UnderlineStyle) -> bool {
    &&& f32_bits_same(x.thickness.0, y.thickness.0)
    &&& opt_same(x.color, y.color, |a: Hsla, b: Hsla| hsla_same(a, b))
    &&& x.wavy == y.wavy
}

impl PartialEq for UnderlineStyle {
    fn eq(&self, other: &UnderlineStyle) -> (r: bool) {
        f32_bits_eq(self.thickness.0, other.thickness.0) && opt_hsla_eq(self.color, other.color)
            && self.wavy == other.wavy
    }
}

impl vstd::std_specs::cmp::PartialEqSpecImpl for UnderlineStyle {
    open spec fn obeys_eq_spec() -> bool {
        true
    }

    open spec fn eq_spec(&self, other: &UnderlineStyle) -> bool {
        underline_same(*self, *other)
    }
}

/// Whether text wraps at white space.
#[derive(Clone, Copy, Debug, PartialEq, Eq)]
pub enum WhiteSpace {
    Normal,
    Nowrap,
}

/// A run of `len` bytes of text drawn in one style.
#[derive(Clone, Debug)]
pub struct TextRun {
    pub len: usize,
    pub font: Font,
    pub color: Hsla,
    pub background_color: Option<Hsla>,
    pub underline: Option<UnderlineStyle>,
}

/// The complete style of a piece of text.
#[derive(Clone, Debug)]
pub struct TextStyle {
    pub color: Hsla,
    pub font_family: String,
    pub font_features: FontFeatures,
    pub font_size: AbsoluteLength,
    pub line_height: DefiniteLength,
    pub font_weight: FontWeight,
    pub font_style: FontStyle,
    pub background_color: Option<Hsla>,
    pub underline: Option<UnderlineStyle>,
    pub white_space: WhiteSpace,
}

/// A partial text style: each field that is set overrides the one of a full style.
#[derive(Clone, Debug)]
pub struct TextStyleRefinement {
    pub color: Option<Hsla>,
    pub font_family: Option<String>,
    pub font_features: Option<FontFeatures>,
    pub font_size: Option<AbsoluteLength>,
    pub line_height: Option<DefiniteLength>,
    pub font_weight: Option<FontWeight>,
    pub font_style: Option<FontStyle>,
    pub background_color: Option<Hsla>,
    pub underline: Option<UnderlineStyle>,
    pub white_space: Option<WhiteSpace>,
}

impl Default for TextStyleRefinement {
    /// The refinement that sets nothing.
    fn default() -> (r: TextStyleRefinement)
        ensures
            !r.spec_is_some(),
    {
        TextStyleRefinement {
            color: None,
            font_family: None,
            font_features: None,
            font_size: None,
            line_height: None,
            font_weight: None,
            font_style: None,
            background_color: None,
            underline: None,
            white_space: None,
        }
    }
}

impl TextStyleRefinement {
    /// Some field is set.
    pub open spec fn spec_is_some(&self) -> bool {
        ||| self.color is Some
        ||| self.font_family is Some
        ||| self.font_features is Some
        ||| self.font_size is Some
        ||| self.line_height is Some
        ||| self.font_weight is Some
        ||| self.font_style is Some
        ||| self.background_color is Some
        ||| self.underline is Some
        ||| self.white_space is Some
    }

    pub fn is_some(&self) -> (r: bool)
        ensures
            r == self.spec_is_some(),
    {
        self.color.is_some() || self.font_family.is_some() || self.font_features.is_some()
            || self.font_size.is_some() || self.line_height.is_some() || self.font_weight.is_some()
            || self.font_style.is_some() || self.background_color.is_some()
            || self.underline.is_some() || self.white_space.is_some()
    }
}

/// A set of text style changes that can be layered over a text style or
/// over one another. The fade (`fade_out`) is the bit pattern of an `f32`
/// fraction in `0.0..=1.0`.
#[derive(Clone, Copy, Debug)]
pub struct HighlightStyle {
    pub color: Option<Hsla>,
    pub font_weight: Option<FontWeight>,
    pub font_style: Option<FontStyle>,
    pub background_color: Option<Hsla>,
    pub underline: Option<UnderlineStyle>,
    pub fade_out: Option<u32>,
}

/// Two highlights compare equal field by field, their floats as `f32`s.
pub open spec fn highlight_same(x: HighlightStyle, y: HighlightStyle) -> bool {
    &&& opt_same(x.color, y.color, |a: Hsla, b: Hsla| hsla_same(a, b))
    &&& opt_same(x.font_weight, y.font_weight, |a: FontWeight, b: FontWeight| f32_bits_same(a.0, b.0))
    &&& x.font_style == y.font_style
    &&& opt_same(x.background_color, y.background_color, |a: Hsla, b: Hsla| hsla_same(a, b))
    &&& opt_same(x.underline, y.underline, |a: UnderlineStyle, b: UnderlineStyle| underline_same(a, b))
    &&& opt_same(x.fade_out, y.fade_out, |a: u32, b: u32| f32_bits_same(a, b))
}

impl PartialEq for HighlightStyle {
    fn eq(&self, other: &HighlightStyle) -> (r: bool) {
        let weight = match (self.font_weight, other.font_weight) {
            (None, None) => true,
            (Some(a), Some(b)) => f32_bits_eq(a.0, b.0),
            _ => false,
        };
        let style = match (self.font_style, other.font_style) {
            (None, None) => true,
            (Some(FontStyle::Normal), Some(FontStyle::Normal)) => true,
            (Some(FontStyle::Italic), Some(FontStyle::Italic)) => true,
            (Some(FontStyle::Oblique), Some(FontStyle::Oblique)) => true,
            _ => false,
        };
        let underline = match (self.underline, other.underline) {
            (None, None) => true,
            (Some(a), Some(b)) => a == b,
            _ => false,
        };
        opt_hsla_eq(self.color, other.color) && weight && style && opt_hsla_eq(
            self.background_color,
            other.background_color,
        ) && underline && opt_f32_bits_eq(self.fade_out, other.fade_out)
    }
}

impl vstd::std_specs::cmp::PartialEqSpecImpl for HighlightStyle {
    open spec fn obeys_eq_spec() -> bool {
        true
    }

    open spec fn eq_spec(&self, other: &HighlightStyle) -> bool {
        highlight_same(*self, *other)
    }
}

impl Eq for HighlightStyle {
}

/// The highlight that changes nothing.
pub open spec fn empty_highlight() -> HighlightStyle {
    HighlightStyle {
        color: None,
        font_weight: None,
        font_style: None,
        background_color: None,
        underline: None,
        fade_out: None,
    }
}

/// `over` where it is set, else `under`.
pub open spec fn override_with<T>(under: Option<T>, over: Option<T>) -> Option<T> {
    if over is Some {
        over
    } else {
        under
    }
}

/// `result` is what layering `other` over `base` gives, where `blend(a, b)`
/// draws `b` over `a`, and `mix(source, dest)` combines two fades.
///
/// - Two colors are blended, the earlier one drawn over the newer one;
///   a color on one side only is kept.
/// - Weight, style, background and underline of `other` replace those of `base` where set.
/// - Two fades are mixed; a fade on one side only is kept.
pub open spec fn layered<B, M>(
    base: HighlightStyle,
    other: HighlightStyle,
    result: HighlightStyle,
    blend: B,
    mix: M,
) -> bool where B: Fn(Hsla, Hsla) -> Hsla, M: Fn(u32, u32) -> u32 {
    &&& match (base.color, other.color) {
        (Some(b), Some(o)) => result.color matches Some(c) && blend.ensures((o, b), c),
        (None, Some(o)) => result.color == Some(o),
        _ => result.color == base.color,
    }
    &&& result.font_weight == override_with(base.font_weight, other.font_weight)
    &&& result.font_style == override_with(base.font_style, other.font_style)
    &&& result.background_color == override_with(base.background_color, other.background_color)
    &&& result.underline == override_with(base.underline, other.underline)
    &&& match (other.fade_out, base.fade_out) {
        (Some(s), Some(d)) => result.fade_out matches Some(f) && mix.ensures((s, d), f),
        (Some(s), None) => result.fade_out == Some(s),
        _ => result.fade_out == base.fade_out,
    }
}

/// `chain` lists the styles met while layering `styles` one by one over `base`.
pub open spec fn is_layer_chain<B, M>(
    base: HighlightStyle,
    styles: Seq<HighlightStyle>,
    chain: Seq<HighlightStyle>,
    blend: B,
    mix: M,
) -> bool where B: Fn(Hsla, Hsla) -> Hsla, M: Fn(u32, u32) -> u32 {
    &&& chain.len() == styles.len() + 1
    &&& chain[0] == base
    &&& forall|k: int|
        0 <= k < styles.len() ==> #[trigger] layered(chain[k], styles[k], chain[k + 1], blend, mix)
}

/// `result` is what layering `styles`, in order, over `base` gives.
pub open spec fn layers_to<B, M>(
    base: HighlightStyle,
    styles: Seq<HighlightStyle>,
    result: HighlightStyle,
    blend: B,
    mix: M,
) -> bool where B: Fn(Hsla, Hsla) -> Hsla, M: Fn(u32, u32) -> u32 {
    exists|chain: Seq<HighlightStyle>|
        #[trigger] is_layer_chain(base, styles, chain, blend, mix) && chain.last() == result
}

impl Default for HighlightStyle {
    /// The highlight that changes nothing.
    fn default() -> (r: HighlightStyle)
        ensures
            r == empty_highlight(),
    {
        HighlightStyle {
            color: None,
            font_weight: None,
            font_style: None,
            background_color: None,
            underline: None,
            fade_out: None,
        }
    }
}

impl HighlightStyle {
    /// Layers `other` over this highlight. The caller supplies the color
    /// arithmetic: `blend(a, b)` draws `b` over `a`, and `mix(source, dest)`
    /// gives the fade of `dest` faded by `source`, clamped to `0.0..=1.0`.
    pub fn highlight<B, M>(&mut self, other: HighlightStyle, blend: &B, mix: &M)
        where B: Fn(Hsla, Hsla) -> Hsla, M: Fn(u32, u32) -> u32,
        requires
            forall|a: Hsla, b: Hsla| blend.requires((a, b)),
            forall|s: u32, d: u32| mix.requires((s, d)),
        ensures
            layered(*old(self), other, *final(self), *blend, *mix),
    {
        match (self.color, other.color) {
            (Some(self_color), Some(other_color)) => {
                self.color = Some(blend(other_color, self_color));
            },
            (None, Some(other_color)) => {
                self.color = Some(other_color);
            },
            _ => {},
        }
        if other.font_weight.is_some() {
            self.font_weight = other.font_weight;
        }
        if other.font_style.is_some() {
            self.font_style = other.font_style;
        }
        if other.background_color.is_some() {
            self.background_color = other.background_color;
        }
        if other.underline.is_some() {
            self.underline = other.underline;
        }
        match (other.fade_out, self.fade_out) {
            (Some(source_fade), None) => {
                self.fade_out = Some(source_fade);
            },
            (Some(source_fade), Some(dest_fade)) => {
                self.fade_out = Some(mix(source_fade, dest_fade));
            },
            _ => {},
        }
    }
}

/// Layering the highlight that changes nothing over a highlight leaves it as it was.
pub proof fn lemma_layer_empty_over<B, M>(base: HighlightStyle, result: HighlightStyle, blend: B, mix: M)
    where B: Fn(Hsla, Hsla) -> Hsla, M: Fn(u32, u32) -> u32,
    requires
        layered(base, empty_highlight(), result, blend, mix),
    ensures
        result == base,
{
}

/// Layering a highlight over the highlight that changes nothing gives that highlight.
pub proof fn lemma_layer_over_empty<B, M>(other: HighlightStyle, result: HighlightStyle, blend: B, mix: M)
    where B: Fn(Hsla, Hsla) -> Hsla, M: Fn(u32, u32) -> u32,
    requires
        layered(empty_highlight(), other, result, blend, mix),
    ensures
        result == other,
{
}

/// Layering a single highlight over the highlight that changes nothing gives that highlight.
pub proof fn lemma_layers_single<B, M>(style: HighlightStyle, result: HighlightStyle, blend: B, mix: M)
    where B: Fn(Hsla, Hsla) -> Hsla, M: Fn(u32, u32) -> u32,
    requires
        layers_to(empty_highlight(), seq![style], result, blend, mix),
    ensures
        result == style,
{
    let chain = choose|chain: Seq<HighlightStyle>|
        #[trigger] is_layer_chain(empty_highlight(), seq![style], chain, blend, mix) && chain.last() == result;
    assert(layered(chain[0], seq![style][0], chain[1], blend, mix));
}

/// The highlight that sets the color, weight, slant, background and underline of `t`.
pub open spec fn highlight_of_text(t: TextStyle) -> HighlightStyle {
    HighlightStyle {
        color: Some(t.color),
        font_weight: Some(t.font_weight),
        font_style: Some(t.font_style),
        background_color: t.background_color,
        underline: t.underline,
        fade_out: None,
    }
}

impl From<&TextStyle> for HighlightStyle {
    fn from(other: &TextStyle) -> (r: HighlightStyle)
        ensures
            r == highlight_of_text(*other),
    {
        HighlightStyle {
            color: Some(other.color),
            font_weight: Some(other.font_weight),
            font_style: Some(other.font_style),
            background_color: other.background_color,
            underline: other.underline,
            fade_out: None,
        }
    }
}

impl vstd::std_specs::convert::FromSpecImpl<&TextStyle> for HighlightStyle {
    open spec fn obeys_from_spec() -> bool {
        true
    }

    open spec fn from_spec(v: &TextStyle) -> HighlightStyle {
        highlight_of_text(*v)
    }
}

impl From<TextStyle> for HighlightStyle {
    fn from(other: TextStyle) -> (r: HighlightStyle)
        ensures
            r == highlight_of_text(other),
    {
        <HighlightStyle as From<&TextStyle>>::from(&other)
    }
}

impl vstd::std_specs::convert::FromSpecImpl<TextStyle> for HighlightStyle {
    open spec fn obeys_from_spec() -> bool {
        true
    }

    open spec fn from_spec(v: TextStyle) -> HighlightStyle {
        highlight_of_text(v)
    }
}

impl From<Hsla> for HighlightStyle {
    /// The highlight that sets only the color.
    fn from(color: Hsla) -> (r: HighlightStyle)
        ensures
            r == (HighlightStyle { color: Some(color), ..empty_highlight() }),
    {
        HighlightStyle { color: Some(color), ..HighlightStyle::default() }
    }
}

impl vstd::std_specs::convert::FromSpecImpl<Hsla> for HighlightStyle {
    open spec fn obeys_from_spec() -> bool {
        true
    }

    open spec fn from_spec(v: Hsla) -> HighlightStyle {
        HighlightStyle { color: Some(v), ..empty_highlight() }
    }
}

impl From<FontWeight> for HighlightStyle {
    /// The highlight that sets only the weight.
    fn from(font_weight: FontWeight) -> (r: HighlightStyle)
        ensures
            r == (HighlightStyle { font_weight: Some(font_weight), ..empty_highlight() }),
    {
        HighlightStyle { font_weight: Some(font_weight), ..HighlightStyle::default() }
    }
}

impl vstd::std_specs::convert::FromSpecImpl<FontWeight> for HighlightStyle {
    open spec fn obeys_from_spec() -> bool {
        true
    }

    open spec fn from_spec(v: FontWeight) -> HighlightStyle {
        HighlightStyle { font_weight: Some(v), ..empty_highlight() }
    }
}

impl From<FontStyle> for HighlightStyle {
    /// The highlight that sets only the slant.
    fn from(font_style: FontStyle) -> (r: HighlightStyle)
        ensures
            r == (HighlightStyle { font_style: Some(font_style), ..empty_highlight() }),
    {
        HighlightStyle { font_style: Some(font_style), ..HighlightStyle::default() }
    }
}

impl vstd::std_specs::convert::FromSpecImpl<FontStyle> for HighlightStyle {
    open spec fn obeys_from_spec() -> bool {
        true
    }

    open spec fn from_spec(v: FontStyle) -> HighlightStyle {
        HighlightStyle { font_style: Some(v), ..empty_highlight() }
    }
}

/// `result` is `base` with the changes of `style` applied, where `blend(a, b)`
/// draws `b` over `a` and `fade(c, f)` fades the color `c` by the fraction `f`.
///
/// The color of `style` is drawn over the text color, and the result is then
/// faded by the fade of `style`; weight, slant, background and underline are
/// replaced where `style` sets them; the rest of `base` is kept.
pub open spec fn text_highlighted<B, F>(
    base: TextStyle,
    style: HighlightStyle,
    result: TextStyle,
    blend: B,
    fade: F,
) -> bool where B: Fn(Hsla, Hsla) -> Hsla, F: Fn(Hsla, u32) -> Hsla {
    &&& result.font_weight == (match style.font_weight { Some(w) => w, None => base.font_weight })
    &&& result.font_style == (match style.font_style { Some(s) => s, None => base.font_style })
    &&& result.background_color == override_with(base.background_color, style.background_color)
    &&& result.underline == override_with(base.underline, style.underline)
    &&& match (style.color, style.fade_out) {
        (None, None) => result.color == base.color,
        (Some(c), None) => blend.ensures((base.color, c), result.color),
        (None, Some(f)) => fade.ensures((base.color, f), result.color),
        (Some(c), Some(f)) => exists|mid: Hsla|
            #[trigger] blend.ensures((base.color, c), mid) && fade.ensures((mid, f), result.color),
    }
    &&& result.font_family == base.font_family
    &&& result.font_features == base.font_features
    &&& result.font_size == base.font_size
    &&& result.line_height == base.line_height
    &&& result.white_space == base.white_space
}

/// Applying the highlight that changes nothing to a text style leaves it as it was.
pub proof fn lemma_text_highlight_empty<B, F>(base: TextStyle, result: TextStyle, blend: B, fade: F)
    where B: Fn(Hsla, Hsla) -> Hsla, F: Fn(Hsla, u32) -> Hsla,
    requires
        text_highlighted(base, empty_highlight(), result, blend, fade),
    ensures
        result == base,
{
}

impl Default for TextStyle {
    /// Black regular Helvetica, one rem high, with a line height of the golden
    /// ratio times the font size, and no background, underline or features.
    fn default() -> (r: TextStyle)
        ensures
            r.color == (Hsla { h: 0, s: 0, l: 0, a: F32_ONE_BITS }),
            r.font_family@ == "Helvetica"@,
            r.font_features == no_font_features(),
            r.font_size == AbsoluteLength::Rems(Rems(F32_ONE_BITS)),
            r.line_height == DefiniteLength::Fraction(PHI_BITS),
            r.font_weight == FontWeight(FONT_WEIGHT_NORMAL_BITS),
            r.font_style == FontStyle::Normal,
            r.background_color is None,
            r.underline is None,
            r.white_space == WhiteSpace::Normal,
    {
        TextStyle {
            color: black(),
            font_family: "Helvetica".to_owned(),
            font_features: FontFeatures { enabled: 0, disabled: 0 },
            font_size: AbsoluteLength::Rems(Rems(F32_ONE_BITS)),
            line_height: DefiniteLength::Fraction(PHI_BITS),
            font_weight: FontWeight::normal(),
            font_style: FontStyle::Normal,
            background_color: None,
            underline: None,
            white_space: WhiteSpace::Normal,
        }
    }
}

impl TextStyle {
    /// Applies `style` to this text style. The caller supplies the color
    /// arithmetic: `blend(a, b)` draws `b` over `a`, and `fade(c, f)` fades
    /// the color `c` by the fraction `f`.
    pub fn highlight<B, F>(self, style: HighlightStyle, blend: &B, fade: &F) -> (r: TextStyle)
        where B: Fn(Hsla, Hsla) -> Hsla, F: Fn(Hsla, u32) -> Hsla,
        requires
            forall|a: Hsla, b: Hsla| blend.requires((a, b)),
            forall|c: Hsla, f: u32| fade.requires((c, f)),
        ensures
            text_highlighted(self, style, r, *blend, *fade),
    {
        let mut this = self;
        if let Some(weight) = style.font_weight {
            this.font_weight = weight;
        }
        if let Some(font_style) = style.font_style {
            this.font_style = font_style;
        }
        if let Some(color) = style.color {
            this.color = blend(this.color, color);
        }
        let ghost blended = this.color;
        if let Some(factor) = style.fade_out {
            this.color = fade(this.color, factor);
        }
        if let Some(background_color) = style.background_color {
            this.background_color = Some(background_color);
        }
        if let Some(underline) = style.underline {
            this.underline = Some(underline);
        }
        proof {
            if style.color is Some && style.fade_out is Some {
                assert(blend.ensures((self.color, style.color.unwrap()), blended));
            }
        }
        this
    }

    /// The font this style selects: its family, features, weight and slant.
    pub fn font(&self) -> (f: Font)
        ensures
            f.family@ == self.font_family@,
            f.features == self.font_features,
            f.weight == self.font_weight,
            f.style == self.font_style,
    {
        Font {
            family: self.font_family.clone(),
            features: self.font_features,
            weight: self.font_weight,
            style: self.font_style,
        }
    }

    /// A run of `len` bytes drawn in this style. The run's font has this
    /// style's family, weight and slant, and no font features.
    pub fn to_run(&self, len: usize) -> (run: TextRun)
        ensures
            run.len == len,
            run.font.family@ == self.font_family@,
            run.font.features == no_font_features(),
            run.font.weight == self.font_weight,
            run.font.style == self.font_style,
            run.color == self.color,
            run.background_color == self.background_color,
            run.underline == self.underline,
    {
        TextRun {
            len,
            font: Font {
                family: self.font_family.clone(),
                features: FontFeatures::default(),
                weight: self.font_weight,
                style: self.font_style,
            },
            color: self.color,
            background_color: self.background_color,
            underline: self.underline,
        }
    }
}

/// A text refinement sets something exactly when some one of its fields
/// is set, whichever field that is: setting only the color, or only any
/// other field, makes it one that a style hands out.
pub proof fn lemma_refinement_set_by_any_field(x: TextStyleRefinement)
    ensures
        x.color is Some ==> x.spec_is_some(),
        x.font_family is Some ==> x.spec_is_some(),
        x.font_features is Some ==> x.spec_is_some(),
        x.font_size is Some ==> x.spec_is_some(),
        x.line_height is Some ==> x.spec_is_some(),
        x.font_weight is Some ==> x.spec_is_some(),
        x.font_style is Some ==> x.spec_is_some(),
        x.background_color is Some ==> x.spec_is_some(),
        x.underline is Some ==> x.spec_is_some(),
        x.white_space is Some ==> x.spec_is_some(),
        x.color is None && x.font_family is None && x.font_features is None && x.font_size is None
            && x.line_height is None && x.font_weight is None && x.font_style is None
            && x.background_color is None && x.underline is None && x.white_space is None
            ==> !x.spec_is_some(),
{
}

/// The highlight made from a text style carries that style's color, weight
/// and slant, and exactly its background and underline, and no fade.
pub proof fn lemma_highlight_of_text_fields(t: TextStyle)
    ensures
        highlight_of_text(t).color == Some(t.color),
        highlight_of_text(t).font_weight == Some(t.font_weight),
        highlight_of_text(t).font_style == Some(t.font_style),
        highlight_of_text(t).background_color == t.background_color,
        highlight_of_text(t).underline == t.underline,
        highlight_of_text(t).fade_out is None,
{
}

/// Applying to any text style the highlight made from `t` gives `t`'s weight
/// and slant, and `t`'s background and underline wherever `t` has them.
pub proof fn lemma_apply_highlight_of_text<B, F>(
    base: TextStyle,
    t: TextStyle,
    result: TextStyle,
    blend: B,
    fade: F,
)
    where B: Fn(Hsla, Hsla) -> Hsla, F: Fn(Hsla, u32) -> Hsla,
    requires
        text_highlighted(base, highlight_of_text(t), result, blend, fade),
    ensures
        result.font_weight == t.font_weight,
        result.font_style == t.font_style,
        t.background_color is Some ==> result.background_color == t.background_color,
        t.underline is Some ==> result.underline == t.underline,
        blend.ensures((base.color, t.color), result.color),
{
}

/// Layering `other` over any highlight: each of weight, slant, background
/// and underline that `other` sets is the one the result has, whatever the
/// base had; each that `other` leaves unset is the base's. A color or fade
/// that only one side has is the result's.
pub proof fn lemma_layer_overrides<B, M>(base: HighlightStyle, other: HighlightStyle, result: HighlightStyle, blend: B, mix: M)
    where B: Fn(Hsla, Hsla) -> Hsla, M: Fn(u32, u32) -> u32,
    requires
        layered(base, other, result, blend, mix),
    ensures
        other.font_weight is Some ==> result.font_weight == other.font_weight,
        other.font_weight is None ==> result.font_weight == base.font_weight,
        other.font_style is Some ==> result.font_style == other.font_style,
        other.font_style is None ==> result.font_style == base.font_style,
        other.background_color is Some ==> result.background_color == other.background_color,
        other.background_color is None ==> result.background_color == base.background_color,
        other.underline is Some ==> result.underline == other.underline,
        other.underline is None ==> result.underline == base.underline,
        other.color is None ==> result.color == base.color,
        base.color is None ==> result.color == other.color,
        other.fade_out is None ==> result.fade_out == base.fade_out,
        base.fade_out is None ==> result.fade_out == other.fade_out,
{
}

/// Applying `style` to any text style: each of weight, slant, background and
/// underline that `style` sets is the one the result has, whatever the text
/// style had; each that it leaves unset is the text style's own.
pub proof fn lemma_text_highlight_overrides<B, F>(
    base: TextStyle,
    style: HighlightStyle,
    result: TextStyle,
    blend: B,
    fade: F,
)
    where B: Fn(Hsla, Hsla) -> Hsla, F: Fn(Hsla, u32) -> Hsla,
    requires
        text_highlighted(base, style, result, blend, fade),
    ensures
        style.font_weight matches Some(w) ==> result.font_weight == w,
        style.font_weight is None ==> result.font_weight == base.font_weight,
        style.font_style matches Some(s) ==> result.font_style == s,
        style.font_style is None ==> result.font_style == base.font_style,
        style.background_color is Some ==> result.background_color == style.background_color,
        style.background_color is None ==> result.background_color == base.background_color,
        style.underline is Some ==> result.underline == style.underline,
        style.underline is None ==> result.underline == base.underline,
        style.color is None && style.fade_out is None ==> result.color == base.color,
{
}

} // verus!
