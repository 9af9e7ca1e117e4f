use vstd::prelude::*;

use crate::color::{f32_bits_eq, f32_bits_eq_zero, f32_bits_is_zero, f32_bits_same};

verus! {

/// A length in logical pixels, held as the bit pattern of an `f32`, and
/// compared as that `f32`.
#[derive(Clone, Copy, Debug, Default)]
pub struct Pixels(pub u32);

impl PartialEq for Pixels {
    fn eq(&self, other: &Pixels) -> (r: bool) {
        f32_bits_eq(self.0, other.0)
    }
}

impl vstd::std_specs::cmp::PartialEqSpecImpl for Pixels {
    open spec fn obeys_eq_spec() -> bool {
        true
    }

    open spec fn eq_spec(&self, other: &Pixels) -> bool {
        f32_bits_same(self.0, other.0)
    }
}

/// A length in multiples of the root font size, held as the bit pattern of
/// an `f32`, and compared as that `f32`.
#[derive(Clone, Copy, Debug, Default)]
pub struct Rems(pub u32);

impl PartialEq for Rems {
    fn eq(&self, other: &Rems) -> (r: bool) {
        f32_bits_eq(self.0, other.0)
    }
}

impl vstd::std_specs::cmp::PartialEqSpecImpl for Rems {
    open spec fn obeys_eq_spec() -> bool {
        true
    }

    open spec fn eq_spec(&self, other: &Rems) -> bool {
        f32_bits_same(self.0, other.0)
    }
}

/// A length that does not depend on the size of a parent.
#[derive(Clone, Copy, Debug)]
pub enum AbsoluteLength {
    Pixels(Pixels),
    Rems(Rems),
}

/// Two absolute lengths compare equal: the same unit and equal amounts.
pub open spec fn absolute_same(x: AbsoluteLength, y: AbsoluteLength) -> bool {
    match (x, y) {
        (AbsoluteLength::Pixels(a), AbsoluteLength::Pixels(b)) => f32_bits_same(a.0, b.0),
        (AbsoluteLength::Rems(a), AbsoluteLength::Rems(b)) => f32_bits_same(a.0, b.0),
        _ => false,
    }
}

impl PartialEq for AbsoluteLength {
    fn eq(&self, other: &AbsoluteLength) -> (r: bool) {
        match (self, other) {
            (AbsoluteLength::Pixels(a), AbsoluteLength::Pixels(b)) => f32_bits_eq(a.0, b.0),
            (AbsoluteLength::Rems(a), AbsoluteLength::Rems(b)) => f32_bits_eq(a.0, b.0),
            _ => false,
        }
    }
}

impl vstd::std_specs::cmp::PartialEqSpecImpl for AbsoluteLength {
    open spec fn obeys_eq_spec() -> bool {
        true
    }

    open spec fn eq_spec(&self, other: &AbsoluteLength) -> bool {
        absolute_same(*self, *other)
    }
}

/// A length that is either absolute or a fraction (an `f32` bit pattern) of a base size.
#[derive(Clone, Copy, Debug)]
pub enum DefiniteLength {
    Absolute(AbsoluteLength),
    Fraction(u32),
}

/// Two definite lengths compare equal: both absolute and equal, or both
/// fractions that compare equal.
pub open spec fn definite_same(x: DefiniteLength, y: DefiniteLength) -> bool {
    match (x, y) {
        (DefiniteLength::Absolute(a), DefiniteLength::Absolute(b)) => absolute_same(a, b),
        (DefiniteLength::Fraction(a), DefiniteLength::Fraction(b)) => f32_bits_same(a, b),
        _ => false,
    }
}

impl PartialEq for DefiniteLength {
    fn eq(&self, other: &DefiniteLength) -> (r: bool) {
        match (self, other) {
            (DefiniteLength::Absolute(a), DefiniteLength::Absolute(b)) => match (a, b) {
                (AbsoluteLength::Pixels(p), AbsoluteLength::Pixels(q)) => f32_bits_eq(p.0, q.0),
                (AbsoluteLength::Rems(p), AbsoluteLength::Rems(q)) => f32_bits_eq(p.0, q.0),
                _ => false,
            },
            (DefiniteLength::Fraction(a), DefiniteLength::Fraction(b)) => f32_bits_eq(*a, *b),
            _ => false,
        }
    }
}

impl vstd::std_specs::cmp::PartialEqSpecImpl for DefiniteLength {
    open spec fn obeys_eq_spec() -> bool {
        true
    }

    open spec fn eq_spec(&self, other: &DefiniteLength) -> bool {
        definite_same(*self, *other)
    }
}

/// A length that may be left to the layout engine.
#[derive(Clone, Copy, Debug, PartialEq)]
pub enum Length {
    Definite(DefiniteLength),
    Auto,
}

/// A pair of values along the horizontal and vertical axes.
#[derive(Clone, Copy, Debug, PartialEq, Eq)]
pub struct Point<T> {
    pub x: T,
    pub y: T,
}

/// A width and a height.
#[derive(Clone, Copy, Debug, PartialEq, Eq)]
pub struct Size<T> {
    pub width: T,
    pub height: T,
}

/// One value for each side of a rectangle.
#[derive(Clone, Copy, Debug, PartialEq, Eq)]
pub struct Edges<T> {
    pub top: T,
    pub right: T,
    pub bottom: T,
    pub left: T,
}

/// One value for each corner of a rectangle.
#[derive(Clone, Copy, Debug, PartialEq, Eq)]
pub struct Corners<T> {
    pub top_left: T,
    pub top_right: T,
    pub bottom_right: T,
    pub bottom_left: T,
}

/// The absolute length of zero pixels.
pub open spec fn zero_absolute() -> AbsoluteLength {
    AbsoluteLength::Pixels(Pixels(0))
}

/// The definite length of zero pixels.
pub open spec fn zero_definite() -> DefiniteLength {
    DefiniteLength::Absolute(zero_absolute())
}

impl AbsoluteLength {
    /// The length is zero, in pixels or in rems.
    pub open spec fn spec_is_zero(self) -> bool {
        match self {
            AbsoluteLength::Pixels(p) => f32_bits_is_zero(p.0),
            AbsoluteLength::Rems(r) => f32_bits_is_zero(r.0),
        }
    }

    pub fn is_zero(&self) -> (r: bool)
        ensures
            r == self.spec_is_zero(),
    {
        match self {
            AbsoluteLength::Pixels(p) => f32_bits_eq_zero(p.0),
            AbsoluteLength::Rems(r) => f32_bits_eq_zero(r.0),
        }
    }

    /// Zero pixels.
    pub fn zero() -> (r: AbsoluteLength)
        ensures
            r == zero_absolute(),
    {
        AbsoluteLength::Pixels(Pixels(0))
    }
}

impl DefiniteLength {
    /// Zero pixels.
    pub fn zero() -> (r: DefiniteLength)
        ensures
            r == zero_definite(),
    {
        DefiniteLength::Absolute(AbsoluteLength::Pixels(Pixels(0)))
    }
}

impl Edges<Length> {
    /// Every side left to the layout engine.
    pub fn auto() -> (r: Edges<Length>)
        ensures
            r == (Edges { top: Length::Auto, right: Length::Auto, bottom: Length::Auto, left: Length::Auto }),
    {
        Edges { top: Length::Auto, right: Length::Auto, bottom: Length::Auto, left: Length::Auto }
    }

    /// Zero pixels on every side.
    pub fn zero() -> (r: Edges<Length>)
        ensures
            r.top == Length::Definite(zero_definite()),
            r.right == Length::Definite(zero_definite()),
            r.bottom == Length::Definite(zero_definite()),
            r.left == Length::Definite(zero_definite()),
    {
        let z = Length::Definite(DefiniteLength::zero());
        Edges { top: z, right: z, bottom: z, left: z }
    }
}

impl Edges<DefiniteLength> {
    /// Zero pixels on every side.
    pub fn zero() -> (r: Edges<DefiniteLength>)
        ensures
            r == (Edges { top: zero_definite(), right: zero_definite(), bottom: zero_definite(), left: zero_definite() }),
    {
        let z = DefiniteLength::zero();
        Edges { top: z, right: z, bottom: z, left: z }
    }
}

impl Edges<AbsoluteLength> {
    /// Zero pixels on every side.
    pub fn zero() -> (r: Edges<AbsoluteLength>)
        ensures
            r == (Edges { top: zero_absolute(), right: zero_absolute(), bottom: zero_absolute(), left: zero_absolute() }),
    {
        let z = AbsoluteLength::zero();
        Edges { top: z, right: z, bottom: z, left: z }
    }

    /// Some side has a width other than zero.
    pub open spec fn spec_any_nonzero(self) -> bool {
        !self.top.spec_is_zero() || !self.right.spec_is_zero() || !self.bottom.spec_is_zero()
            || !self.left.spec_is_zero()
    }

    pub fn any_nonzero(&self) -> (r: bool)
        ensures
            r == self.spec_any_nonzero(),
    {
        !self.top.is_zero() || !self.right.is_zero() || !self.bottom.is_zero() || !self.left.is_zero()
    }
}

impl Size<Length> {
    /// Both dimensions left to the layout engine.
    pub fn auto() -> (r: Size<Length>)
        ensures
            r == (Size { width: Length::Auto, height: Length::Auto }),
    {
        Size { width: Length::Auto, height: Length::Auto }
    }
}

impl Size<DefiniteLength> {
    /// Zero pixels in both dimensions.
    pub fn zero() -> (r: Size<DefiniteLength>)
        ensures
            r == (Size { width: zero_definite(), height: zero_definite() }),
    {
        let z = DefiniteLength::zero();
        Size { width: z, height: z }
    }
}

impl Corners<AbsoluteLength> {
    /// A radius of zero pixels at every corner.
    pub fn zero() -> (r: Corners<AbsoluteLength>)
        ensures
            r == (Corners {
                top_left: zero_absolute(),
                top_right: zero_absolute(),
                bottom_right: zero_absolute(),
                bottom_left: zero_absolute(),
            }),
    {
        let z = AbsoluteLength::zero();
        Corners { top_left: z, top_right: z, bottom_right: z, bottom_left: z }
    }
}

/// The bit pattern of the amount of an absolute length, whatever its unit.
pub open spec fn length_bits(l: AbsoluteLength) -> u32 {
    match l {
        AbsoluteLength::Pixels(p) => p.0,
        AbsoluteLength::Rems(r) => r.0,
    }
}

/// A length is zero exactly when its amount is `0.0` or `-0.0`, in pixels or rems.
pub proof fn lemma_length_zero_iff(l: AbsoluteLength)
    ensures
        l.spec_is_zero() <==> (length_bits(l) == 0 || length_bits(l) == 0x8000_0000),
{
}

/// Edges are non-zero as soon as any one of the four sides, whichever it
/// is, has an amount other than zero; edges whose four sides are all zero
/// are not.
pub proof fn lemma_any_nonzero_sides(e: Edges<AbsoluteLength>)
    ensures
        length_bits(e.top) != 0 && length_bits(e.top) != 0x8000_0000 ==> e.spec_any_nonzero(),
        length_bits(e.right) != 0 && length_bits(e.right) != 0x8000_0000 ==> e.spec_any_nonzero(),
        length_bits(e.bottom) != 0 && length_bits(e.bottom) != 0x8000_0000 ==> e.spec_any_nonzero(),
        length_bits(e.left) != 0 && length_bits(e.left) != 0x8000_0000 ==> e.spec_any_nonzero(),
        (length_bits(e.top) == 0 || length_bits(e.top) == 0x8000_0000) && (length_bits(e.right) == 0
            || length_bits(e.right) == 0x8000_0000) && (length_bits(e.bottom) == 0 || length_bits(e.bottom)
            == 0x8000_0000) && (length_bits(e.left) == 0 || length_bits(e.left) == 0x8000_0000)
            ==> !e.spec_any_nonzero(),
{
}

} // verus!
