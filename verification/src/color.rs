use vstd::prelude::*;

verus! {

/// The bit pattern of the `f32` value `1.0`.
pub const F32_ONE_BITS: u32 = 0x3f80_0000;

/// A color in the hue/saturation/lightness/alpha model. Each channel holds
/// the IEEE-754 bit pattern of an `f32` in `0.0..=1.0`. Two colors are equal
/// when their channels compare equal as `f32`s.
#[derive(Clone, Copy, Debug, Default)]
pub struct Hsla {
    pub h: u32,
    pub s: u32,
    pub l: u32,
    pub a: u32,
}

/// Whether the bit pattern `bits` encodes an `f32` equal to zero (`0.0` or `-0.0`).
pub open spec fn f32_bits_is_zero(bits: u32) -> bool {
    bits == 0 || bits == 0x8000_0000u32
}

/// Tests whether `bits` encodes an `f32` that compares equal to `0.0`.
pub fn f32_bits_eq_zero(bits: u32) -> (r: bool)
    ensures
        r == f32_bits_is_zero(bits),
{
    bits == 0 || bits == 0x8000_0000u32
}

/// Whether the bit pattern `bits` encodes a NaN.
pub open spec fn f32_bits_is_nan(bits: u32) -> bool {
    bits % 0x8000_0000 > 0x7f80_0000
}

/// Whether the `f32`s encoded by `a` and `b` compare equal: neither is a NaN,
/// and they are the same value, zeros of either sign being equal.
pub open spec fn f32_bits_same(a: u32, b: u32) -> bool {
    !f32_bits_is_nan(a) && !f32_bits_is_nan(b) && (a == b || (f32_bits_is_zero(a) && f32_bits_is_zero(b)))
}

/// Compares the `f32`s encoded by `a` and `b` for equality.
pub fn f32_bits_eq(a: u32, b: u32) -> (r: bool)
    ensures
        r == f32_bits_same(a, b),
{
    a % 0x8000_0000 <= 0x7f80_0000 && b % 0x8000_0000 <= 0x7f80_0000 && (a == b || (f32_bits_eq_zero(a)
        && f32_bits_eq_zero(b)))
}

/// The two colors compare equal channel by channel.
pub open spec fn hsla_same(x: Hsla, y: Hsla) -> bool {
    f32_bits_same(x.h, y.h) && f32_bits_same(x.s, y.s) && f32_bits_same(x.l, y.l) && f32_bits_same(x.a, y.a)
}

impl PartialEq for Hsla {
    fn eq(&self, other: &Hsla) -> (r: bool) {
        f32_bits_eq(self.h, other.h) && f32_bits_eq(self.s, other.s) && f32_bits_eq(self.l, other.l)
            && f32_bits_eq(self.a, other.a)
    }
}

impl vstd::std_specs::cmp::PartialEqSpecImpl for Hsla {
    open spec fn obeys_eq_spec() -> bool {
        true
    }

    open spec fn eq_spec(&self, other: &Hsla) -> bool {
        hsla_same(*self, *other)
    }
}

impl Hsla {
    /// A color is transparent when its alpha channel equals zero.
    pub open spec fn spec_is_transparent(self) -> bool {
        f32_bits_is_zero(self.a)
    }

    pub fn is_transparent(&self) -> (r: bool)
        ensures
            r == self.spec_is_transparent(),
    {
        f32_bits_eq_zero(self.a)
    }
}

/// Opaque black.
pub fn black() -> (c: Hsla)
    ensures
        c == (Hsla { h: 0, s: 0, l: 0, a: F32_ONE_BITS }),
{
    Hsla { h: 0, s: 0, l: 0, a: F32_ONE_BITS }
}

/// A color is transparent exactly when its alpha is zero, `0.0` or `-0.0`:
/// a color whose alpha is any other value, however small, is not.
pub proof fn lemma_transparent_iff_alpha_zero(c: Hsla)
    ensures
        c.spec_is_transparent() <==> (c.a == 0 || c.a == 0x8000_0000),
        c.a != 0 && c.a != 0x8000_0000 ==> !c.spec_is_transparent(),
{
}

/// Two `f32` bit patterns compare equal exactly as the floats do: a value
/// that is not a NaN equals itself, `0.0` equals `-0.0`, a NaN equals
/// nothing, and any other two different patterns differ.
pub proof fn lemma_f32_equality(a: u32, b: u32)
    ensures
        a % 0x8000_0000 <= 0x7f80_0000 ==> f32_bits_same(a, a),
        f32_bits_same(0, 0x8000_0000) && f32_bits_same(0x8000_0000, 0),
        a % 0x8000_0000 > 0x7f80_0000 ==> !f32_bits_same(a, b) && !f32_bits_same(b, a),
        a != b && !((a == 0 || a == 0x8000_0000) && (b == 0 || b == 0x8000_0000)) ==> !f32_bits_same(a, b),
{
}

} // verus!
