# gpui_style

Verified styling data for a GPU-rendered UI toolkit, written in Verus.

- `src/color.rs`, `src/geometry.rs`: colors and lengths. Floating-point values
  are carried as the IEEE-754 bit patterns of `f32`s; the library moves,
  compares and tests them against zero, but never does float arithmetic.
- `src/text.rs`: text styles, fonts, text runs, and highlight styles with the
  rules for layering one highlight over another. Blending and fading colors
  are supplied by the caller as closures; the contracts say which values they
  are applied to and how the rest of the style is chosen.
- `src/highlights.rs`: cutting overlapping highlighted ranges into disjoint
  pieces and layering the highlights of each piece, with the proofs that the
  pieces cover exactly the highlighted positions and are uniquely determined.
- `src/layout.rs`, `src/style.rs`: element styles, their defaults, border
  visibility, overflow clipping and the decisions of painting.
- `app/lib.rs`: the float arithmetic (fades, line heights, clip bounds) and the
  conversion of layout choices into `taffy`'s types.
- `tests/`: tests of the library on concrete values.
