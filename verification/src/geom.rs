//! Screen positions and the arithmetic shared by the atlas and layout code.

use vstd::prelude::*;

verus! {

/// A screen position in whole pixels.
#[derive(Clone, Copy, Debug, PartialEq, Eq, Structural)]
pub struct Pos {
    pub x: i64,
    pub y: i64,
}

/// The mathematical counterpart of `Pos`; contracts speak of this type.
pub struct IntPos {
    pub x: int,
    pub y: int,
}

impl View for Pos {
    type V = IntPos;

    open spec fn view(&self) -> IntPos {
        IntPos { x: self.x as int, y: self.y as int }
    }
}

/// The squared Euclidean distance between two positions. Cursor hit-testing
/// minimizes this; squaring preserves the order of distances, so no root is
/// needed.
pub open spec fn dist2(a: IntPos, b: IntPos) -> int {
    (a.x - b.x) * (a.x - b.x) + (a.y - b.y) * (a.y - b.y)
}

/// The pointwise view of a position vector.
pub open spec fn views(s: Seq<Pos>) -> Seq<IntPos> {
    Seq::new(s.len(), |i: int| s[i]@)
}

/// Fixed-point units per pixel: the rasterizer reports advances and kerning
/// in 1/64 sub-pixel units, and every consumer divides by this scale.
pub const FIXED_POINT_SCALE: i64 = 64;

/// Converts a value in 1/64 sub-pixel units to whole pixels, rounding toward
/// negative infinity (so the conversion agrees with mathematical division).
pub fn fixed_to_px(v: i64) -> (r: i64)
    requires
        -0x4000_0000_0000_0000 < v,
    ensures
        r == v as int / 64,
{
    if v >= 0 {
        v / FIXED_POINT_SCALE
    } else {
        let m = -v;
        let q = (m + (FIXED_POINT_SCALE - 1)) / FIXED_POINT_SCALE;
        proof {
            assert(-q == v as int / 64) by {
                vstd::arithmetic::div_mod::lemma_fundamental_div_mod(m as int, 64);
                vstd::arithmetic::div_mod::lemma_fundamental_div_mod(v as int, 64);
            };
        }
        -q
    }
}

} // verus!
