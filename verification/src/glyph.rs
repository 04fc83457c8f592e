//! Rasterized glyph records and the face table the rest of the core reads.
//!
//! Rasterization itself is an external capability: something outside this
//! library turns a character code into a bitmap, pixel dimensions, a pen
//! advance and an ink bounding box, and may fail per code. The core consumes
//! one such record per code of a fixed range, collected into a [`Typeface`].

use vstd::prelude::*;

verus! {

/// Largest accepted glyph bitmap dimension, in pixels. Together with
/// [`MAX_GLYPH_COUNT`] this keeps the packed atlas image size, and every
/// byte index into it, well inside `usize`.
pub const MAX_GLYPH_DIM: u64 = 1024;

/// Largest accepted number of glyphs in one face table.
pub const MAX_GLYPH_COUNT: usize = 1024;

/// Largest accepted advance, kerning or bounding-box magnitude, in the
/// rasterizer's 1/64 sub-pixel units. Keeps pen arithmetic inside `i64`.
pub const MAX_ADVANCE: i64 = 0x10_0000;

/// A pen displacement in the rasterizer's fixed-point units (1/64 pixel).
#[derive(Clone, Copy, Debug, PartialEq, Eq, Structural)]
pub struct FixedVector {
    pub x: i64,
    pub y: i64,
}

/// A glyph's tight ink bounding box in pixels, offset from the pen origin.
#[derive(Clone, Copy, Debug, PartialEq, Eq, Structural)]
pub struct PixelBox {
    pub x_min: i64,
    pub y_min: i64,
    pub x_max: i64,
    pub y_max: i64,
}

/// One rasterized glyph: an 8-bit coverage bitmap in row-major order
/// (`width` bytes per row, `height` rows), the pen advance in 1/64 sub-pixel
/// units, and the ink bounding box in pixels. A blank glyph (zero width or
/// height) carries an empty bitmap but still has metrics.
pub struct GlyphData {
    pub bitmap: Vec<u8>,
    pub width: u64,
    pub height: u64,
    pub advance: FixedVector,
    pub cbox: PixelBox,
}

impl GlyphData {
    /// A usable glyph record: dimensions and metrics within the machine
    /// limits above, and the bitmap length matching the dimensions.
    pub open spec fn wf(&self) -> bool {
        &&& self.width <= MAX_GLYPH_DIM
        &&& self.height <= MAX_GLYPH_DIM
        &&& 0 <= self.advance.x <= MAX_ADVANCE
        &&& -MAX_ADVANCE <= self.advance.y <= MAX_ADVANCE
        &&& -MAX_ADVANCE <= self.cbox.x_min <= MAX_ADVANCE
        &&& -MAX_ADVANCE <= self.cbox.y_min <= MAX_ADVANCE
        &&& -MAX_ADVANCE <= self.cbox.x_max <= MAX_ADVANCE
        &&& -MAX_ADVANCE <= self.cbox.y_max <= MAX_ADVANCE
        &&& self.bitmap@.len() == (if self.width == 0 || self.height == 0 {
            0int
        } else {
            self.width * self.height
        })
    }
}

/// Why a face (and with it the atlas) could not be built.
#[derive(Clone, Copy, Debug, PartialEq, Eq, Structural)]
pub enum RasterError {
    /// The rasterizer failed for the carried character code. The build
    /// aborts as a whole: a partial face or atlas is never returned.
    RasterizationFailed(u32),
}

/// The rasterized face for one character range: one glyph record per code
/// in `[range_start, range_start + glyphs.len())`, in code order.
pub struct Typeface {
    pub glyphs: Vec<GlyphData>,
    pub range_start: u32,
}

impl Typeface {
    /// Every glyph record is usable and the range fits in `u32`.
    pub open spec fn wf(&self) -> bool {
        &&& self.glyphs@.len() <= MAX_GLYPH_COUNT
        &&& forall|i: int| 0 <= i < self.glyphs@.len() ==> (#[trigger] self.glyphs@[i]).wf()
        &&& self.range_start + self.glyphs@.len() <= u32::MAX
    }

    /// Collects one rasterizer result per code of the range into a face.
    /// `None` marks a code the rasterizer failed on; the first such code
    /// aborts the whole build, so a partial face is never returned.
    pub fn new(results: Vec<Option<GlyphData>>, range_start: u32) -> (r: Result<Typeface, RasterError>)
        requires
            results@.len() <= MAX_GLYPH_COUNT,
            range_start + results@.len() <= u32::MAX,
            forall|i: int|
                0 <= i < results@.len() && (#[trigger] results@[i]) is Some ==> results@[i]->0.wf(),
        ensures
            match r {
                Ok(face) => {
                    &&& face.wf()
                    &&& face.range_start == range_start
                    &&& face.glyphs@.len() == results@.len()
                    &&& forall|i: int|
                        0 <= i < results@.len() ==> #[trigger] results@[i] == Some(face.glyphs@[i])
                },
                Err(e) => exists|j: int|
                    {
                        &&& 0 <= j < results@.len()
                        &&& results@[j] is None
                        &&& forall|i: int| 0 <= i < j ==> (#[trigger] results@[i]) is Some
                        &&& e == RasterError::RasterizationFailed((range_start + j) as u32)
                    },
            },
    {
        let ghost results0 = results@;
        let n = results.len();
        for i in 0..n
            invariant
                n == results0.len(),
                results@ == results0,
                range_start + n <= u32::MAX,
                forall|k: int| 0 <= k < i ==> (#[trigger] results0[k]) is Some,
        {
            if results[i].is_none() {
                let code = range_start + i as u32;
                proof {
                    assert({
                        &&& 0 <= i < results0.len()
                        &&& results0[i as int] is None
                        &&& forall|k: int| 0 <= k < i ==> (#[trigger] results0[k]) is Some
                        &&& RasterError::RasterizationFailed(code)
                            == RasterError::RasterizationFailed((range_start + i) as u32)
                    });
                }
                return Err(RasterError::RasterizationFailed(code));
            }
        }
        let mut results = results;
        let mut rev: Vec<GlyphData> = Vec::new();
        while results.len() > 0
            invariant
                n == results0.len(),
                results@ == results0.take(results@.len() as int),
                rev@.len() + results@.len() == n,
                forall|k: int| 0 <= k < n ==> (#[trigger] results0[k]) is Some,
                forall|k: int|
                    0 <= k < rev@.len() ==> #[trigger] rev@[k] == results0[n - 1 - k]->0,
            decreases results@.len(),
        {
            proof {
                assert(results@[results@.len() - 1] == results0[results@.len() - 1]);
            }
            let g = results.pop().unwrap().unwrap();
            rev.push(g);
        }
        let mut glyphs: Vec<GlyphData> = Vec::new();
        while rev.len() > 0
            invariant
                n == results0.len(),
                glyphs@.len() + rev@.len() == n,
                forall|k: int| 0 <= k < n ==> (#[trigger] results0[k]) is Some,
                forall|k: int|
                    0 <= k < rev@.len() ==> #[trigger] rev@[k] == results0[n - 1 - k]->0,
                forall|k: int| 0 <= k < glyphs@.len() ==> #[trigger] glyphs@[k] == results0[k]->0,
            decreases rev@.len(),
        {
            let g = rev.pop().unwrap();
            proof {
                assert(results0[glyphs@.len() as int] is Some);
            }
            glyphs.push(g);
        }
        Ok(Typeface { glyphs, range_start })
    }
}

/// Looks a character code up in the face table. Codes outside
/// `[range_start, range_start + glyphs.len())` have no metrics: the checked
/// conversion returns `None` instead of failing.
pub fn get_char_glyph(face: &Typeface, character: u32) -> (r: Option<&GlyphData>)
    requires
        face.wf(),
    ensures
        match r {
            Some(g) => {
                &&& face.range_start <= character
                &&& character - face.range_start < face.glyphs@.len()
                &&& *g == face.glyphs@[character - face.range_start]
            },
            None => character < face.range_start || character - face.range_start
                >= face.glyphs@.len(),
        },
{
    if character < face.range_start {
        return None;
    }
    let index = (character - face.range_start) as usize;
    if index < face.glyphs.len() {
        Some(&face.glyphs[index])
    } else {
        None
    }
}

} // verus!
