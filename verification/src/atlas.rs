//! The packed glyph atlas: one image strip holding every glyph bitmap in a
//! uniform padded slot, plus the per-glyph metrics table.

use vstd::prelude::*;

use crate::geom::fixed_to_px;
use crate::glyph::{FixedVector, GlyphData, PixelBox, Typeface, MAX_ADVANCE, MAX_GLYPH_COUNT,
    MAX_GLYPH_DIM};

verus! {

/// Largest bitmap width over a glyph table.
pub open spec fn max_glyph_width(glyphs: Seq<GlyphData>) -> int
    decreases glyphs.len(),
{
    if glyphs.len() == 0 {
        0
    } else {
        let rest = max_glyph_width(glyphs.drop_last());
        if glyphs.last().width > rest {
            glyphs.last().width as int
        } else {
            rest
        }
    }
}

/// Largest bitmap height over a glyph table.
pub open spec fn max_glyph_height(glyphs: Seq<GlyphData>) -> int
    decreases glyphs.len(),
{
    if glyphs.len() == 0 {
        0
    } else {
        let rest = max_glyph_height(glyphs.drop_last());
        if glyphs.last().height > rest {
            glyphs.last().height as int
        } else {
            rest
        }
    }
}

/// The byte index, in an atlas image of row width `max_w` and slot height
/// `slot_h`, of bitmap pixel (`r`, `c`) of glyph `i`. The glyph is written
/// bottom-aligned in its slot: its first bitmap row starts
/// `slot_h - 1 - height` rows below the slot top, so a glyph as tall as
/// every slot's usable height still leaves the slot's last row as padding.
pub open spec fn pix_index(
    glyphs: Seq<GlyphData>,
    max_w: int,
    slot_h: int,
    i: int,
    r: int,
    c: int,
) -> int {
    (i * slot_h + (slot_h - 1 - glyphs[i].height) + r) * max_w + c
}

/// Whether byte `idx` of the image lies in the written region of glyph `i`.
pub open spec fn in_glyph_slot(
    glyphs: Seq<GlyphData>,
    max_w: int,
    slot_h: int,
    i: int,
    idx: int,
) -> bool {
    let row = idx / max_w;
    let col = idx % max_w;
    &&& i * slot_h + (slot_h - 1 - glyphs[i].height) <= row
    &&& row < i * slot_h + slot_h - 1
    &&& col < glyphs[i].width
}

/// Whether byte `idx` lies in the written region of any glyph below `k`.
pub open spec fn covered(glyphs: Seq<GlyphData>, max_w: int, slot_h: int, idx: int, k: int) -> bool
    decreases k,
{
    k > 0 && (in_glyph_slot(glyphs, max_w, slot_h, k - 1, idx) || covered(
        glyphs,
        max_w,
        slot_h,
        idx,
        k - 1,
    ))
}

/// The packed atlas. `image` is a single strip `max_width` bytes wide and
/// `count * max_height` rows tall; glyph `i` occupies the rows
/// `[i * max_height, (i + 1) * max_height)`, bottom-aligned with one row of
/// padding so a glyph as tall as the tallest never bleeds into the next
/// slot. `max_height` holds the padded slot height (tallest glyph plus one).
pub struct Atlas {
    pub image: Vec<u8>,
    pub max_width: u64,
    pub max_height: u64,
    pub advances: Vec<FixedVector>,
    pub cboxes: Vec<PixelBox>,
}

impl Atlas {
    /// The number of glyph slots.
    pub open spec fn count(&self) -> int {
        self.advances@.len() as int
    }

    /// A built atlas: metrics tables aligned and bounded, and the image
    /// exactly `count * max_height` rows of `max_width` bytes.
    pub open spec fn wf(&self) -> bool {
        &&& self.advances@.len() == self.cboxes@.len()
        &&& self.advances@.len() <= MAX_GLYPH_COUNT
        &&& 1 <= self.max_height <= MAX_GLYPH_DIM + 1
        &&& self.max_width <= MAX_GLYPH_DIM
        &&& self.image@.len() == self.count() * self.max_height * self.max_width
        &&& forall|i: int|
            0 <= i < self.count() ==> 0 <= (#[trigger] self.advances@[i]).x <= MAX_ADVANCE
        &&& forall|i: int|
            0 <= i < self.count() ==> {
                &&& -MAX_ADVANCE <= (#[trigger] self.cboxes@[i]).x_min <= MAX_ADVANCE
                &&& -MAX_ADVANCE <= self.cboxes@[i].y_min <= MAX_ADVANCE
            }
    }

    /// Packs a rasterized face into an atlas. The slot size is uniform: the
    /// largest glyph width, and the largest glyph height plus one row of
    /// padding. Every glyph is written bottom-aligned into its slot, so all
    /// baselines align; blank glyphs reserve a slot and metrics but write
    /// nothing. The returned image holds each glyph's bitmap pixel-exact in
    /// its slot and zero everywhere else.
    pub fn new(face: &Typeface) -> (a: Atlas)
        requires
            face.wf(),
        ensures
            a.wf(),
            a.count() == face.glyphs@.len(),
            a.max_width == max_glyph_width(face.glyphs@),
            a.max_height == max_glyph_height(face.glyphs@) + 1,
            forall|i: int|
                0 <= i < a.count() ==> #[trigger] a.advances@[i] == face.glyphs@[i].advance,
            forall|i: int| 0 <= i < a.count() ==> #[trigger] a.cboxes@[i] == face.glyphs@[i].cbox,
            // the packing invariant: every glyph fits its slot with the pad row
            forall|i: int|
                0 <= i < a.count() ==> (#[trigger] face.glyphs@[i]).height + 1 <= a.max_height,
            // pixel-exact packing
            forall|i: int, r: int, c: int|
                0 <= i < a.count() && 0 <= r < face.glyphs@[i].height && 0 <= c
                    < face.glyphs@[i].width ==> a.image@[pix_index(
                    face.glyphs@,
                    a.max_width as int,
                    a.max_height as int,
                    i,
                    r,
                    c,
                )] == face.glyphs@[i].bitmap@[r * face.glyphs@[i].width + c],
            // padding and unused slot space stay blank
            forall|idx: int|
                0 <= idx < a.image@.len() && !covered(
                    face.glyphs@,
                    a.max_width as int,
                    a.max_height as int,
                    idx,
                    a.count() as int,
                ) ==> a.image@[idx] == 0,
    {
        let glyphs = &face.glyphs;
        let count = glyphs.len();
        let mut max_width: u64 = 0;
        let mut max_height: u64 = 0;
        let mut advances: Vec<FixedVector> = Vec::new();
        let mut cboxes: Vec<PixelBox> = Vec::new();
        for i in 0..count
            invariant
                count == glyphs@.len(),
                face.wf(),
                glyphs == face.glyphs,
                max_width == max_glyph_width(glyphs@.take(i as int)),
                max_height == max_glyph_height(glyphs@.take(i as int)),
                max_width <= MAX_GLYPH_DIM,
                max_height <= MAX_GLYPH_DIM,
                advances@.len() == i,
                cboxes@.len() == i,
                forall|k: int| 0 <= k < i ==> #[trigger] advances@[k] == glyphs@[k].advance,
                forall|k: int| 0 <= k < i ==> #[trigger] cboxes@[k] == glyphs@[k].cbox,
        {
            proof {
                assert(glyphs@.take(i + 1).drop_last() =~= glyphs@.take(i as int));
                assert(glyphs@.take(i + 1).last() == glyphs@[i as int]);
            }
            let g = &glyphs[i];
            if g.width > max_width {
                max_width = g.width;
            }
            if g.height > max_height {
                max_height = g.height;
            }
            advances.push(g.advance);
            cboxes.push(g.cbox);
        }
        proof {
            assert(glyphs@.take(count as int) =~= glyphs@);
        }
        let slot_h = max_height + 1;
        proof {
            assert(count * slot_h <= MAX_GLYPH_COUNT * (MAX_GLYPH_DIM + 1) && count * slot_h
                * max_width <= MAX_GLYPH_COUNT * (MAX_GLYPH_DIM + 1)
                * MAX_GLYPH_DIM) by (nonlinear_arith)
                requires
                    count <= MAX_GLYPH_COUNT,
                    slot_h <= MAX_GLYPH_DIM + 1,
                    max_width <= MAX_GLYPH_DIM,
                    count >= 0,
                    slot_h >= 1,
                    max_width >= 0,
            ;
        }
        let total = count * (slot_h as usize) * (max_width as usize);
        let mut image: Vec<u8> = Vec::new();
        while image.len() < total
            invariant
                image@.len() <= total,
                forall|k: int| 0 <= k < image@.len() ==> image@[k] == 0,
            decreases total - image@.len(),
        {
            image.push(0u8);
        }
        proof {
            assert forall|k: int|
                0 <= k < count implies (#[trigger] glyphs@[k]).height <= max_height && glyphs@[
                k
            ].width <= max_width by {
                lemma_max_height_bound(glyphs@, k);
            }
        }
        for i in 0..count
            invariant
                count == glyphs@.len(),
                face.wf(),
                glyphs == face.glyphs,
                slot_h == max_height + 1,
                1 <= slot_h <= MAX_GLYPH_DIM + 1,
                max_width <= MAX_GLYPH_DIM,
                max_width == max_glyph_width(glyphs@),
                max_height == max_glyph_height(glyphs@),
                forall|k: int| 0 <= k < count ==> (#[trigger] glyphs@[k]).height <= max_height,
                forall|k: int| 0 <= k < count ==> (#[trigger] glyphs@[k]).width <= max_width,
                image@.len() == count * slot_h * max_width,
                forall|g: int, r: int, c: int|
                    0 <= g < i && 0 <= r < glyphs@[g].height && 0 <= c < glyphs@[g].width
                        ==> image@[pix_index(glyphs@, max_width as int, slot_h as int, g, r, c)]
                        == glyphs@[g].bitmap@[r * glyphs@[g].width + c],
                forall|idx: int|
                    0 <= idx < image@.len() && !covered(
                        glyphs@,
                        max_width as int,
                        slot_h as int,
                        idx,
                        i as int,
                    ) ==> image@[idx] == 0,
        {
            proof {
                lemma_max_height_bound(glyphs@, i as int);
            }
            let ghost pre = image@;
            let g = &glyphs[i];
            if g.width > 0 && g.height > 0 {
                blit_glyph(&mut image, glyphs, i, max_width, slot_h);
            }
            proof {
                lemma_covered_step(glyphs@, max_width as int, slot_h as int, i as int);
                assert forall|g2: int, r: int, c: int|
                    0 <= g2 < i && 0 <= r < glyphs@[g2].height && 0 <= c
                        < glyphs@[g2].width implies image@[pix_index(
                    glyphs@,
                    max_width as int,
                    slot_h as int,
                    g2,
                    r,
                    c,
                )] == glyphs@[g2].bitmap@[r * glyphs@[g2].width + c] by {
                    assert(glyphs@[g2].wf());
                    lemma_max_height_bound(glyphs@, g2);
                    lemma_blit_write(
                        glyphs@,
                        max_width as int,
                        slot_h as int,
                        g2,
                        r,
                        c,
                        image@.len() as int,
                    );
                    lemma_pix_other_slot(glyphs@, max_width as int, slot_h as int, g2, i as int, r, c);
                    assert(pre[pix_index(glyphs@, max_width as int, slot_h as int, g2, r, c)]
                        == glyphs@[g2].bitmap@[r * glyphs@[g2].width + c]);
                }
            }
        }
        Atlas { image, max_width, max_height: slot_h, advances, cboxes }
    }

    /// The pen advance of glyph `index` in whole pixels: the stored
    /// fixed-point advance divided by the 1/64 sub-pixel scale.
    pub fn get_advance(&self, index: usize) -> (r: i64)
        requires
            self.wf(),
            index < self.advances@.len(),
        ensures
            r == self.advances@[index as int].x as int / 64,
            0 <= r <= MAX_ADVANCE / 64,
    {
        fixed_to_px(self.advances[index].x)
    }
}

/// Every glyph's height is at most the table's maximum.
proof fn lemma_max_height_bound(glyphs: Seq<GlyphData>, i: int)
    requires
        0 <= i < glyphs.len(),
    ensures
        glyphs[i].height <= max_glyph_height(glyphs),
        glyphs[i].width <= max_glyph_width(glyphs),
    decreases glyphs.len(),
{
    if i == glyphs.len() - 1 {
    } else {
        lemma_max_height_bound(glyphs.drop_last(), i);
        assert(glyphs.drop_last()[i] == glyphs[i]);
    }
}

/// Coverage by the first `i + 1` glyphs is coverage by the first `i` plus
/// glyph `i`'s own region (the definition, unfolded once for loop proofs).
proof fn lemma_covered_step(glyphs: Seq<GlyphData>, max_w: int, slot_h: int, i: int)
    requires
        0 <= i,
    ensures
        forall|idx: int|
            #[trigger] covered(glyphs, max_w, slot_h, idx, i + 1) == (in_glyph_slot(
                glyphs,
                max_w,
                slot_h,
                i,
                idx,
            ) || covered(glyphs, max_w, slot_h, idx, i)),
{
}

/// A byte of glyph `g`'s written region lies outside every other slot's
/// written region: slots occupy disjoint row bands of the strip.
proof fn lemma_pix_other_slot(gs: Seq<GlyphData>, iw: int, sh: int, g: int, i: int, r: int, c: int)
    requires
        0 <= g < gs.len(),
        0 <= i < gs.len(),
        g != i,
        1 <= gs[g].width <= iw,
        0 <= r < gs[g].height,
        0 <= c < gs[g].width,
        gs[g].height + 1 <= sh,
        gs[i].height + 1 <= sh,
        1 <= sh,
    ensures
        !in_glyph_slot(gs, iw, sh, i, pix_index(gs, iw, sh, g, r, c)),
{
    let hg = gs[g].height as int;
    let row = g * sh + (sh - 1 - hg) + r;
    let idx = row * iw + c;
    vstd::arithmetic::div_mod::lemma_fundamental_div_mod_converse(idx, iw, row, c);
    assert(idx / iw == row && idx % iw == c);
    if g < i {
        assert(row < i * sh + (sh - 1 - gs[i].height)) by (nonlinear_arith)
            requires
                row == g * sh + (sh - 1 - hg) + r,
                0 <= r < hg,
                hg + 1 <= sh,
                gs[i].height + 1 <= sh,
                g < i,
                1 <= sh,
        ;
    } else {
        assert(row >= i * sh + sh - 1) by (nonlinear_arith)
            requires
                row == g * sh + (sh - 1 - hg) + r,
                0 <= r,
                hg + 1 <= sh,
                i < g,
                1 <= sh,
        ;
    }
}

/// Writes glyph `i`'s bitmap into its slot, bottom-aligned, and leaves
/// every other byte of the image unchanged.
fn blit_glyph(image: &mut Vec<u8>, glyphs: &Vec<GlyphData>, i: usize, max_w: u64, slot_h: u64)
    requires
        i < glyphs@.len(),
        glyphs@[i as int].wf(),
        1 <= glyphs@[i as int].width <= max_w,
        glyphs@[i as int].height + 1 <= slot_h,
        1 <= slot_h <= MAX_GLYPH_DIM + 1,
        max_w <= MAX_GLYPH_DIM,
        glyphs@.len() <= MAX_GLYPH_COUNT,
        old(image)@.len() == glyphs@.len() * slot_h * max_w,
    ensures
        final(image)@.len() == old(image)@.len(),
        forall|r: int, c: int|
            0 <= r < glyphs@[i as int].height && 0 <= c < glyphs@[i as int].width ==> final(
                image
            )@[pix_index(glyphs@, max_w as int, slot_h as int, i as int, r, c)] == glyphs@[
                i as int
            ].bitmap@[r * glyphs@[i as int].width + c],
        forall|idx: int|
            0 <= idx < final(image)@.len() && !in_glyph_slot(
                glyphs@,
                max_w as int,
                slot_h as int,
                i as int,
                idx,
            ) ==> final(image)@[idx] == old(image)@[idx],
{
    let g = &glyphs[i];
    let w = g.width as usize;
    let h = g.height as usize;
    let off = (slot_h - 1 - g.height) as usize;
    let ghost gs = glyphs@;
    let ghost iw = max_w as int;
    let ghost sh = slot_h as int;
    let ghost ii = i as int;
    proof {
        assert(ii * sh + (sh - 1 - gs[ii].height) <= MAX_GLYPH_COUNT * (MAX_GLYPH_DIM + 1))
            by (nonlinear_arith)
            requires
                0 <= ii < gs.len(),
                gs.len() <= MAX_GLYPH_COUNT,
                1 <= sh <= MAX_GLYPH_DIM + 1,
                0 <= gs[ii].height,
                gs[ii].height + 1 <= sh,
        ;
    }
    let base_row = i * (slot_h as usize) + off;
    for r in 0..h
        invariant
            gs == glyphs@,
            i < gs.len(),
            gs[ii].wf(),
            ii == i,
            w == gs[ii].width,
            h == gs[ii].height,
            1 <= w <= iw,
            h + 1 <= sh,
            iw == max_w,
            sh == slot_h,
            1 <= sh <= MAX_GLYPH_DIM + 1,
            iw <= MAX_GLYPH_DIM,
            gs.len() <= MAX_GLYPH_COUNT,
            off == sh - 1 - h,
            base_row == ii * sh + off,
            image@.len() == old(image)@.len(),
            old(image)@.len() == gs.len() * sh * iw,
            forall|r2: int, c2: int|
                0 <= r2 < r && 0 <= c2 < w ==> image@[pix_index(gs, iw, sh, ii, r2, c2)] == gs[
                    ii
                ].bitmap@[r2 * w + c2],
            forall|idx: int|
                0 <= idx < image@.len() && !in_glyph_slot(gs, iw, sh, ii, idx) ==> image@[idx]
                    == old(image)@[idx],
    {
        for c in 0..w
            invariant
                gs == glyphs@,
                i < gs.len(),
                gs[ii].wf(),
                ii == i,
                w == gs[ii].width,
                h == gs[ii].height,
                1 <= w <= iw,
                h + 1 <= sh,
                iw == max_w,
                sh == slot_h,
                1 <= sh <= MAX_GLYPH_DIM + 1,
                iw <= MAX_GLYPH_DIM,
                gs.len() <= MAX_GLYPH_COUNT,
                off == sh - 1 - h,
                base_row == ii * sh + off,
                r < h,
                image@.len() == old(image)@.len(),
                old(image)@.len() == gs.len() * sh * iw,
                forall|r2: int, c2: int|
                    0 <= r2 < r && 0 <= c2 < w ==> image@[pix_index(gs, iw, sh, ii, r2, c2)]
                        == gs[ii].bitmap@[r2 * w + c2],
                forall|c2: int|
                    0 <= c2 < c ==> image@[pix_index(gs, iw, sh, ii, r as int, c2)] == gs[
                        ii
                    ].bitmap@[r * w + c2],
                forall|idx: int|
                    0 <= idx < image@.len() && !in_glyph_slot(gs, iw, sh, ii, idx) ==> image@[idx]
                        == old(image)@[idx],
        {
            proof {
                lemma_blit_write(gs, iw, sh, ii, r as int, c as int, old(image)@.len() as int);
                lemma_pix_in_slot(gs, iw, sh, ii, r as int, c as int);
                lemma_rows_distinct(gs, iw, sh, ii, r as int, c as int);
            }
            let row = base_row + r;
            let idx = row * (max_w as usize) + c;
            let bidx = r * w + c;
            let byte = glyphs[i].bitmap[bidx];
            proof {
                assert(idx == pix_index(gs, iw, sh, ii, r as int, c as int));
            }
            image[idx] = byte;
            proof {
                assert forall|r2: int, c2: int|
                    0 <= r2 < r && 0 <= c2 < w implies image@[pix_index(gs, iw, sh, ii, r2, c2)]
                    == gs[ii].bitmap@[r2 * w + c2] by {
                    lemma_blit_write(gs, iw, sh, ii, r2, c2, old(image)@.len() as int);
                    assert(pix_index(gs, iw, sh, ii, r2, c2) != pix_index(
                        gs,
                        iw,
                        sh,
                        ii,
                        r as int,
                        c as int,
                    ));
                }
            }
        }
    }
}

/// The write target of pixel (`r`, `c`) of glyph `i` is inside the image,
/// and distinct row/column pairs of the glyph map to distinct bytes.
proof fn lemma_blit_write(gs: Seq<GlyphData>, iw: int, sh: int, ii: int, r: int, c: int, len: int)
    requires
        0 <= ii < gs.len(),
        gs[ii].wf(),
        1 <= gs[ii].width <= iw,
        0 <= r < gs[ii].height,
        0 <= c < gs[ii].width,
        gs[ii].height + 1 <= sh,
        1 <= sh,
        len == gs.len() * sh * iw,
    ensures
        0 <= pix_index(gs, iw, sh, ii, r, c) < len,
        pix_index(gs, iw, sh, ii, r, c) == (ii * sh + (sh - 1 - gs[ii].height) + r) * iw + c,
        0 <= r * gs[ii].width + c < gs[ii].bitmap@.len(),
        r * gs[ii].width + c < MAX_GLYPH_DIM * MAX_GLYPH_DIM,
        gs.len() <= MAX_GLYPH_COUNT && sh <= MAX_GLYPH_DIM + 1 && iw <= MAX_GLYPH_DIM ==> len
            <= MAX_GLYPH_COUNT * ((MAX_GLYPH_DIM + 1) * MAX_GLYPH_DIM),
{
    assert(r * gs[ii].width + c < MAX_GLYPH_DIM * MAX_GLYPH_DIM) by (nonlinear_arith)
        requires
            0 <= r < gs[ii].height,
            0 <= c < gs[ii].width,
            gs[ii].width <= MAX_GLYPH_DIM,
            gs[ii].height <= MAX_GLYPH_DIM,
    ;
    if gs.len() <= MAX_GLYPH_COUNT && sh <= MAX_GLYPH_DIM + 1 && iw <= MAX_GLYPH_DIM {
        assert(gs.len() * sh * iw <= MAX_GLYPH_COUNT * ((MAX_GLYPH_DIM + 1) * MAX_GLYPH_DIM))
            by (nonlinear_arith)
            requires
                0 <= gs.len() <= MAX_GLYPH_COUNT,
                1 <= sh <= MAX_GLYPH_DIM + 1,
                1 <= iw <= MAX_GLYPH_DIM,
        ;
    }
    let h = gs[ii].height as int;
    let w = gs[ii].width as int;
    let row = ii * sh + (sh - 1 - h) + r;
    assert(0 <= row && row < gs.len() * sh) by (nonlinear_arith)
        requires
            0 <= ii < gs.len(),
            0 <= r < h,
            h + 1 <= sh,
            1 <= sh,
            row == ii * sh + (sh - 1 - h) + r,
    ;
    assert(0 <= row * iw + c < gs.len() * sh * iw) by (nonlinear_arith)
        requires
            0 <= row,
            row < gs.len() * sh,
            0 <= c < iw,
            1 <= iw,
    ;
    assert(0 <= r * w + c < (if w == 0 || h == 0 {
        0int
    } else {
        w * h
    })) by (nonlinear_arith)
        requires
            0 <= r < h,
            0 <= c < w,
            1 <= w,
    ;
}

/// The byte just written lies in glyph `i`'s slot region.
proof fn lemma_pix_in_slot(gs: Seq<GlyphData>, iw: int, sh: int, ii: int, r: int, c: int)
    requires
        0 <= ii < gs.len(),
        gs[ii].wf(),
        1 <= gs[ii].width <= iw,
        0 <= r < gs[ii].height,
        0 <= c < gs[ii].width,
        gs[ii].height + 1 <= sh,
        1 <= sh,
    ensures
        in_glyph_slot(gs, iw, sh, ii, pix_index(gs, iw, sh, ii, r, c)),
{
    let h = gs[ii].height as int;
    let row = ii * sh + (sh - 1 - h) + r;
    let idx = row * iw + c;
    vstd::arithmetic::div_mod::lemma_fundamental_div_mod_converse(idx, iw, row, c);
    assert(idx / iw == row && idx % iw == c);
}

/// Bytes of the same glyph at different row/column pairs are distinct.
proof fn lemma_rows_distinct(gs: Seq<GlyphData>, iw: int, sh: int, ii: int, r: int, c: int)
    requires
        0 <= ii < gs.len(),
        gs[ii].wf(),
        1 <= gs[ii].width <= iw,
        0 <= r < gs[ii].height,
        0 <= c < gs[ii].width,
        gs[ii].height + 1 <= sh,
        1 <= sh,
    ensures
        forall|r2: int, c2: int|
            0 <= r2 < gs[ii].height && 0 <= c2 < gs[ii].width && (r2 != r || c2 != c)
                ==> #[trigger] pix_index(gs, iw, sh, ii, r2, c2) != pix_index(gs, iw, sh, ii, r, c),
{
    let h = gs[ii].height as int;
    let w = gs[ii].width as int;
    assert forall|r2: int, c2: int|
        0 <= r2 < h && 0 <= c2 < w && (r2 != r || c2 != c) implies #[trigger] pix_index(
        gs,
        iw,
        sh,
        ii,
        r2,
        c2,
    ) != pix_index(gs, iw, sh, ii, r, c) by {
        let row = ii * sh + (sh - 1 - h) + r;
        let row2 = ii * sh + (sh - 1 - h) + r2;
        assert(row2 * iw + c2 != row * iw + c) by (nonlinear_arith)
            requires
                0 <= c < iw,
                0 <= c2 < iw,
                row == ii * sh + (sh - 1 - h) + r,
                row2 == ii * sh + (sh - 1 - h) + r2,
                r2 != r || c2 != c,
                1 <= iw,
        ;
    }
}

} // verus!
