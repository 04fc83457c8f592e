use texter::atlas::Atlas;
use texter::glyph::{get_char_glyph, FixedVector, GlyphData, PixelBox, RasterError, Typeface};

fn glyph(w: u64, h: u64, advance_x: i64, fill: u8) -> GlyphData {
    let len = if w == 0 || h == 0 { 0 } else { (w * h) as usize };
    GlyphData {
        bitmap: vec![fill; len],
        width: w,
        height: h,
        advance: FixedVector { x: advance_x, y: 0 },
        cbox: PixelBox { x_min: 0, y_min: 0, x_max: w as i64, y_max: h as i64 },
    }
}

#[test]
fn typeface_collects_all_glyphs_in_order() {
    let results = vec![Some(glyph(2, 2, 640, 1)), Some(glyph(3, 1, 320, 2))];
    let face = Typeface::new(results, 32).unwrap();
    assert_eq!(face.glyphs.len(), 2);
    assert_eq!(face.range_start, 32);
    assert_eq!(face.glyphs[0].width, 2);
    assert_eq!(face.glyphs[1].width, 3);
    assert_eq!(face.glyphs[1].advance.x, 320);
}

#[test]
fn typeface_aborts_on_first_failed_code() {
    let results = vec![Some(glyph(2, 2, 640, 1)), None, None, Some(glyph(1, 1, 64, 3))];
    match Typeface::new(results, 32) {
        Err(RasterError::RasterizationFailed(code)) => assert_eq!(code, 33),
        Ok(_) => panic!("a partial atlas must never be returned"),
    }
}

#[test]
fn get_char_glyph_checks_the_range() {
    let face = Typeface::new(vec![Some(glyph(2, 2, 640, 1)), Some(glyph(3, 1, 320, 2))], 32)
        .unwrap();
    assert!(get_char_glyph(&face, 31).is_none());
    assert!(get_char_glyph(&face, 34).is_none());
    assert_eq!(get_char_glyph(&face, 32).unwrap().width, 2);
    assert_eq!(get_char_glyph(&face, 33).unwrap().advance.x, 320);
}

#[test]
fn atlas_slot_is_tallest_glyph_plus_padding() {
    let face = Typeface::new(
        vec![Some(glyph(2, 3, 640, 1)), Some(glyph(4, 7, 640, 2)), Some(glyph(1, 1, 640, 3))],
        32,
    )
    .unwrap();
    let atlas = Atlas::new(&face);
    assert_eq!(atlas.max_width, 4);
    assert_eq!(atlas.max_height, 8);
    assert_eq!(atlas.image.len(), 3 * 8 * 4);
    for g in face.glyphs.iter() {
        assert!(g.height + 1 <= atlas.max_height);
    }
    assert_eq!(atlas.advances.len(), 3);
    assert_eq!(atlas.cboxes.len(), 3);
}

#[test]
fn atlas_packs_bitmaps_bottom_aligned_pixel_exact() {
    // two glyphs of different heights in 3-byte-wide slots of height 8
    let face = Typeface::new(
        vec![Some(glyph(2, 3, 640, 9)), Some(glyph(3, 7, 640, 5))],
        32,
    )
    .unwrap();
    let atlas = Atlas::new(&face);
    assert_eq!(atlas.max_width, 3);
    assert_eq!(atlas.max_height, 8);
    let w = 3usize;
    let slot = 8usize;
    // glyph 0: height 3, written at rows (7 - 3)..(7 - 3) + 3 of slot 0
    for r in 0..3usize {
        for c in 0..2usize {
            assert_eq!(atlas.image[(0 * slot + 4 + r) * w + c], 9);
        }
        // the column past the glyph's width stays blank
        assert_eq!(atlas.image[(0 * slot + 4 + r) * w + 2], 0);
    }
    // rows above the glyph and the padding row stay blank
    for r in 0..4usize {
        for c in 0..w {
            assert_eq!(atlas.image[(0 * slot + r) * w + c], 0);
        }
    }
    for c in 0..w {
        assert_eq!(atlas.image[(0 * slot + 7) * w + c], 0);
    }
    // glyph 1: height 7, bottom-aligned at row offset 0 of slot 1
    for r in 0..7usize {
        for c in 0..3usize {
            assert_eq!(atlas.image[(1 * slot + r) * w + c], 5);
        }
    }
    for c in 0..w {
        assert_eq!(atlas.image[(1 * slot + 7) * w + c], 0);
    }
}

#[test]
fn blank_glyphs_reserve_a_slot_but_write_nothing() {
    let face = Typeface::new(
        vec![Some(glyph(0, 0, 640, 0)), Some(glyph(2, 2, 320, 7))],
        32,
    )
    .unwrap();
    let atlas = Atlas::new(&face);
    assert_eq!(atlas.max_width, 2);
    assert_eq!(atlas.max_height, 3);
    assert_eq!(atlas.image.len(), 2 * 3 * 2);
    // slot 0 is entirely blank
    for b in 0..6usize {
        assert_eq!(atlas.image[b], 0);
    }
    assert_eq!(atlas.advances[0].x, 640);
}

#[test]
fn get_advance_applies_the_fixed_point_scale() {
    let face = Typeface::new(
        vec![Some(glyph(1, 1, 640, 1)), Some(glyph(1, 1, 1000, 1))],
        32,
    )
    .unwrap();
    let atlas = Atlas::new(&face);
    assert_eq!(atlas.get_advance(0), 10);
    // 1000 / 64 rounds down to 15 whole pixels
    assert_eq!(atlas.get_advance(1), 15);
}
