use texter::atlas::Atlas;
use texter::geom::Pos;
use texter::glyph::{FixedVector, GlyphData, PixelBox, Typeface};
use texter::layout::{layout, KernEntry, KerningTable};

/// A 96-glyph monospace face: every glyph 2x2 pixels, the given advance in
/// 1/64 sub-pixel units, and an ink box anchored at the pen origin.
fn mono_face(advance_x: i64) -> Typeface {
    let mut results = Vec::new();
    for _ in 0..96 {
        results.push(Some(GlyphData {
            bitmap: vec![255u8; 4],
            width: 2,
            height: 2,
            advance: FixedVector { x: advance_x, y: 0 },
            cbox: PixelBox { x_min: 0, y_min: 0, x_max: 2, y_max: 2 },
        }));
    }
    Typeface::new(results, 32).unwrap()
}

fn mono_atlas(advance_x: i64) -> Atlas {
    Atlas::new(&mono_face(advance_x))
}

#[test]
fn single_line_positions_accumulate_advances() {
    // "hi there" with a fixed advance of 10 pixels per glyph and no kerning
    let atlas = mono_atlas(640);
    let kt = KerningTable::new();
    let mut buf: Vec<u8> = b"hi there".to_vec();
    let (insts, positions) = layout(&mut buf, Pos { x: 0, y: 0 }, 1000, &atlas, &kt);
    assert_eq!(buf, b"hi there".to_vec());
    assert_eq!(insts.len(), 8);
    assert_eq!(positions.len(), 8);
    for (i, p) in positions.iter().enumerate() {
        assert_eq!(p.x, 10 * i as i64);
        assert_eq!(p.y, 0);
    }
    for (i, inst) in insts.iter().enumerate() {
        assert_eq!(inst.position.x, 10 * i as i64);
        assert_eq!(inst.position.y, 0);
        assert_eq!(inst.atlas_slot, (buf[i] - 32) as u64);
    }
}

#[test]
fn wrap_moves_the_word_after_the_whitespace_down_one_slot() {
    // "ab cd", box width 25, advance 10: the space ends the first line
    // past the box width without wrapping itself; 'c' then crosses the
    // width, the backward scan finds the space, and the word "cd" moves
    // to the line start one slot height down. Slot height is 3 (2 + pad).
    let atlas = mono_atlas(640);
    let kt = KerningTable::new();
    let mut buf: Vec<u8> = b"ab cd".to_vec();
    let (insts, positions) = layout(&mut buf, Pos { x: 0, y: 0 }, 25, &atlas, &kt);
    assert_eq!(buf, b"ab cd".to_vec());
    assert_eq!(positions.len(), 5);
    assert_eq!((positions[0].x, positions[0].y), (0, 0));
    assert_eq!((positions[1].x, positions[1].y), (10, 0));
    assert_eq!((positions[2].x, positions[2].y), (20, 0));
    // the wrap point sits just after the whitespace: 'c' and 'd' stand at
    // the line start, one slot height below the first line
    assert_eq!((positions[3].x, positions[3].y), (0, -3));
    assert_eq!((positions[4].x, positions[4].y), (10, -3));
    assert_eq!(insts.len(), 5);
}

#[test]
fn overflow_without_whitespace_pushes_only_the_current_character() {
    // no whitespace anywhere, so there is no wrap point: each character
    // that meets the box width is pushed to a fresh line by itself
    let atlas = mono_atlas(640);
    let kt = KerningTable::new();
    let mut buf: Vec<u8> = b"abcd".to_vec();
    let (_insts, positions) = layout(&mut buf, Pos { x: 0, y: 0 }, 15, &atlas, &kt);
    assert_eq!(positions.len(), 4);
    assert_eq!((positions[0].x, positions[0].y), (0, 0));
    // 'b' reaches x=20 >= 15 with nothing to wrap back to: it alone moves
    // to the line start of the next line, and so on
    assert_eq!(positions[1].x, 0);
    assert!(positions[1].y < 0);
}

#[test]
fn backspace_pair_is_removed_and_nothing_rendered() {
    // buffer "x", then a backspace keystroke: the buffer empties, the
    // cursor lands on zero, and nothing renders
    let atlas = mono_atlas(640);
    let kt = KerningTable::new();
    let mut buf: Vec<u8> = vec![b'x'];
    let mut index: usize = 1;
    texter::cursor::handle_char(127, &mut index, &mut buf);
    let (insts, positions) = layout(&mut buf, Pos { x: 0, y: 0 }, 1000, &atlas, &kt);
    assert!(buf.is_empty());
    assert_eq!(index, 0);
    assert!(positions.is_empty());
    assert!(insts.is_empty());
}

#[test]
fn backspace_at_the_start_removes_only_itself() {
    let atlas = mono_atlas(640);
    let kt = KerningTable::new();
    let mut buf: Vec<u8> = vec![127, b'a'];
    let (insts, positions) = layout(&mut buf, Pos { x: 0, y: 0 }, 1000, &atlas, &kt);
    assert_eq!(buf, vec![b'a']);
    assert_eq!(positions.len(), 1);
    assert_eq!(insts.len(), 1);
}

#[test]
fn newline_renders_a_blank_cell_and_breaks_the_line() {
    let atlas = mono_atlas(640);
    let kt = KerningTable::new();
    let mut buf: Vec<u8> = vec![b'a', 13, b'b'];
    let (insts, positions) = layout(&mut buf, Pos { x: 0, y: 100 }, 1000, &atlas, &kt);
    assert_eq!(buf.len(), 3);
    assert_eq!(positions.len(), 3);
    assert_eq!((positions[0].x, positions[0].y), (0, 100));
    // the newline records the pen position where it stood
    assert_eq!((positions[1].x, positions[1].y), (10, 100));
    // the next character starts at the line start, one slot height down
    assert_eq!((positions[2].x, positions[2].y), (0, 97));
    // a placeholder cell renders for the newline, with the blank glyph's slot
    assert_eq!(insts.len(), 3);
    assert_eq!(insts[1].atlas_slot, 0);
}

#[test]
fn unrecognized_codes_occupy_no_width_and_render_nothing() {
    let atlas = mono_atlas(640);
    let kt = KerningTable::new();
    let mut buf: Vec<u8> = vec![b'a', 7, b'b'];
    let (insts, positions) = layout(&mut buf, Pos { x: 0, y: 0 }, 1000, &atlas, &kt);
    // skipped, never fatal: the code stays in the buffer with a
    // zero-width placeholder position, and no instance is emitted for it
    assert_eq!(buf, vec![b'a', 7, b'b']);
    assert_eq!(positions.len(), 3);
    assert_eq!((positions[1].x, positions[1].y), (10, 0));
    assert_eq!((positions[2].x, positions[2].y), (10, 0));
    assert_eq!(insts.len(), 2);
    assert_eq!(insts[1].position.x, 10);
}

#[test]
fn positions_stay_aligned_with_the_buffer_after_removal() {
    let atlas = mono_atlas(640);
    let kt = KerningTable::new();
    let mut buf: Vec<u8> = b"abc".to_vec();
    buf.insert(2, 127);
    // "ab<backspace>c": the pass removes 'b' and the control code
    let (_insts, positions) = layout(&mut buf, Pos { x: 0, y: 0 }, 1000, &atlas, &kt);
    assert_eq!(buf, b"ac".to_vec());
    assert_eq!(positions.len(), buf.len());
}

#[test]
fn kerning_adjusts_the_advance_between_the_looked_up_pair() {
    let atlas = mono_atlas(640);
    let mut kt = KerningTable::new();
    // 'a' followed by 'b': glyph indices 65 and 66; kern by 128/64 = 2 px
    kt.push(KernEntry {
        left: (b'a' - 32) as usize,
        right: (b'b' - 32) as usize,
        adjust: FixedVector { x: 128, y: 0 },
    });
    let mut buf: Vec<u8> = b"abc".to_vec();
    let (_insts, positions) = layout(&mut buf, Pos { x: 0, y: 0 }, 1000, &atlas, &kt);
    assert_eq!(positions[0].x, 0);
    // 'b' starts after the advance plus the pair's kerning
    assert_eq!(positions[1].x, 12);
    // no entry for ('b', 'c'): zero adjustment, never an error
    assert_eq!(positions[2].x, 22);
}

#[test]
fn negative_kerning_tightens_the_pair() {
    let atlas = mono_atlas(640);
    let mut kt = KerningTable::new();
    kt.push(KernEntry {
        left: (b'a' - 32) as usize,
        right: (b'b' - 32) as usize,
        adjust: FixedVector { x: -128, y: 0 },
    });
    let mut buf: Vec<u8> = b"ab".to_vec();
    let (_insts, positions) = layout(&mut buf, Pos { x: 0, y: 0 }, 1000, &atlas, &kt);
    assert_eq!(positions[1].x, 8);
}

#[test]
fn instances_anchor_at_the_ink_box_corner() {
    // give every glyph an ink box offset from the pen origin
    let mut results = Vec::new();
    for _ in 0..96 {
        results.push(Some(GlyphData {
            bitmap: vec![255u8; 4],
            width: 2,
            height: 2,
            advance: FixedVector { x: 640, y: 0 },
            cbox: PixelBox { x_min: 1, y_min: -2, x_max: 3, y_max: 0 },
        }));
    }
    let face = Typeface::new(results, 32).unwrap();
    let atlas = Atlas::new(&face);
    let kt = KerningTable::new();
    let mut buf: Vec<u8> = b"ab".to_vec();
    let (insts, positions) = layout(&mut buf, Pos { x: 100, y: 50 }, 1000, &atlas, &kt);
    assert_eq!(positions[0].x, 100);
    assert_eq!(insts[0].position.x, 101);
    assert_eq!(insts[0].position.y, 48);
    assert_eq!(insts[1].position.x, 111);
}

#[test]
fn a_buffer_that_fits_needs_no_second_pass_to_agree() {
    // wrap idempotence on concrete values: the same buffer laid out with a
    // roomy box and an enormous box gives identical positions
    let atlas = mono_atlas(640);
    let kt = KerningTable::new();
    let mut a: Vec<u8> = b"hi there".to_vec();
    let mut b: Vec<u8> = b"hi there".to_vec();
    let (_, pa) = layout(&mut a, Pos { x: 0, y: 0 }, 81, &atlas, &kt);
    let (_, pb) = layout(&mut b, Pos { x: 0, y: 0 }, 1_000_000, &atlas, &kt);
    assert_eq!(pa, pb);
}

#[test]
fn empty_buffer_is_a_valid_layout() {
    let atlas = mono_atlas(640);
    let kt = KerningTable::new();
    let mut buf: Vec<u8> = Vec::new();
    let (insts, positions) = layout(&mut buf, Pos { x: 0, y: 0 }, 100, &atlas, &kt);
    assert!(buf.is_empty());
    assert!(insts.is_empty());
    assert!(positions.is_empty());
}
