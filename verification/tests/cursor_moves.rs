use texter::atlas::Atlas;
use texter::command::{ControlCommand, KeyCommand, TextCommand};
use texter::cursor::{handle_char, move_cursor};
use texter::geom::Pos;
use texter::glyph::{FixedVector, GlyphData, PixelBox, Typeface};
use texter::layout::{layout, KerningTable};

fn mono_atlas(advance_x: i64) -> Atlas {
    let mut results = Vec::new();
    for _ in 0..96 {
        results.push(Some(GlyphData {
            bitmap: vec![255u8; 4],
            width: 2,
            height: 2,
            advance: FixedVector { x: advance_x, y: 0 },
            cbox: PixelBox { x_min: 0, y_min: 0, x_max: 2, y_max: 2 },
        }));
    }
    Atlas::new(&Typeface::new(results, 32).unwrap())
}

#[test]
fn insert_appends_at_the_end_and_advances_the_cursor() {
    let mut buf: Vec<u8> = b"ab".to_vec();
    let mut index: usize = 2;
    let r = handle_char(b'c', &mut index, &mut buf);
    assert_eq!(buf, b"abc".to_vec());
    assert_eq!(index, 3);
    assert!(matches!(r, Some(KeyCommand::TC(TextCommand::Char(_)))));
}

#[test]
fn insert_in_the_middle_shifts_the_tail() {
    let mut buf: Vec<u8> = b"ad".to_vec();
    let mut index: usize = 1;
    handle_char(b'b', &mut index, &mut buf);
    assert_eq!(buf, b"abd".to_vec());
    assert_eq!(index, 2);
}

#[test]
fn backspace_key_enters_the_buffer_and_steps_the_cursor_left() {
    let mut buf: Vec<u8> = b"ab".to_vec();
    let mut index: usize = 2;
    let r = handle_char(127, &mut index, &mut buf);
    assert_eq!(buf, vec![b'a', b'b', 127]);
    assert_eq!(index, 1);
    assert!(matches!(r, Some(KeyCommand::TC(TextCommand::Backspace))));
}

#[test]
fn backspace_cursor_floors_at_zero() {
    let mut buf: Vec<u8> = Vec::new();
    let mut index: usize = 0;
    handle_char(127, &mut index, &mut buf);
    assert_eq!(index, 0);
    assert_eq!(buf, vec![127]);
}

#[test]
fn horizontal_moves_shift_the_cursor_without_touching_the_buffer() {
    let mut buf: Vec<u8> = b"abc".to_vec();
    let mut index: usize = 2;
    assert!(handle_char(2, &mut index, &mut buf).is_none());
    assert_eq!(index, 1);
    assert_eq!(buf, b"abc".to_vec());
    assert!(handle_char(3, &mut index, &mut buf).is_none());
    assert_eq!(index, 2);
    // the right move clamps below the buffer length
    assert!(handle_char(3, &mut index, &mut buf).is_none());
    assert_eq!(index, 2);
}

#[test]
fn vertical_moves_are_returned_to_the_caller() {
    let mut buf: Vec<u8> = b"abc".to_vec();
    let mut index: usize = 1;
    let r = handle_char(1, &mut index, &mut buf);
    assert!(matches!(r, Some(KeyCommand::CC(ControlCommand::Direction(1)))));
    assert_eq!(index, 1);
    assert_eq!(buf, b"abc".to_vec());
}

#[test]
fn typing_then_backspacing_restores_buffer_and_cursor() {
    // the round trip on concrete values: three inserts, three backspaces,
    // resolving each backspace with a layout pass as the editor does
    let atlas = mono_atlas(640);
    let kt = KerningTable::new();
    let mut buf: Vec<u8> = b"ko".to_vec();
    let mut index: usize = 1;
    for c in [b'x', b'y', b'z'] {
        handle_char(c, &mut index, &mut buf);
        let _ = layout(&mut buf, Pos { x: 0, y: 0 }, 1000, &atlas, &kt);
    }
    assert_eq!(buf, b"kxyzo".to_vec());
    assert_eq!(index, 4);
    for _ in 0..3 {
        handle_char(127, &mut index, &mut buf);
        let _ = layout(&mut buf, Pos { x: 0, y: 0 }, 1000, &atlas, &kt);
    }
    assert_eq!(buf, b"ko".to_vec());
    assert_eq!(index, 1);
}

#[test]
fn cursor_down_from_the_last_line_stays_in_range() {
    // two lines; moving down from the end of the text has no line below,
    // so the hit-test lands on the nearest recorded position instead of
    // an out-of-range index
    let atlas = mono_atlas(640);
    let kt = KerningTable::new();
    let mut buf: Vec<u8> = b"ab cd".to_vec();
    let (_, positions) = layout(&mut buf, Pos { x: 0, y: 0 }, 25, &atlas, &kt);
    let index = buf.len();
    let down = atlas.max_height as i64;
    let r = move_cursor(index, down, &positions, &buf, &atlas);
    assert!(r < positions.len());
    // the nearest-distance heuristic picks the trailing space of the
    // first line: it sits straight above the target point
    assert_eq!(r, 2);
}

#[test]
fn cursor_up_selects_the_character_above() {
    // "ab" over "cd" via a newline; from 'd' (index 4) one slot up the
    // nearest position is 'b' (index 1)
    let atlas = mono_atlas(640);
    let kt = KerningTable::new();
    let mut buf: Vec<u8> = vec![b'a', b'b', 13, b'c', b'd'];
    let (_, positions) = layout(&mut buf, Pos { x: 0, y: 0 }, 1000, &atlas, &kt);
    // moving up subtracts a negative offset: the target y rises one slot
    let up = -(atlas.max_height as i64);
    let r = move_cursor(4, up, &positions, &buf, &atlas);
    assert_eq!(r, 1);
}

#[test]
fn cursor_move_on_empty_text_stays_put() {
    let atlas = mono_atlas(640);
    let positions: Vec<Pos> = Vec::new();
    let buf: Vec<u8> = Vec::new();
    let r = move_cursor(0, 3, &positions, &buf, &atlas);
    assert_eq!(r, 0);
}

#[test]
fn nearest_tie_resolves_to_the_first_index() {
    let atlas = mono_atlas(640);
    // two positions equidistant from the target made for index 0 moved
    // halfway between them
    let positions = vec![Pos { x: 0, y: 0 }, Pos { x: 0, y: 10 }];
    let buf: Vec<u8> = b"ab".to_vec();
    let r = move_cursor(0, -5, &positions, &buf, &atlas);
    assert_eq!(r, 0);
}
