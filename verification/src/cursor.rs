//! The cursor model: a logical index into the character buffer, moved
//! vertically by nearest-glyph hit-testing and kept in step with edits.

use vstd::prelude::*;

use crate::atlas::Atlas;
use crate::command::{decode_key, decode_text, key_command, text_command, ControlCommand,
    KeyCommand, TextCommand, BACKSPACE_CODE, NUM_ASCII_CHARS};
use crate::geom::{dist2, views, IntPos, Pos};
use crate::layout::{backspace_edit, lemma_backspace_undoes_insert, LayoutEnv, MAX_TEXT_LEN};

verus! {

/// Largest coordinate magnitude accepted by the hit-test, so squared
/// distances fit in `i128`. Far above anything layout can produce.
pub const MAX_CURSOR_COORD: i64 = 0x1000_0000_0000_0000;

/// The point the vertical cursor move aims at: the position of the
/// character at `index` — or, one past the end, the last character's
/// position advanced by its glyph advance — shifted down by `offset`.
pub open spec fn cursor_target(
    index: int,
    offset: int,
    ps: Seq<IntPos>,
    buffer: Seq<u8>,
    advances: Seq<crate::glyph::FixedVector>,
) -> IntPos {
    if index == ps.len() {
        let last = ps[index - 1];
        let adv = match text_command(buffer[index - 1]) {
            TextCommand::Char(g) => advances[g as int].x / 64,
            _ => 0int,
        };
        IntPos { x: last.x + adv, y: last.y - offset }
    } else {
        IntPos { x: ps[index].x, y: ps[index].y - offset }
    }
}

/// The squared distance between two positions, in `i128` so any bounded
/// coordinates fit.
fn dist2_exec(a: Pos, b: Pos) -> (r: i128)
    requires
        -2 * MAX_CURSOR_COORD <= a.x <= 2 * MAX_CURSOR_COORD,
        -2 * MAX_CURSOR_COORD <= a.y <= 2 * MAX_CURSOR_COORD,
        -2 * MAX_CURSOR_COORD <= b.x <= 2 * MAX_CURSOR_COORD,
        -2 * MAX_CURSOR_COORD <= b.y <= 2 * MAX_CURSOR_COORD,
    ensures
        r == dist2(a@, b@),
{
    let dx = a.x as i128 - b.x as i128;
    let dy = a.y as i128 - b.y as i128;
    proof {
        assert(dx * dx + dy * dy < i128::MAX && 0 <= dx * dx && 0 <= dy * dy)
            by (nonlinear_arith)
            requires
                -4 * MAX_CURSOR_COORD <= dx <= 4 * MAX_CURSOR_COORD,
                -4 * MAX_CURSOR_COORD <= dy <= 4 * MAX_CURSOR_COORD,
        ;
    }
    dx * dx + dy * dy
}

/// Moves the cursor vertically by `offset` pixels: hit-tests the target
/// point against every recorded character position and returns the index
/// of the nearest one, the first such index on a tie. With no positions at
/// all the cursor stays where it is; otherwise the result always addresses
/// a recorded position, never an out-of-range index.
pub fn move_cursor(
    index: usize,
    offset: i64,
    char_positions: &Vec<Pos>,
    buffer: &Vec<u8>,
    atlas: &Atlas,
) -> (r: usize)
    requires
        atlas.wf(),
        atlas.advances@.len() == NUM_ASCII_CHARS as int,
        buffer@.len() == char_positions@.len(),
        index <= char_positions@.len(),
        forall|k: int|
            0 <= k < char_positions@.len() ==> {
                &&& -MAX_CURSOR_COORD <= (#[trigger] char_positions@[k]).x <= MAX_CURSOR_COORD
                &&& -MAX_CURSOR_COORD <= char_positions@[k].y <= MAX_CURSOR_COORD
            },
        -MAX_CURSOR_COORD <= offset <= MAX_CURSOR_COORD,
    ensures
        char_positions@.len() == 0 ==> r == index,
        char_positions@.len() > 0 ==> r < char_positions@.len(),
        char_positions@.len() > 0 ==> ({
            let t = cursor_target(
                index as int,
                offset as int,
                views(char_positions@),
                buffer@,
                atlas.advances@,
            );
            &&& forall|k: int|
                0 <= k < char_positions@.len() ==> dist2(t, views(char_positions@)[k]) >= dist2(
                    t,
                    views(char_positions@)[r as int],
                )
            &&& forall|k: int|
                0 <= k < r ==> dist2(t, views(char_positions@)[k]) > dist2(
                    t,
                    views(char_positions@)[r as int],
                )
        }),
{
    let len = char_positions.len();
    if len == 0 {
        return index;
    }
    let ghost t = cursor_target(
        index as int,
        offset as int,
        views(char_positions@),
        buffer@,
        atlas.advances@,
    );
    let target = if index == len {
        let p = char_positions[index - 1];
        let adv = match decode_text(buffer[index - 1]) {
            TextCommand::Char(g) => atlas.get_advance(g),
            _ => 0,
        };
        Pos { x: p.x + adv, y: p.y - offset }
    } else {
        let p = char_positions[index];
        Pos { x: p.x, y: p.y - offset }
    };
    proof {
        assert(target@ == t);
    }
    let mut best: usize = 0;
    let mut best_d = dist2_exec(target, char_positions[0]);
    for k in 1..len
        invariant
            len == char_positions@.len(),
            0 < len,
            best < k <= len,
            forall|j: int|
                0 <= j < char_positions@.len() ==> {
                    &&& -MAX_CURSOR_COORD <= (#[trigger] char_positions@[j]).x
                        <= MAX_CURSOR_COORD
                    &&& -MAX_CURSOR_COORD <= char_positions@[j].y <= MAX_CURSOR_COORD
                },
            -2 * MAX_CURSOR_COORD <= target.x <= 2 * MAX_CURSOR_COORD,
            -2 * MAX_CURSOR_COORD <= target.y <= 2 * MAX_CURSOR_COORD,
            target@ == t,
            best_d == dist2(t, views(char_positions@)[best as int]),
            forall|j: int| 0 <= j < k ==> dist2(t, views(char_positions@)[j]) >= best_d,
            forall|j: int| 0 <= j < best ==> dist2(t, views(char_positions@)[j]) > best_d,
    {
        let d = dist2_exec(target, char_positions[k]);
        if d < best_d {
            best = k;
            best_d = d;
        }
    }
    best
}

/// Applies one key press to the buffer and cursor, as the input boundary
/// does: a text command is inserted at the cursor (the following layout
/// pass resolves an inserted backspace), moving the cursor right — or left
/// for a backspace; horizontal direction codes move the cursor without
/// touching the buffer; vertical direction codes are returned to the
/// caller, which hit-tests with [`move_cursor`] and re-lays out. Returns
/// the commands the caller still has work for.
pub fn handle_char(code: u8, index: &mut usize, buffer: &mut Vec<u8>) -> (r: Option<KeyCommand>)
    requires
        !(key_command(code) is Unknown),
        *old(index) <= old(buffer)@.len(),
        key_command(code) is TC ==> old(buffer)@.len() < MAX_TEXT_LEN,
    ensures
        *final(index) <= final(buffer)@.len(),
        match key_command(code) {
            KeyCommand::TC(t) => {
                &&& final(buffer)@ == old(buffer)@.insert(*old(index) as int, code)
                &&& r == Some(KeyCommand::TC(t))
                &&& (t is Char || t is Newline) ==> *final(index) == *old(index) + 1
                &&& t is Backspace ==> *final(index) == (if *old(index) > 0 {
                    *old(index) - 1
                } else {
                    0int
                })
            },
            KeyCommand::CC(c) => {
                &&& final(buffer)@ == old(buffer)@
                &&& match c {
                    ControlCommand::Direction(d) => if d == 0 || d == 1 {
                        &&& r == Some(KeyCommand::CC(ControlCommand::Direction(d)))
                        &&& *final(index) == *old(index)
                    } else if d == 2 {
                        &&& r is None
                        &&& *final(index) == (if *old(index) > 0 {
                            *old(index) - 1
                        } else {
                            0int
                        })
                    } else {
                        &&& r is None
                        &&& *final(index) == (if old(buffer)@.len() > 0 {
                            if *old(index) + 1 < old(buffer)@.len() {
                                *old(index) + 1
                            } else {
                                old(buffer)@.len() - 1
                            }
                        } else {
                            0int
                        })
                    },
                    ControlCommand::Unknown => false,
                }
            },
            KeyCommand::Unknown => false,
        },
{
    match decode_key(code) {
        KeyCommand::TC(t) => {
            if *index == buffer.len() {
                buffer.push(code);
                proof {
                    assert(buffer@ =~= old(buffer)@.insert(*old(index) as int, code));
                }
            } else {
                buffer.insert(*index, code);
            }
            match t {
                TextCommand::Backspace => {
                    if *index > 0 {
                        *index = *index - 1;
                    }
                },
                _ => {
                    *index = *index + 1;
                },
            }
            Some(KeyCommand::TC(t))
        },
        KeyCommand::CC(c) => {
            match c {
                ControlCommand::Direction(d) => {
                    if d == 0 || d == 1 {
                        Some(KeyCommand::CC(ControlCommand::Direction(d)))
                    } else if d == 2 {
                        if *index > 0 {
                            *index = *index - 1;
                        }
                        None
                    } else {
                        if buffer.len() > 0 {
                            if *index < buffer.len() - 1 {
                                *index = *index + 1;
                            } else {
                                *index = buffer.len() - 1;
                            }
                        } else {
                            *index = 0;
                        }
                        None
                    }
                },
                ControlCommand::Unknown => {
                    proof {
                        assert(false);
                    }
                    None
                },
            }
        },
        KeyCommand::Unknown => {
            proof {
                assert(false);
            }
            None
        },
    }
}

/// The buffer and cursor after typing the codes of `cs` in order, each
/// inserted at the cursor as [`handle_char`] does.
pub open spec fn insert_all(buf: Seq<u8>, idx: int, cs: Seq<u8>) -> (Seq<u8>, int)
    decreases cs.len(),
{
    if cs.len() == 0 {
        (buf, idx)
    } else {
        let prev = insert_all(buf, idx, cs.drop_last());
        (prev.0.insert(prev.1, cs.last()), prev.1 + 1)
    }
}

/// The buffer and cursor after `n` backspace keystrokes, each inserted at
/// the cursor and resolved by the following layout pass's removal.
pub open spec fn backspace_all(buf: Seq<u8>, idx: int, n: int, env: LayoutEnv) -> (Seq<u8>, int)
    decreases n,
{
    if n <= 0 {
        (buf, idx)
    } else {
        let one = backspace_edit(buf, idx, env);
        backspace_all(one.0, one.1, n - 1, env)
    }
}

/// Typing leaves the cursor right after the typed run, grows the buffer by
/// one per code, and introduces no backspace when none is typed.
proof fn lemma_insert_all_shape(buf: Seq<u8>, idx: int, cs: Seq<u8>)
    requires
        0 <= idx <= buf.len(),
        forall|j: int| 0 <= j < buf.len() ==> !((#[trigger] text_command(buf[j])) is Backspace),
        forall|j: int| 0 <= j < cs.len() ==> !((#[trigger] text_command(cs[j])) is Backspace),
    ensures
        insert_all(buf, idx, cs).1 == idx + cs.len(),
        insert_all(buf, idx, cs).0.len() == buf.len() + cs.len(),
        forall|j: int|
            0 <= j < insert_all(buf, idx, cs).0.len() ==> !((#[trigger] text_command(
                insert_all(buf, idx, cs).0[j],
            )) is Backspace),
    decreases cs.len(),
{
    if cs.len() > 0 {
        lemma_insert_all_shape(buf, idx, cs.drop_last());
        let prev = insert_all(buf, idx, cs.drop_last());
        prev.0.insert_ensures(prev.1, cs.last());
        assert forall|j: int| 0 <= j < insert_all(buf, idx, cs).0.len() implies !((
        #[trigger] text_command(insert_all(buf, idx, cs).0[j])) is Backspace) by {
            if j < prev.1 {
                assert(insert_all(buf, idx, cs).0[j] == prev.0[j]);
            } else if j == prev.1 {
                assert(insert_all(buf, idx, cs).0[j] == cs.last());
            } else {
                assert(insert_all(buf, idx, cs).0[j] == prev.0[j - 1]);
            }
        }
    }
}

/// Backspace round trip: typing `N` characters at the cursor and then
/// issuing `N` backspaces returns the buffer to its original (possibly
/// empty) contents and the cursor to its original index, whatever the
/// layout environment resolving each backspace.
pub proof fn lemma_backspace_round_trip(buf: Seq<u8>, idx: int, cs: Seq<u8>, env: LayoutEnv)
    requires
        0 <= idx <= buf.len(),
        forall|j: int| 0 <= j < buf.len() ==> !((#[trigger] text_command(buf[j])) is Backspace),
        forall|j: int| 0 <= j < cs.len() ==> !((#[trigger] text_command(cs[j])) is Backspace),
    ensures
        backspace_all(
            insert_all(buf, idx, cs).0,
            insert_all(buf, idx, cs).1,
            cs.len() as int,
            env,
        ) == (buf, idx),
    decreases cs.len(),
{
    if cs.len() > 0 {
        let prev = insert_all(buf, idx, cs.drop_last());
        let cur = insert_all(buf, idx, cs);
        lemma_insert_all_shape(buf, idx, cs.drop_last());
        assert(!(text_command(cs.last()) is Backspace));
        lemma_backspace_undoes_insert(prev.0, prev.1, cs.last(), env);
        assert(backspace_edit(cur.0, cur.1, env) == (prev.0, prev.1));
        lemma_backspace_round_trip(buf, idx, cs.drop_last(), env);
    }
}

} // verus!
