//! The supported character range and the tagged decoding of raw codes.
//!
//! Key input and buffer contents share one single-byte code space. Codes are
//! decoded once, at this boundary, into a tagged command; nothing downstream
//! re-inspects raw integers.

use vstd::prelude::*;

verus! {

/// First character code of the supported printable range (ASCII space).
pub const ASCII_START: u8 = 32;

/// Number of character codes in the supported printable range.
pub const NUM_ASCII_CHARS: u8 = 96;

/// Control code for backspace (ASCII DEL, as keyboards send it).
pub const BACKSPACE_CODE: u8 = 127;

/// Control code for a line break (carriage return, as keyboards send it).
pub const NEWLINE_CODE: u8 = 13;

/// What one buffer code means to the layout engine. `Char` carries the
/// glyph table index, `code - ASCII_START`.
#[derive(Clone, Copy, Debug, PartialEq, Eq, Structural)]
pub enum TextCommand {
    Char(usize),
    Backspace,
    Newline,
    Unknown,
}

/// A cursor-movement command that never enters the buffer. `Direction`
/// carries the raw direction code: 0 and 1 are vertical (up, down), 2 and 3
/// are horizontal (left, right).
#[derive(Clone, Copy, Debug, PartialEq, Eq, Structural)]
pub enum ControlCommand {
    Direction(u8),
    Unknown,
}

/// A decoded key press: either a buffer edit or a cursor movement.
#[derive(Clone, Copy, Debug, PartialEq, Eq, Structural)]
pub enum KeyCommand {
    TC(TextCommand),
    CC(ControlCommand),
    Unknown,
}

/// What a buffer code decodes to.
pub open spec fn text_command(code: u8) -> TextCommand {
    if code == BACKSPACE_CODE {
        TextCommand::Backspace
    } else if ASCII_START <= code && code < ASCII_START + NUM_ASCII_CHARS {
        TextCommand::Char((code - ASCII_START) as usize)
    } else if code == NEWLINE_CODE {
        TextCommand::Newline
    } else {
        TextCommand::Unknown
    }
}

/// What a key code decodes to: text commands first, then direction codes.
pub open spec fn key_command(code: u8) -> KeyCommand {
    match text_command(code) {
        TextCommand::Unknown => if code <= 3 {
            KeyCommand::CC(ControlCommand::Direction(code))
        } else {
            KeyCommand::Unknown
        },
        t => KeyCommand::TC(t),
    }
}

/// Whether a code is whitespace for word-wrap purposes (the ASCII
/// whitespace codes: tab through carriage return, and space).
pub open spec fn is_ws(code: u8) -> bool {
    code == 32 || (9 <= code && code <= 13)
}

/// Decodes one buffer code into its text command.
pub fn decode_text(code: u8) -> (t: TextCommand)
    ensures
        t == text_command(code),
{
    if code == BACKSPACE_CODE {
        TextCommand::Backspace
    } else if ASCII_START <= code && code <= 127 {
        TextCommand::Char((code - ASCII_START) as usize)
    } else if code == NEWLINE_CODE {
        TextCommand::Newline
    } else {
        TextCommand::Unknown
    }
}

/// Decodes one key code into a key command.
pub fn decode_key(code: u8) -> (k: KeyCommand)
    ensures
        k == key_command(code),
{
    match decode_text(code) {
        TextCommand::Unknown => if code <= 3 {
            KeyCommand::CC(ControlCommand::Direction(code))
        } else {
            KeyCommand::Unknown
        },
        t => KeyCommand::TC(t),
    }
}

/// Whether a code is whitespace for word-wrap purposes.
pub fn is_whitespace(code: u8) -> (r: bool)
    ensures
        r == is_ws(code),
{
    code == 32 || (9 <= code && code <= 13)
}

/// The glyph table index of a code known to be in the printable range.
pub fn char_to_index(code: u8) -> (index: usize)
    requires
        ASCII_START <= code < ASCII_START + NUM_ASCII_CHARS,
    ensures
        index == code - ASCII_START,
{
    (code - ASCII_START) as usize
}

/// The glyph table index of a code, or `None` for a code outside the
/// supported printable range.
pub fn char_to_index_checked(code: u8) -> (index: Option<usize>)
    ensures
        match index {
            Some(i) => ASCII_START <= code < ASCII_START + NUM_ASCII_CHARS && i == code
                - ASCII_START,
            None => code < ASCII_START || code >= ASCII_START + NUM_ASCII_CHARS,
        },
{
    if ASCII_START <= code && code <= 127 {
        Some((code - ASCII_START) as usize)
    } else {
        None
    }
}

} // verus!
