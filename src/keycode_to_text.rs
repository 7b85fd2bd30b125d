//! Text editing by key presses: keys to characters, and splicing them into the
//! edited text at the caret.
use vstd::prelude::*;
use crate::canvas::Pos2;

verus! {

/// The caret of an edited text: its character offset from the start, its line
/// offset, and where it was last drawn.
#[derive(Clone, Copy, Debug, PartialEq, Eq)]
pub struct Cursor {
    pub global_chars_offset_from_beginning: usize,
    pub global_lines_offset_from_beginning: usize,
    pub px_coordinates: Pos2,
}

impl Default for Cursor {
    fn default() -> (r: Self)
        ensures
            r == (Cursor {
                global_chars_offset_from_beginning: 0,
                global_lines_offset_from_beginning: 0,
                px_coordinates: (0, 0),
            }),
    {
        Cursor {
            global_chars_offset_from_beginning: 0,
            global_lines_offset_from_beginning: 0,
            px_coordinates: (0, 0),
        }
    }
}

/// A key as the editing logic reads it: a letter by its index from `A`, a digit by
/// its value, the punctuation keys that produce a character, and the control keys.
#[derive(Clone, Copy, Debug, PartialEq, Eq, Structural)]
pub enum Key {
    Letter(u8),
    Digit(u8),
    Space,
    Comma,
    Period,
    Colon,
    Semicolon,
    Apostrophe,
    Backslash,
    Slash,
    LBracket,
    RBracket,
    Asterisk,
    Equals,
    Minus,
    Back,
    Tab,
    Escape,
    Return,
    Other,
}

/// The character a key types, upper case for a letter with shift held.
pub open spec fn key_char(key: Key, shift: bool) -> Option<char> {
    match key {
        Key::Letter(i) => if i < 26 {
            Some(((if shift { 65int } else { 97int }) + i) as char)
        } else {
            None
        },
        Key::Digit(d) => if d <= 9 {
            Some((48 + d) as char)
        } else {
            None
        },
        Key::Space => Some(' '),
        Key::Comma => Some(','),
        Key::Period => Some('.'),
        Key::Colon => Some(':'),
        Key::Semicolon => Some(';'),
        Key::Apostrophe => Some('\''),
        Key::Backslash => Some('\\'),
        Key::Slash => Some('/'),
        Key::LBracket => Some('['),
        Key::RBracket => Some(']'),
        Key::Asterisk => Some('*'),
        Key::Equals => Some('='),
        Key::Minus => Some('-'),
        _ => None,
    }
}

/// Maps a key and the shift state to the character it types, if any.
pub fn virtual_to_char(code: Key, shift: bool) -> (r: Option<char>)
    ensures
        r == key_char(code, shift),
{
    match code {
        Key::Letter(i) => if i < 26 {
            let base: u8 = if shift {
                65
            } else {
                97
            };
            Some((base + i) as char)
        } else {
            None
        },
        Key::Digit(d) => if d <= 9 {
            Some((48 + d) as char)
        } else {
            None
        },
        Key::Space => Some(' '),
        Key::Comma => Some(','),
        Key::Period => Some('.'),
        Key::Colon => Some(':'),
        Key::Semicolon => Some(';'),
        Key::Apostrophe => Some('\''),
        Key::Backslash => Some('\\'),
        Key::Slash => Some('/'),
        Key::LBracket => Some('['),
        Key::RBracket => Some(']'),
        Key::Asterisk => Some('*'),
        Key::Equals => Some('='),
        Key::Minus => Some('-'),
        _ => None,
    }
}

/// The text and caret offset after a key press at `offset`: a typed character is
/// inserted and the caret moves past it; backspace removes the character before
/// the caret and moves it back (at the start nothing is removed); tab inserts four
/// spaces and moves the caret past them; any other key changes nothing.
pub open spec fn edited(content: Seq<char>, offset: int, key: Key, shift: bool) -> (Seq<char>, int) {
    match key_char(key, shift) {
        Some(c) => (content.take(offset).push(c) + content.skip(offset), offset + 1),
        None => if key is Back {
            if offset > 0 {
                (content.take(offset - 1) + content.skip(offset), offset - 1)
            } else {
                (content, 0)
            }
        } else if key is Tab {
            (content.take(offset) + seq![' ', ' ', ' ', ' '] + content.skip(offset), offset + 4)
        } else {
            (content, offset)
        },
    }
}

/// Applies a key press to `content` at the caret of `cursor`.
pub fn handle_keycode_key_press(content: &mut Vec<char>, code: Key, shift: bool, cursor: &mut Cursor)
    requires
        old(cursor).global_chars_offset_from_beginning <= old(content)@.len(),
        old(content)@.len() + 4 <= usize::MAX,
    ensures
        (final(content)@, final(cursor).global_chars_offset_from_beginning as int) == edited(
            old(content)@,
            old(cursor).global_chars_offset_from_beginning as int,
            code,
            shift,
        ),
        final(cursor).global_lines_offset_from_beginning
            == old(cursor).global_lines_offset_from_beginning,
        final(cursor).px_coordinates == old(cursor).px_coordinates,
{
    let offset = cursor.global_chars_offset_from_beginning;
    let ghost before = content@;
    if let Some(c) = virtual_to_char(code, shift) {
        content.insert(offset, c);
        cursor.global_chars_offset_from_beginning = offset + 1;
        assert(content@ =~= before.take(offset as int).push(c) + before.skip(offset as int));
    } else if code == Key::Back {
        if offset > 0 {
            content.remove(offset - 1);
            cursor.global_chars_offset_from_beginning = offset - 1;
            assert(content@ =~= before.take(offset - 1) + before.skip(offset as int));
        }
    } else if code == Key::Tab {
        content.insert(offset, ' ');
        content.insert(offset, ' ');
        content.insert(offset, ' ');
        content.insert(offset, ' ');
        cursor.global_chars_offset_from_beginning = offset + 4;
        assert(content@ =~= before.take(offset as int) + seq![' ', ' ', ' ', ' '] + before.skip(
            offset as int,
        ));
    }
}

} // verus!
