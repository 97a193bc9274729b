//! Keys: the codes that the interpreter reads them as, and the keys that end a line.

use crate::session::GameSession;
use vstd::prelude::*;

verus! {

/// A key that the player pressed.
#[derive(Clone, Copy, Debug, PartialEq, Eq, Structural)]
pub enum KeyInput {
    Enter,
    Backspace,
    Escape,
    Up,
    Down,
    Left,
    Right,
    Home,
    End,
    PageUp,
    PageDown,
    Delete,
    Tab,
    /// A function key, counted from one.
    Func(u8),
    Char(char),
}

/// The code for a click of the mouse.
pub const SINGLE_CLICK: u8 = 254;

/// The code that the interpreter reads a key as, if it has one.
pub open spec fn zscii_of(key: KeyInput) -> Option<u8> {
    match key {
        KeyInput::Enter => Some(13),
        KeyInput::Backspace => Some(8),
        KeyInput::Escape => Some(27),
        KeyInput::Up => Some(129),
        KeyInput::Down => Some(130),
        KeyInput::Left => Some(131),
        KeyInput::Right => Some(132),
        KeyInput::Func(n) => Some(
            if 132 + n > 255 {
                255
            } else {
                (132 + n) as u8
            },
        ),
        KeyInput::Char(c) => if (c as u32) < 128 {
            Some(c as u8)
        } else {
            None
        },
        _ => None,
    }
}

/// Whether a key may end a line at all: the arrows and the function keys.
pub open spec fn may_end_a_line(key: KeyInput) -> bool {
    key is Up || key is Down || key is Left || key is Right || key is Func
}

impl GameSession {
    /// Finds the code that the interpreter reads a key as. A key without one is no turn.
    pub fn key_input_to_zscii(key: KeyInput) -> (r: Option<u8>)
        ensures
            r == zscii_of(key),
    {
        match key {
            KeyInput::Enter => Some(13),
            KeyInput::Backspace => Some(8),
            KeyInput::Escape => Some(27),
            KeyInput::Up => Some(129),
            KeyInput::Down => Some(130),
            KeyInput::Left => Some(131),
            KeyInput::Right => Some(132),
            KeyInput::Func(n) => if n > 123 {
                Some(255)
            } else {
                Some(132 + n)
            },
            KeyInput::Char(c) => if (c as u32) < 128 {
                Some(c as u8)
            } else {
                None
            },
            _ => None,
        }
    }

    /// Whether a character ends a line, by the game's own table.
    pub fn is_terminator(&self, ch: u16) -> (r: bool)
        ensures
            r == self.machine.terminators@.contains(ch),
    {
        self.machine.is_terminator(ch)
    }

    /// Whether the story asks for the mouse.
    pub fn wants_mouse(&self) -> (r: bool)
        ensures
            r == self.machine.asks_for_mouse(),
    {
        self.machine.flags2 & 0x20 != 0
    }

    /// The code to end the line with when the player clicks, where the story wants the mouse
    /// and lists a click among the characters that end a line. Otherwise a click never
    /// submits a part of a command.
    pub fn mouse_click_terminator(&self) -> (r: Option<u8>)
        ensures
            r == (if self.machine.asks_for_mouse() && self.machine.terminators@.contains(SINGLE_CLICK as u16) {
                Some(SINGLE_CLICK)
            } else {
                None
            }),
    {
        if self.wants_mouse() && self.is_terminator(SINGLE_CLICK as u16) {
            Some(SINGLE_CLICK)
        } else {
            None
        }
    }

    /// The code to end the line with when a key is pressed while a line is read, where the
    /// game lists the key. Enter and the keys that type are never among them.
    pub fn line_key_terminator(&self, ki: &KeyInput) -> (r: Option<u8>)
        ensures
            r == (match zscii_of(*ki) {
                Some(z) => if may_end_a_line(*ki) && self.machine.terminators@.contains(z as u16) {
                    Some(z)
                } else {
                    None
                },
                None => None,
            }),
    {
        match *ki {
            KeyInput::Up => {},
            KeyInput::Down => {},
            KeyInput::Left => {},
            KeyInput::Right => {},
            KeyInput::Func(_) => {},
            _ => {
                return None;
            },
        }
        match GameSession::key_input_to_zscii(*ki) {
            Some(z) => if self.is_terminator(z as u16) {
                Some(z)
            } else {
                None
            },
            None => None,
        }
    }
}

// ── Laws ──────────────────────────────────────────────────────────────────────
/// A key that types has the code of its character, and no key that types has a code above
/// those of ASCII.
pub proof fn a_typing_key_has_its_own_code(c: char)
    ensures
        (c as u32) < 128 ==> (zscii_of(KeyInput::Char(c)) matches Some(z) && z as u32 == c as u32),
        (c as u32) >= 128 ==> zscii_of(KeyInput::Char(c)) is None,
{
}

/// The arrows have codes of their own in the order up, down, left, right, from 129 on; the
/// function keys follow in their order; enter, backspace and escape have those of ASCII; and
/// the other keys have none.
pub proof fn the_codes_of_the_keys(n: u8)
    ensures
        zscii_of(KeyInput::Up) == Some(129u8),
        zscii_of(KeyInput::Down) == Some(130u8),
        zscii_of(KeyInput::Left) == Some(131u8),
        zscii_of(KeyInput::Right) == Some(132u8),
        n <= 123 ==> (zscii_of(KeyInput::Func(n)) matches Some(z) && z == 132 + n),
        n > 123 ==> zscii_of(KeyInput::Func(n)) == Some(255u8),
        zscii_of(KeyInput::Enter) == Some(13u8),
        zscii_of(KeyInput::Backspace) == Some(8u8),
        zscii_of(KeyInput::Escape) == Some(27u8),
        zscii_of(KeyInput::Home) is None,
        zscii_of(KeyInput::End) is None,
        zscii_of(KeyInput::PageUp) is None,
        zscii_of(KeyInput::PageDown) is None,
        zscii_of(KeyInput::Delete) is None,
        zscii_of(KeyInput::Tab) is None,
{
}

/// A key that ends a line is an arrow or a function key: none that types and none of enter,
/// backspace and escape ever is.
pub proof fn a_key_that_types_ends_no_line(key: KeyInput)
    ensures
        key is Char || key is Enter || key is Backspace || key is Escape || key is Tab || key
            is Delete ==> !may_end_a_line(key),
        key is Up || key is Down || key is Left || key is Right || key is Func ==> may_end_a_line(
            key,
        ),
{
}

} // verus!
