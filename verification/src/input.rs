//! Raw input decoding: single printable bytes map to logical keys, and the
//! three-byte escape sequences ESC `[` {A,B,C,D} map to the arrow keys.
//! Reading the bytes is the embedding program's job; only the mapping lives
//! here.

use vstd::prelude::*;

use crate::game::Key;

verus! {

/// The outcome of decoding one leading input byte.
#[derive(Clone, Copy, Debug, PartialEq, Eq, Structural)]
pub enum Decoded {
    /// The byte decodes to a key on its own.
    Done(Key),
    /// The byte starts an escape sequence: two more bytes are needed.
    Escape,
    /// The byte is not valid input; it is discarded.
    Invalid,
}

/// The single-byte key map: the movement and action letters, space, and the
/// escape lead byte; any other ASCII byte is passed through as a plain
/// character key, and non-ASCII bytes are invalid.
pub open spec fn decode_single_spec(b: u8) -> Decoded {
    if b == 119 {
        Decoded::Done(Key::Up)
    } else if b == 97 {
        Decoded::Done(Key::Left)
    } else if b == 115 {
        Decoded::Done(Key::Down)
    } else if b == 100 {
        Decoded::Done(Key::Right)
    } else if b == 32 {
        Decoded::Done(Key::Space)
    } else if b == 99 {
        Decoded::Done(Key::Hold)
    } else if b == 122 {
        Decoded::Done(Key::CtrlC)
    } else if b == 112 {
        Decoded::Done(Key::Pause)
    } else if b == 27 {
        Decoded::Escape
    } else if b < 128 {
        Decoded::Done(Key::Char(b as char))
    } else {
        Decoded::Invalid
    }
}

/// The escape-sequence key map: `[` followed by A, B, C or D gives an arrow
/// key; anything else is discarded.
pub open spec fn decode_escape_spec(b1: u8, b2: u8) -> Option<Key> {
    if b1 == 91 && b2 == 65 {
        Some(Key::Up)
    } else if b1 == 91 && b2 == 66 {
        Some(Key::Down)
    } else if b1 == 91 && b2 == 67 {
        Some(Key::Right)
    } else if b1 == 91 && b2 == 68 {
        Some(Key::Left)
    } else {
        None
    }
}

/// Decodes one leading raw input byte.
pub fn decode_single(b: u8) -> (r: Decoded)
    ensures
        r == decode_single_spec(b),
{
    match b {
        119 => Decoded::Done(Key::Up),
        97 => Decoded::Done(Key::Left),
        115 => Decoded::Done(Key::Down),
        100 => Decoded::Done(Key::Right),
        32 => Decoded::Done(Key::Space),
        99 => Decoded::Done(Key::Hold),
        122 => Decoded::Done(Key::CtrlC),
        112 => Decoded::Done(Key::Pause),
        27 => Decoded::Escape,
        _ => {
            if b < 128 {
                Decoded::Done(Key::Char(b as char))
            } else {
                Decoded::Invalid
            }
        },
    }
}

/// Decodes the two bytes that follow an escape lead byte.
pub fn decode_escape(b1: u8, b2: u8) -> (r: Option<Key>)
    ensures
        r == decode_escape_spec(b1, b2),
{
    if b1 == 91 {
        match b2 {
            65 => Some(Key::Up),
            66 => Some(Key::Down),
            67 => Some(Key::Right),
            68 => Some(Key::Left),
            _ => None,
        }
    } else {
        None
    }
}

} // verus!
