//! The attach client's keyboard translation: one key event becomes the
//! bytes sent to the PTY, and a prefix key arms the detach sequence.
//!
//! The prefix is Ctrl+B: `Ctrl+B d` detaches, `Ctrl+B Ctrl+B` sends one
//! literal 0x02, and any other prefixed key is swallowed.

use vstd::prelude::*;
use vstd::utf8::encode_utf8;

verus! {

/// The keys the attach client distinguishes.
#[derive(Clone, Copy, Debug, PartialEq, Eq, Structural)]
pub enum KeyPress {
    Char(char),
    Enter,
    Backspace,
    Tab,
    Esc,
    Up,
    Down,
    Right,
    Left,
    Home,
    End,
    PageUp,
    PageDown,
    Delete,
    Insert,
    F(u8),
    Other,
}

/// One key event: the key, and whether Control was held.
#[derive(Clone, Copy, Debug, PartialEq, Eq, Structural)]
pub struct KeyInput {
    pub code: KeyPress,
    pub ctrl: bool,
}

/// The byte a Control-chorded character sends: the low byte of the
/// character, shifted so that Ctrl+A is 1 through Ctrl+Z is 26, with
/// 8-bit wraparound.
pub open spec fn ctrl_byte(c: char) -> u8 {
    vstd::wrapping::u8_specs::wrapping_add(
        vstd::wrapping::u8_specs::wrapping_sub((c as u32 % 256) as u8, 97),
        1,
    )
}

/// The bytes one key sends to the PTY, or nothing for keys that have no
/// byte form.
pub open spec fn key_bytes(e: KeyInput) -> Option<Seq<u8>> {
    match e.code {
        KeyPress::Char(c) => if e.ctrl {
            Option::Some(seq![ctrl_byte(c)])
        } else {
            Option::Some(encode_utf8(seq![c]))
        },
        KeyPress::Enter => Option::Some(seq![13u8]),
        KeyPress::Backspace => Option::Some(seq![127u8]),
        KeyPress::Tab => Option::Some(seq![9u8]),
        KeyPress::Esc => Option::Some(seq![27u8]),
        KeyPress::Up => Option::Some(seq![27u8, 91u8, 65u8]),
        KeyPress::Down => Option::Some(seq![27u8, 91u8, 66u8]),
        KeyPress::Right => Option::Some(seq![27u8, 91u8, 67u8]),
        KeyPress::Left => Option::Some(seq![27u8, 91u8, 68u8]),
        KeyPress::Home => Option::Some(seq![27u8, 91u8, 72u8]),
        KeyPress::End => Option::Some(seq![27u8, 91u8, 70u8]),
        KeyPress::PageUp => Option::Some(seq![27u8, 91u8, 53u8, 126u8]),
        KeyPress::PageDown => Option::Some(seq![27u8, 91u8, 54u8, 126u8]),
        KeyPress::Delete => Option::Some(seq![27u8, 91u8, 51u8, 126u8]),
        KeyPress::Insert => Option::Some(seq![27u8, 91u8, 50u8, 126u8]),
        KeyPress::F(n) => fn_key_bytes(n),
        KeyPress::Other => Option::None,
    }
}

/// The escape sequence of a function key, for F1 through F12.
pub open spec fn fn_key_bytes(n: u8) -> Option<Seq<u8>> {
    if n == 1 {
        Option::Some(seq![27u8, 79u8, 80u8])
    } else if n == 2 {
        Option::Some(seq![27u8, 79u8, 81u8])
    } else if n == 3 {
        Option::Some(seq![27u8, 79u8, 82u8])
    } else if n == 4 {
        Option::Some(seq![27u8, 79u8, 83u8])
    } else if n == 5 {
        Option::Some(seq![27u8, 91u8, 49u8, 53u8, 126u8])
    } else if n == 6 {
        Option::Some(seq![27u8, 91u8, 49u8, 55u8, 126u8])
    } else if n == 7 {
        Option::Some(seq![27u8, 91u8, 49u8, 56u8, 126u8])
    } else if n == 8 {
        Option::Some(seq![27u8, 91u8, 49u8, 57u8, 126u8])
    } else if n == 9 {
        Option::Some(seq![27u8, 91u8, 50u8, 48u8, 126u8])
    } else if n == 10 {
        Option::Some(seq![27u8, 91u8, 50u8, 49u8, 126u8])
    } else if n == 11 {
        Option::Some(seq![27u8, 91u8, 50u8, 51u8, 126u8])
    } else if n == 12 {
        Option::Some(seq![27u8, 91u8, 50u8, 52u8, 126u8])
    } else {
        Option::None
    }
}

/// Relies on `char::encode_utf8`: the UTF-8 bytes of one character.
#[verifier::external_body]
fn char_utf8_bytes(c: char) -> (r: Vec<u8>)
    ensures
        r@ == encode_utf8(seq![c]),
{
    let mut buf = [0u8; 4];
    c.encode_utf8(&mut buf).as_bytes().to_vec()
}

fn bytes_of(parts: &[u8]) -> (r: Vec<u8>)
    ensures
        r@ == parts@,
{
    vstd::slice::slice_to_vec(parts)
}

/// Translate one key event to the bytes it sends.
pub fn key_to_bytes(event: KeyInput) -> (r: Option<Vec<u8>>)
    ensures
        ({
            match key_bytes(event) {
                Option::Some(bs) => r matches Some(v) && v@ == bs,
                Option::None => r is None,
            }
        }),
{
    match event.code {
        KeyPress::Char(c) => {
            if event.ctrl {
                let code = c as u32;
                let low = (code % 256) as u8;
                let ctrl = low.wrapping_sub(97).wrapping_add(1);
                let mut v: Vec<u8> = Vec::new();
                v.push(ctrl);
                proof {
                    assert(v@ =~= seq![ctrl_byte(c)]);
                }
                Some(v)
            } else {
                Some(char_utf8_bytes(c))
            }
        },
        KeyPress::Enter => Some(bytes_of(&[13u8])),
        KeyPress::Backspace => Some(bytes_of(&[127u8])),
        KeyPress::Tab => Some(bytes_of(&[9u8])),
        KeyPress::Esc => Some(bytes_of(&[27u8])),
        KeyPress::Up => Some(bytes_of(&[27u8, 91u8, 65u8])),
        KeyPress::Down => Some(bytes_of(&[27u8, 91u8, 66u8])),
        KeyPress::Right => Some(bytes_of(&[27u8, 91u8, 67u8])),
        KeyPress::Left => Some(bytes_of(&[27u8, 91u8, 68u8])),
        KeyPress::Home => Some(bytes_of(&[27u8, 91u8, 72u8])),
        KeyPress::End => Some(bytes_of(&[27u8, 91u8, 70u8])),
        KeyPress::PageUp => Some(bytes_of(&[27u8, 91u8, 53u8, 126u8])),
        KeyPress::PageDown => Some(bytes_of(&[27u8, 91u8, 54u8, 126u8])),
        KeyPress::Delete => Some(bytes_of(&[27u8, 91u8, 51u8, 126u8])),
        KeyPress::Insert => Some(bytes_of(&[27u8, 91u8, 50u8, 126u8])),
        KeyPress::F(n) => {
            if n == 1 {
                Some(bytes_of(&[27u8, 79u8, 80u8]))
            } else if n == 2 {
                Some(bytes_of(&[27u8, 79u8, 81u8]))
            } else if n == 3 {
                Some(bytes_of(&[27u8, 79u8, 82u8]))
            } else if n == 4 {
                Some(bytes_of(&[27u8, 79u8, 83u8]))
            } else if n == 5 {
                Some(bytes_of(&[27u8, 91u8, 49u8, 53u8, 126u8]))
            } else if n == 6 {
                Some(bytes_of(&[27u8, 91u8, 49u8, 55u8, 126u8]))
            } else if n == 7 {
                Some(bytes_of(&[27u8, 91u8, 49u8, 56u8, 126u8]))
            } else if n == 8 {
                Some(bytes_of(&[27u8, 91u8, 49u8, 57u8, 126u8]))
            } else if n == 9 {
                Some(bytes_of(&[27u8, 91u8, 50u8, 48u8, 126u8]))
            } else if n == 10 {
                Some(bytes_of(&[27u8, 91u8, 50u8, 49u8, 126u8]))
            } else if n == 11 {
                Some(bytes_of(&[27u8, 91u8, 50u8, 51u8, 126u8]))
            } else if n == 12 {
                Some(bytes_of(&[27u8, 91u8, 50u8, 52u8, 126u8]))
            } else {
                None
            }
        },
        KeyPress::Other => None,
    }
}

/// What a handled key asks the attach client to do.
pub enum KeyAction {
    /// Send the detach message and leave attach mode.
    Detach,
    /// Transmit these bytes as input.
    SendBytes(Vec<u8>),
}

/// Whether this event is the Ctrl+B prefix key.
pub open spec fn is_prefix_key(e: KeyInput) -> bool {
    e.ctrl && e.code == KeyPress::Char('b')
}

/// Handle one key event, tracking the Ctrl+B prefix: the first Ctrl+B
/// arms the prefix and is swallowed; an armed `d` detaches; an armed
/// Ctrl+B sends a literal 0x02; any other armed key is swallowed; an
/// unarmed key sends its bytes.
pub fn handle_key(event: KeyInput, prefix_pending: &mut bool) -> (r: Option<KeyAction>)
    ensures
        ({
            if is_prefix_key(event) {
                if !*old(prefix_pending) {
                    *final(prefix_pending) && r is None
                } else {
                    !*final(prefix_pending) && (r matches Some(a)
                        && a matches KeyAction::SendBytes(v) && v@ == seq![2u8])
                }
            } else if *old(prefix_pending) {
                !*final(prefix_pending) && (if event.code == KeyPress::Char('d') || event.code
                    == KeyPress::Char('D') {
                    r matches Some(a) && a is Detach
                } else {
                    r is None
                })
            } else {
                !*final(prefix_pending) && (match key_bytes(event) {
                    Option::Some(bs) => r matches Some(a) && a matches KeyAction::SendBytes(v)
                        && v@ == bs,
                    Option::None => r is None,
                })
            }
        }),
{
    let is_prefix = event.ctrl && matches_char(event.code, 'b');
    if is_prefix {
        if !*prefix_pending {
            *prefix_pending = true;
            return None;
        }
        *prefix_pending = false;
        let lit = bytes_of(&[2u8]);
        return Some(KeyAction::SendBytes(lit));
    }
    if *prefix_pending {
        *prefix_pending = false;
        if matches_char(event.code, 'd') || matches_char(event.code, 'D') {
            return Some(KeyAction::Detach);
        }
        return None;
    }
    match key_to_bytes(event) {
        Some(bytes) => Some(KeyAction::SendBytes(bytes)),
        None => None,
    }
}

fn matches_char(code: KeyPress, c: char) -> (r: bool)
    ensures
        r == (code == KeyPress::Char(c)),
{
    match code {
        KeyPress::Char(x) => x == c,
        _ => false,
    }
}

} // verus!
