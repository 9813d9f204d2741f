//! Decoding of PS/2 scancodes (set 1) and serial bytes into line-editing
//! events, and what each event does to the line editor.
use vstd::prelude::*;
use crate::input::{bounded_push, InputBuffer, MAX_HISTORY, MAX_LINE_LEN, MAX_QUEUE_DEPTH};

verus! {

/// A key press the line editor understands.
#[derive(Debug, Clone, Copy, PartialEq, Eq, Structural)]
pub enum KeyEvent {
    Char(char),
    Backspace,
    Enter,
}

/// The letter a scancode-set-1 make code stands for.
pub open spec fn letter_of(scancode: u8) -> Option<char> {
    if scancode == 0x10 { Some('q') }
    else if scancode == 0x11 { Some('w') }
    else if scancode == 0x12 { Some('e') }
    else if scancode == 0x13 { Some('r') }
    else if scancode == 0x14 { Some('t') }
    else if scancode == 0x15 { Some('y') }
    else if scancode == 0x16 { Some('u') }
    else if scancode == 0x17 { Some('i') }
    else if scancode == 0x18 { Some('o') }
    else if scancode == 0x19 { Some('p') }
    else if scancode == 0x1E { Some('a') }
    else if scancode == 0x1F { Some('s') }
    else if scancode == 0x20 { Some('d') }
    else if scancode == 0x21 { Some('f') }
    else if scancode == 0x22 { Some('g') }
    else if scancode == 0x23 { Some('h') }
    else if scancode == 0x24 { Some('j') }
    else if scancode == 0x25 { Some('k') }
    else if scancode == 0x26 { Some('l') }
    else if scancode == 0x2C { Some('z') }
    else if scancode == 0x2D { Some('x') }
    else if scancode == 0x2E { Some('c') }
    else if scancode == 0x2F { Some('v') }
    else if scancode == 0x30 { Some('b') }
    else if scancode == 0x31 { Some('n') }
    else if scancode == 0x32 { Some('m') }
    else { None }
}

/// The event a scancode-set-1 code stands for: releases (high bit set) and
/// keys other than a–z, 0–9, space, Enter and Backspace give none.
pub open spec fn scancode_event(scancode: u8) -> Option<KeyEvent> {
    if scancode >= 0x80 {
        None
    } else if 0x02 <= scancode <= 0x0A {
        Some(KeyEvent::Char((('1' as u32) + (scancode - 0x02)) as char))
    } else if scancode == 0x0B {
        Some(KeyEvent::Char('0'))
    } else if scancode == 0x39 {
        Some(KeyEvent::Char(' '))
    } else if scancode == 0x1C {
        Some(KeyEvent::Enter)
    } else if scancode == 0x0E {
        Some(KeyEvent::Backspace)
    } else {
        match letter_of(scancode) {
            Some(c) => Some(KeyEvent::Char(c)),
            None => None,
        }
    }
}

/// Translates a scancode-set-1 code into a line-editing event.
pub fn scancode_to_event(scancode: u8) -> (r: Option<KeyEvent>)
    ensures
        r == scancode_event(scancode),
{
    if scancode & 0x80 != 0 {
        assert(scancode & 0x80 != 0 ==> scancode >= 0x80) by (bit_vector);
        return None;
    }
    assert(scancode & 0x80 == 0 ==> scancode < 0x80) by (bit_vector);
    let event = match scancode {
        0x02..=0x0A => KeyEvent::Char(('1' as u8 + (scancode - 0x02)) as char),
        0x0B => KeyEvent::Char('0'),
        0x10 => KeyEvent::Char('q'),
        0x11 => KeyEvent::Char('w'),
        0x12 => KeyEvent::Char('e'),
        0x13 => KeyEvent::Char('r'),
        0x14 => KeyEvent::Char('t'),
        0x15 => KeyEvent::Char('y'),
        0x16 => KeyEvent::Char('u'),
        0x17 => KeyEvent::Char('i'),
        0x18 => KeyEvent::Char('o'),
        0x19 => KeyEvent::Char('p'),
        0x1E => KeyEvent::Char('a'),
        0x1F => KeyEvent::Char('s'),
        0x20 => KeyEvent::Char('d'),
        0x21 => KeyEvent::Char('f'),
        0x22 => KeyEvent::Char('g'),
        0x23 => KeyEvent::Char('h'),
        0x24 => KeyEvent::Char('j'),
        0x25 => KeyEvent::Char('k'),
        0x26 => KeyEvent::Char('l'),
        0x2C => KeyEvent::Char('z'),
        0x2D => KeyEvent::Char('x'),
        0x2E => KeyEvent::Char('c'),
        0x2F => KeyEvent::Char('v'),
        0x30 => KeyEvent::Char('b'),
        0x31 => KeyEvent::Char('n'),
        0x32 => KeyEvent::Char('m'),
        0x39 => KeyEvent::Char(' '),
        0x1C => KeyEvent::Enter,
        0x0E => KeyEvent::Backspace,
        _ => return None,
    };
    Some(event)
}

/// Every letter key of scancode set 1 types its own letter: the make codes
/// 0x10..=0x19 are the top row `qwertyuiop`, 0x1E..=0x26 the home row
/// `asdfghjkl`, 0x2C..=0x32 the bottom row `zxcvbnm`, and 0x02..=0x0B the
/// digit row `1234567890`, each read left to right.
pub proof fn lemma_keyboard_rows()
    ensures
        forall|k: int| 0 <= k < 10 ==> #[trigger] scancode_event((0x10 + k) as u8)
            == Some(KeyEvent::Char("qwertyuiop"@[k])),
        forall|k: int| 0 <= k < 9 ==> #[trigger] scancode_event((0x1E + k) as u8)
            == Some(KeyEvent::Char("asdfghjkl"@[k])),
        forall|k: int| 0 <= k < 7 ==> #[trigger] scancode_event((0x2C + k) as u8)
            == Some(KeyEvent::Char("zxcvbnm"@[k])),
        forall|k: int| 0 <= k < 10 ==> #[trigger] scancode_event((0x02 + k) as u8)
            == Some(KeyEvent::Char("1234567890"@[k])),
{
    reveal_strlit("qwertyuiop");
    reveal_strlit("asdfghjkl");
    reveal_strlit("zxcvbnm");
    reveal_strlit("1234567890");
    assert forall|k: int| 0 <= k < 10 implies #[trigger] scancode_event((0x02 + k) as u8)
        == Some(KeyEvent::Char("1234567890"@[k])) by {
        if k < 9 {
            assert((('1' as u32) + k) as char == "1234567890"@[k]) by {
                assert(k == 0 || k == 1 || k == 2 || k == 3 || k == 4 || k == 5 || k == 6
                    || k == 7 || k == 8);
            }
        }
    }
}

/// Distinct keys give distinct events: a scancode that decodes to an event is
/// the only one that decodes to it, so no two keys type the same character.
pub proof fn lemma_scancode_event_injective(a: u8, b: u8)
    requires
        scancode_event(a) is Some,
        scancode_event(a) == scancode_event(b),
    ensures
        a == b,
{
}

/// The event a byte received on the serial line stands for: carriage
/// return or line feed end the line, BS and DEL erase, printable ASCII types.
pub open spec fn serial_event(byte: u8) -> Option<KeyEvent> {
    if byte == 0x0D || byte == 0x0A {
        Some(KeyEvent::Enter)
    } else if byte == 0x08 || byte == 0x7f {
        Some(KeyEvent::Backspace)
    } else if 0x20 <= byte <= 0x7e {
        Some(KeyEvent::Char(byte as char))
    } else {
        None
    }
}

/// Translates a byte from the serial line into a line-editing event.
pub fn serial_byte_to_event(byte: u8) -> (r: Option<KeyEvent>)
    ensures
        r == serial_event(byte),
{
    match byte {
        0x0D | 0x0A => Some(KeyEvent::Enter),
        0x08 | 0x7f => Some(KeyEvent::Backspace),
        0x20..=0x7e => Some(KeyEvent::Char(byte as char)),
        _ => None,
    }
}

/// What the console shows after an event.
#[derive(Debug, Clone, Copy, PartialEq, Eq, Structural)]
pub enum Echo {
    /// Show the typed character.
    Char(char),
    /// Erase the last character shown.
    Erase,
    /// Start a new line.
    Newline,
    /// Show nothing.
    Nothing,
}

/// Applies a key event to the line editor and says what to echo: a typed
/// character is added (and echoed), Backspace erases one character (echoed
/// only when there was one), Enter commits the line.
pub fn handle_key_event(buf: &mut InputBuffer, event: KeyEvent) -> (echo: Echo)
    requires
        old(buf).wf(),
    ensures
        final(buf).wf(),
        final(buf).mods() == old(buf).mods(),
        match event {
            KeyEvent::Char(ch) => {
                &&& echo == Echo::Char(ch)
                &&& final(buf).line() == (if old(buf).line().len() < MAX_LINE_LEN {
                    old(buf).line().push(ch)
                } else {
                    old(buf).line()
                })
                &&& final(buf).ready() == old(buf).ready()
                &&& final(buf).history() == old(buf).history()
            },
            KeyEvent::Backspace => {
                &&& echo == (if old(buf).line().len() > 0 {
                    Echo::Erase
                } else {
                    Echo::Nothing
                })
                &&& final(buf).line() == (if old(buf).line().len() > 0 {
                    old(buf).line().drop_last()
                } else {
                    old(buf).line()
                })
                &&& final(buf).ready() == old(buf).ready()
                &&& final(buf).history() == old(buf).history()
            },
            KeyEvent::Enter => {
                &&& echo == Echo::Newline
                &&& final(buf).line() == Seq::<char>::empty()
                &&& final(buf).ready() == bounded_push(
                    old(buf).ready(),
                    old(buf).line(),
                    MAX_QUEUE_DEPTH as nat,
                )
                &&& final(buf).history() == (if old(buf).line().len() > 0 {
                    bounded_push(old(buf).history(), old(buf).line(), MAX_HISTORY as nat)
                } else {
                    old(buf).history()
                })
            },
        },
{
    match event {
        KeyEvent::Char(ch) => {
            buf.push_char(ch);
            Echo::Char(ch)
        },
        KeyEvent::Backspace => {
            if buf.backspace() {
                Echo::Erase
            } else {
                Echo::Nothing
            }
        },
        KeyEvent::Enter => {
            buf.commit_line();
            Echo::Newline
        },
    }
}

} // verus!
