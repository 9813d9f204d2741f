use open_kernel::input::{InputBuffer, SpecialKey, MAX_HISTORY, MAX_LINE_LEN, MAX_QUEUE_DEPTH};
use open_kernel::keyboard::{handle_key_event, scancode_to_event, serial_byte_to_event, Echo, KeyEvent};

fn type_line(b: &mut InputBuffer, s: &str) {
    for c in s.chars() {
        b.push_char(c);
    }
}

#[test]
fn typing_and_backspace() {
    let mut b = InputBuffer::new();
    type_line(&mut b, "abc");
    assert_eq!(b.current_line(), "abc");
    assert!(b.backspace());
    assert_eq!(b.current_line(), "ab");
    assert!(b.backspace());
    assert!(b.backspace());
    assert!(!b.backspace());
    assert_eq!(b.current_line(), "");
}

#[test]
fn line_is_capped() {
    let mut b = InputBuffer::new();
    for _ in 0..MAX_LINE_LEN + 10 {
        b.push_char('x');
    }
    assert_eq!(b.current_line().len(), MAX_LINE_LEN);
    b.push_char('y');
    assert!(!b.current_line().contains('y'));
}

#[test]
fn commit_and_pop_are_fifo() {
    let mut b = InputBuffer::new();
    type_line(&mut b, "first");
    b.commit_line();
    type_line(&mut b, "second");
    b.commit_line();
    assert_eq!(b.current_line(), "");
    assert_eq!(b.pop_line().unwrap(), "first");
    assert_eq!(b.pop_line().unwrap(), "second");
    assert!(b.pop_line().is_none());
}

#[test]
fn empty_lines_are_queued_but_not_remembered() {
    let mut b = InputBuffer::new();
    b.commit_line();
    assert_eq!(b.pop_line().unwrap(), "");
    b.handle_special_key(SpecialKey::UpArrow);
    assert_eq!(b.current_line(), "");
}

#[test]
fn queue_drops_oldest_beyond_depth() {
    let mut b = InputBuffer::new();
    for i in 0..MAX_QUEUE_DEPTH + 2 {
        type_line(&mut b, &i.to_string());
        b.commit_line();
    }
    let mut got = Vec::new();
    while let Some(l) = b.pop_line() {
        got.push(l);
    }
    assert_eq!(got.len(), MAX_QUEUE_DEPTH);
    assert_eq!(got[0], "2");
    assert_eq!(got[MAX_QUEUE_DEPTH - 1], (MAX_QUEUE_DEPTH + 1).to_string());
}

#[test]
fn up_arrow_recalls_last_line_and_escape_clears() {
    let mut b = InputBuffer::new();
    for i in 0..MAX_HISTORY + 3 {
        type_line(&mut b, &format!("cmd{}", i));
        b.commit_line();
    }
    type_line(&mut b, "partial");
    b.handle_special_key(SpecialKey::UpArrow);
    assert_eq!(b.current_line(), format!("cmd{}", MAX_HISTORY + 2));
    b.handle_special_key(SpecialKey::LeftArrow);
    assert_eq!(b.current_line(), format!("cmd{}", MAX_HISTORY + 2));
    b.handle_special_key(SpecialKey::FunctionKey(3));
    b.handle_special_key(SpecialKey::Escape);
    assert_eq!(b.current_line(), "");
}

#[test]
fn modifiers_by_name() {
    let mut b = InputBuffer::new();
    let m = b.modifiers();
    assert!(!m.shift && !m.ctrl && !m.alt && !m.caps_lock);
    b.set_modifier("shift", true);
    b.set_modifier("caps", true);
    b.set_modifier("meta", true);
    let m = b.modifiers();
    assert!(m.shift && !m.ctrl && !m.alt && m.caps_lock);
    b.set_modifier("shift", false);
    b.set_modifier("ctrl", true);
    b.set_modifier("alt", true);
    let m = b.modifiers();
    assert!(!m.shift && m.ctrl && m.alt && m.caps_lock);
}

#[test]
fn scancodes_set_one() {
    assert_eq!(scancode_to_event(0x02), Some(KeyEvent::Char('1')));
    assert_eq!(scancode_to_event(0x0A), Some(KeyEvent::Char('9')));
    assert_eq!(scancode_to_event(0x0B), Some(KeyEvent::Char('0')));
    assert_eq!(scancode_to_event(0x10), Some(KeyEvent::Char('q')));
    assert_eq!(scancode_to_event(0x1E), Some(KeyEvent::Char('a')));
    assert_eq!(scancode_to_event(0x32), Some(KeyEvent::Char('m')));
    assert_eq!(scancode_to_event(0x39), Some(KeyEvent::Char(' ')));
    assert_eq!(scancode_to_event(0x1C), Some(KeyEvent::Enter));
    assert_eq!(scancode_to_event(0x0E), Some(KeyEvent::Backspace));
    assert_eq!(scancode_to_event(0x9E), None);
    assert_eq!(scancode_to_event(0x01), None);
    assert_eq!(scancode_to_event(0x3A), None);
}

#[test]
fn serial_bytes() {
    assert_eq!(serial_byte_to_event(b'\r'), Some(KeyEvent::Enter));
    assert_eq!(serial_byte_to_event(b'\n'), Some(KeyEvent::Enter));
    assert_eq!(serial_byte_to_event(0x08), Some(KeyEvent::Backspace));
    assert_eq!(serial_byte_to_event(0x7f), Some(KeyEvent::Backspace));
    assert_eq!(serial_byte_to_event(b'~'), Some(KeyEvent::Char('~')));
    assert_eq!(serial_byte_to_event(b' '), Some(KeyEvent::Char(' ')));
    assert_eq!(serial_byte_to_event(0x1b), None);
    assert_eq!(serial_byte_to_event(0x80), None);
}

#[test]
fn key_events_edit_and_echo() {
    let mut b = InputBuffer::new();
    assert_eq!(handle_key_event(&mut b, KeyEvent::Backspace), Echo::Nothing);
    assert_eq!(handle_key_event(&mut b, KeyEvent::Char('l')), Echo::Char('l'));
    assert_eq!(handle_key_event(&mut b, KeyEvent::Char('s')), Echo::Char('s'));
    assert_eq!(handle_key_event(&mut b, KeyEvent::Char('x')), Echo::Char('x'));
    assert_eq!(handle_key_event(&mut b, KeyEvent::Backspace), Echo::Erase);
    assert_eq!(handle_key_event(&mut b, KeyEvent::Enter), Echo::Newline);
    assert_eq!(b.pop_line().unwrap(), "ls");
}
