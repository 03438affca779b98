use thar::event::{Event, Key};
use thar::rich_text::RichText;
use thar::describe::push_decimal;
use thar::fields::ParserError;

fn ones(n: usize) -> Vec<i32> {
    vec![1; n]
}

#[test]
fn keys_are_named() {
    assert_eq!(Key::Char(' ').to_string(), "Space");
    assert_eq!(Key::Char('\t').to_string(), "Tab");
    assert_eq!(Key::Char('q').to_string(), "Q");
    assert_eq!(Key::Char('ß').to_string(), "ß");
    assert_eq!(Key::Function(12).to_string(), "F12");
    assert_eq!(Key::PageDown.to_string(), "PageDown");
    assert_eq!(Key::Escape.to_string(), "Escape");
}

#[test]
fn key_presses_list_their_modifiers() {
    let e = Event::KeyPress { ctrl: true, alt: true, shift: true, key: Key::Char('x') };
    assert_eq!(e.to_string(), "KeyPress Shift+Ctrl+Alt+X");
    let e = Event::KeyPress { ctrl: false, alt: true, shift: false, key: Key::Up };
    assert_eq!(e.to_string(), "KeyPress Alt+Up");
    let e = Event::KeyPress { ctrl: true, alt: false, shift: false, key: Key::Function(1) };
    assert_eq!(e.to_string(), "KeyPress Ctrl+F1");
    assert_eq!(Event::key(Key::Enter).to_string(), "KeyPress Enter");
}

#[test]
fn other_events_show_their_fields() {
    assert_eq!(Event::CursorPosition { row: 3, column: 14 }.to_string(), "CursorPosition { row: 3, column: 14 }");
    assert_eq!(Event::WindowSize { rows: 24, columns: 80 }.to_string(), "WindowSize { rows: 24, columns: 80 }");
    let m = Event::Mouse { ctrl: false, alt: true, shift: false, release: true, button: 2, row: 5, column: 0 };
    assert_eq!(
        m.to_string(),
        "Mouse { ctrl: false, alt: true, shift: false, release: true, button: 2, row: 5, column: 0 }"
    );
    assert_eq!(Event::Unsupported.to_string(), "Unsupported");
    assert_eq!(format!("{:?}", m), m.to_string());
}

#[test]
fn decimal_digits() {
    let mut s = String::from("n=");
    push_decimal(&mut s, 0);
    push_decimal(&mut s, 1234567890123);
    assert_eq!(s, "n=01234567890123");
}

#[test]
fn parse_errors_are_shown_with_their_place() {
    let e = RichText::parse("ab\n[b]x[/i]", &ones(11)).err().unwrap();
    assert_eq!(e.to_string(), "1:9: Unexpected close tag.\n    expected: [/b]\n      actual: [/i]");
    let e = RichText::parse("[u]x", &ones(4)).err().unwrap();
    assert_eq!(e.to_string(), "1:5: Unexpected end of input.\n    expected: [/u]");
    let e = RichText::parse("x[/b]", &ones(5)).err().unwrap();
    assert_eq!(e.to_string(), "1:5: Unexpected close tag: [/b]");
    let e = RichText::parse("[nope]x", &ones(7)).err().unwrap();
    assert_eq!(e.to_string(), "1:2: Unknown Tag");
    let e = RichText::parse("a]b", &ones(3)).err().unwrap();
    assert_eq!(e.to_string(), "1:2: Syntax Error");
}

#[test]
fn field_parse_errors_point_at_the_column() {
    let e = ParserError::new("abc", 1);
    assert_eq!(e.to_string(&[1, 1, 1]), "Error parsing column at index 1:\n\n    abc\n-----^\n");
    let e = ParserError::new("ab\ncd", 2);
    assert_eq!(
        e.to_string(&[1, 1, 1, 1, 1]),
        "Error parsing column at index 2:\n\n    ab\n------^\n    cd\n-----^\n"
    );
    let e = ParserError::new("ab\ncd", 4);
    assert_eq!(e.to_string(&[1, 1, 1, 1, 1]), "Error parsing column at index 4:\n\n    ab\n    cd\n");
}

#[test]
fn typed_characters_become_key_presses() {
    assert_eq!(
        Event::from_char('A'),
        Event::KeyPress { ctrl: false, alt: false, shift: true, key: Key::Char('A') }
    );
    assert_eq!(
        Event::from_char('a'),
        Event::KeyPress { ctrl: false, alt: false, shift: false, key: Key::Char('a') }
    );
    assert_eq!(
        Event::from_char_alt('\r'),
        Event::KeyPress { ctrl: false, alt: true, shift: false, key: Key::Enter }
    );
    assert_eq!(Event::from_char('\x7f'), Event::key(Key::Backspace));
    assert_eq!(Event::from_char_alt('\x1b').to_string(), "KeyPress Alt+Escape");
}
