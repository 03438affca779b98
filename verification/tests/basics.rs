use thar::rect::{Rect, Point};
use thar::color::{Color, Color16, Rgb};
use thar::ansi::{write_fg, write_bg};
use thar::mime_types::{is_json, is_sgml};
use thar::input::{Decoded, decode_step_exec, decode_input};
use thar::event::InputSequence;
use thar::wrap::{wrap, wrap_ranges};
use thar::widget::{ActionFlags, WidgetId};
use thar::message::{MessageBroker, MessageData, MessageKind, AppQuit};

#[test]
fn rect_overlap_of_crossing_rects() {
    let a = Rect::from_corners(0, 10, 0, 10);
    let b = Rect::from_corners(5, 15, 5, 20);
    assert!(a.overlaps(&b));
    let o = a.overlap(&b);
    assert_eq!((o.row, o.column, o.width, o.height), (5, 5, 5, 5));
}

#[test]
fn rect_overlap_of_apart_rects() {
    let a = Rect::from_corners(0, 2, 0, 2);
    let b = Rect::from_corners(5, 6, 5, 6);
    assert!(!a.overlaps(&b));
    let o = a.overlap(&b);
    assert_eq!((o.row, o.column, o.width, o.height), (5, 5, 0, 0));
}

#[test]
fn color16_escape_sequences() {
    assert_eq!(Color16::Red.fg(), b"\x1b[31m".to_vec());
    assert_eq!(Color16::BrightBlue.bg(), b"\x1b[104m".to_vec());
}

#[test]
fn rgb_from_u32_takes_green_from_the_low_byte() {
    let c = Rgb::from_u32(0x123456);
    assert_eq!((c.r, c.g, c.b), (0x12, 0x56, 0x56));
    assert_eq!(Rgb::new(1, 2, 3).to_u32(), 0x010203);
}

#[test]
fn colour_sequences() {
    let mut v = Vec::new();
    write_fg(&mut v, Color::Rgb { r: 1, g: 22, b: 255 });
    assert_eq!(v, b"\x1b[38;2;1;22;255m".to_vec());
    let mut v = Vec::new();
    write_bg(&mut v, Color::Default);
    assert_eq!(v, b"\x1b[49m".to_vec());
}

#[test]
fn mime_type_kinds() {
    assert!(is_json("application/json"));
    assert!(is_json("application/ld+json"));
    assert!(is_json("application/json+seq"));
    assert!(!is_json("text/html"));
    assert!(is_sgml("text/html"));
    assert!(is_sgml("image/svg+xml"));
    assert!(!is_sgml("text/plain"));
}

#[test]
fn decode_plain_and_utf8_bytes() {
    assert_eq!(decode_step_exec(b"a", false), Decoded::Input(InputSequence::Char('a'), 1));
    assert_eq!(decode_step_exec("é".as_bytes(), false), Decoded::Input(InputSequence::Char('é'), 2));
    // three byte sequences take their character from the lead and the last byte
    assert_eq!(decode_step_exec("€".as_bytes(), false), Decoded::Input(InputSequence::Char('¬'), 3));
    assert_eq!(decode_step_exec(&[0xC3], false), Decoded::NeedMore);
    assert_eq!(decode_step_exec(&[0xC3], true), Decoded::Malformed);
    assert_eq!(decode_step_exec(b"", true), Decoded::End);
}

#[test]
fn decode_escape_sequences() {
    assert_eq!(decode_step_exec(b"\x1b", false), Decoded::NeedMore);
    assert_eq!(decode_step_exec(b"\x1b", true), Decoded::Input(InputSequence::Char('\x1b'), 1));
    assert_eq!(decode_step_exec(b"\x1bx", false), Decoded::Input(InputSequence::Alt('x'), 2));
    assert_eq!(
        decode_step_exec(b"\x1b[A", false),
        Decoded::Input(InputSequence::Modifier { modifier: 1, char: 'A' }, 3)
    );
    assert_eq!(
        decode_step_exec(b"\x1b[1;5~", false),
        Decoded::Input(InputSequence::KeyCode { key_code: 1, modifier: 5 }, 6)
    );
    assert_eq!(decode_step_exec(b"\x1bOP", false), Decoded::Input(InputSequence::SingleShift3('P'), 3));
    assert_eq!(decode_step_exec(b"\x1b[?25h", false), Decoded::Skip(6));
}

#[test]
fn decode_input_drops_private_sequences() {
    assert_eq!(decode_input(b"\x1b[?25hq", false), (Decoded::Input(InputSequence::Char('q'), 1), 6));
}

#[test]
fn wrap_breaks_between_words() {
    let t = "hello world";
    let ws = vec![1; 11];
    assert_eq!(wrap_ranges(t, &ws, 5), vec![(0, 5), (6, 11)]);
    let mut w = wrap(t, &ws, 5);
    assert_eq!(w.next(), Some("hello"));
    assert_eq!(w.next(), Some("world"));
    assert_eq!(w.next(), None);
}

#[test]
fn wrap_breaks_long_words_and_line_feeds() {
    let ws = vec![1; 5];
    assert_eq!(wrap_ranges("abcde", &ws, 2), vec![(0, 2), (2, 4), (4, 5)]);
    assert_eq!(wrap_ranges("ab\ncd", &ws, 10), vec![(0, 2), (3, 5)]);
    assert_eq!(wrap_ranges("", &[], 3), vec![]);
}

#[test]
fn action_flags_union() {
    let d = ActionFlags::dirty();
    let e = ActionFlags::empty();
    assert!(d.union(e).is_dirty());
    assert!(!e.union(e).is_dirty());
}

#[test]
fn broker_keeps_messages_in_order() {
    let mut broker = MessageBroker::new();
    assert!(!broker.has_pending());
    broker.dispatch(MessageData::AppQuit(AppQuit));
    broker.dispatch(MessageData::SelectTableRow(thar::table::SelectTableRow { widget_id: WidgetId(4), row_index: 2 }));
    assert!(broker.has_pending());
    let msgs = broker.take_messages();
    assert!(!broker.has_pending());
    assert_eq!(msgs.len(), 2);
    assert!(msgs[0].is(MessageKind::AppQuit));
    assert!(msgs[1].is(MessageKind::SelectTableRow));
    let mut m = msgs.into_iter().nth(1).unwrap();
    assert!(!m.is_consumed());
    match m.consume(MessageKind::SelectTableRow) {
        Some(MessageData::SelectTableRow(s)) => assert_eq!(s.row_index, 2),
        _ => panic!("expected the row"),
    }
    assert!(m.is_consumed());
    assert!(m.consume(MessageKind::SelectTableRow).is_none());
}

#[test]
fn points_move_in_place() {
    let mut p = Point { row: 3, column: 4 };
    p.add_assign(&Point { row: 1, column: -2 });
    assert_eq!(p, Point { row: 4, column: 2 });
    p.sub_assign(&Point { row: 4, column: 4 });
    assert_eq!(p, Point { row: 0, column: -2 });
    let r = Rect { row: 1, column: 1, width: 5, height: 5 };
    assert_eq!(Point { row: 2, column: 3 }.nest_into(&r), Some(Point { row: 1, column: 2 }));
    assert_eq!(Point { row: 6, column: 3 }.nest_into(&r), None);
}

#[test]
fn very_tall_rects_wrap_their_edges() {
    let r = Rect { row: 0, column: 0, width: 10, height: u32::MAX };
    assert_eq!(r.bottom(), -1);
    assert!(!r.contains(0, 0));
    let r = Rect { row: -5, column: 3, width: 1 << 31, height: 2 };
    assert_eq!(r.right(), 3 + i32::MIN);
}

#[test]
fn wrapping_leaves_out_only_white_space() {
    let t = "ab  cd\n ef ghij klmnopq";
    let chars: Vec<char> = t.chars().collect();
    let ws = vec![1; chars.len()];
    let ranges = wrap_ranges(t, &ws, 4);
    for k in 1..ranges.len() {
        assert!(ranges[k - 1].1 <= ranges[k].0);
    }
    for (j, c) in chars.iter().enumerate() {
        let kept = ranges.iter().any(|&(a, b)| a <= j && j < b);
        assert!(kept || c.is_whitespace(), "character {} at {} was dropped", c, j);
    }
}

#[test]
fn wrapping_drops_unicode_white_space_at_a_break() {
    assert_eq!(wrap_ranges("ab\u{3000}cd", &[1, 1, 1, 1, 1], 2), vec![(0, 2), (3, 5)]);
    assert_eq!(wrap_ranges("ab\u{00B7}cd", &[1, 1, 1, 1, 1], 2), vec![(0, 2), (2, 3), (3, 5)]);
}

#[test]
fn white_space_is_what_std_calls_white_space() {
    for u in 0u32..=0x10FFFF {
        if let Some(c) = char::from_u32(u) {
            assert_eq!(thar::text::is_whitespace(c), c.is_whitespace(), "U+{:04X}", u);
        }
    }
}
