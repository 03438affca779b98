use thar::rich_text::{RichText, RichTextCode};
use thar::parse_error::{ParseError, ParseErrorKind};
use thar::plain_text::{PlainText, PlainTextItem};
use thar::colorize::json_pieces;
use thar::colorize_sgml::sgml_pieces;
use thar::styles::{symbol_style_value, keyword_style_value, number_style_value, string_style_value};
use thar::table::{Table, Align};
use thar::rect::Rect;
use thar::event::{Event, Key};
use thar::message::{Delivery, DeliveryStep, MessageBroker, MessageData, MessageKind, AppQuit};
use thar::widget::WidgetId;
use thar::draw::{DrawOp, WindowSize};
use thar::request_view::{body_kind_of, body_text, BodyKind, param_rows, post_param_rows};
use thar::schema::{QueryParam, PostParam};

fn ones(n: usize) -> Vec<i32> {
    vec![1; n]
}

fn text_of(code: &RichTextCode) -> Option<(String, usize)> {
    match code {
        RichTextCode::Text { text, width } => Some((text.clone(), *width)),
        _ => None,
    }
}

#[test]
fn rich_text_brackets_are_doubled() {
    let rt = RichText::parse("[[x]]", &ones(5)).ok().unwrap();
    assert_eq!(rt.width, 3);
    assert_eq!(rt.lines.len(), 1);
    let texts: Vec<_> = rt.lines[0].iter().filter_map(text_of).collect();
    assert_eq!(texts, vec![("[x]".to_string(), 3)]);
}

#[test]
fn rich_text_lone_close_bracket_is_an_error() {
    let e = RichText::parse("a]b", &ones(3)).err().unwrap();
    assert_eq!(e.index(), 1);
    assert!(matches!(e.kind(), ParseErrorKind::SyntaxError));
}

#[test]
fn rich_text_unknown_tag_is_an_error() {
    let e = RichText::parse("[nope]x", &ones(7)).err().unwrap();
    assert!(matches!(e.kind(), ParseErrorKind::UnknownTag));
}

#[test]
fn rich_text_lines_and_width() {
    let rt = RichText::parse("ab\ncde", &ones(6)).ok().unwrap();
    assert_eq!(rt.lines.len(), 2);
    assert_eq!(rt.width, 3);
}

#[test]
fn plain_text_marks_control_characters() {
    let pt = PlainText::parse("a\tb", &[1, -1, 1]);
    assert_eq!(pt.lines.len(), 1);
    assert_eq!(pt.width, 3);
    assert!(matches!(pt.lines[0][1], PlainTextItem::Special('\t')));
    assert_eq!(pt.to_string(), "a\u{2409}b\n");
}

#[test]
fn plain_text_draw_shows_control_symbols() {
    let pt = PlainText::parse("a\tb", &[1, -1, 1]);
    let widths = vec![vec![vec![1], vec![], vec![1]]];
    let ops = pt.draw(WindowSize { rows: 10, columns: 10 }, &widths, 0, 0);
    assert_eq!(ops[0], DrawOp::MoveCursor { row: 0, column: 0 });
    assert_eq!(ops[1], DrawOp::Text("a".to_string()));
    assert_eq!(ops[3], DrawOp::Text("\u{2409}".to_string()));
    assert_eq!(ops[ops.len() - 1], DrawOp::Text("b".to_string()));
}

#[test]
fn json_pieces_follow_the_tokens() {
    let t: Vec<char> = "[true, 1]".chars().collect();
    let segs = json_pieces(&t);
    let spans: Vec<(usize, usize)> = segs.iter().map(|s| (s.start, s.end)).collect();
    assert_eq!(spans, vec![(0, 1), (1, 5), (5, 6), (6, 7), (7, 8), (8, 9)]);
    assert_eq!(segs[0].style, symbol_style_value());
    assert_eq!(segs[1].style, keyword_style_value());
    assert_eq!(segs[4].style, number_style_value());
}

#[test]
fn json_strings_are_one_piece() {
    let t: Vec<char> = "\"ab\"".chars().collect();
    let segs = json_pieces(&t);
    assert_eq!(segs.len(), 1);
    assert_eq!((segs[0].start, segs[0].end), (0, 4));
    assert_eq!(segs[0].style, string_style_value());
}

#[test]
fn sgml_pieces_cover_the_text() {
    let t: Vec<char> = "<a href=\"x\">hi</a>".chars().collect();
    let segs = sgml_pieces(&t);
    assert!(!segs.is_empty());
    assert_eq!(segs[0].start, 0);
    assert_eq!(segs[segs.len() - 1].end, t.len());
    for k in 1..segs.len() {
        assert_eq!(segs[k - 1].end, segs[k].start);
    }
}

fn cell(s: &str) -> RichText {
    RichText::from_plain_text(s, &ones(s.chars().count()))
}

fn small_table() -> Table {
    let header = vec![cell("name"), cell("n")];
    let rows = vec![
        vec![cell("a"), cell("1")],
        vec![cell("b"), cell("2")],
        vec![cell("c"), cell("3")],
    ];
    let mut t = Table::with_data(header, rows, &[Align::Left, Align::Right], WidgetId(7));
    t.set_draw_rect(&Rect { row: 0, column: 0, width: 20, height: 10 });
    t
}

#[test]
fn table_layout_of_cells() {
    let t = small_table();
    assert_eq!(t.header_height(), 1);
    assert_eq!(t.rows_height(), 3);
    assert_eq!(t.formatted_rows.len(), 3);
    // columns are as wide as their widest cell, one space apart
    assert_eq!(t.width(), 6);
}

#[test]
fn table_moves_selection_and_selects() {
    let mut t = small_table();
    let mut broker = MessageBroker::new();
    let down = Event::KeyPress { ctrl: false, alt: false, shift: false, key: Key::Down };
    let flags = t.handle_event(&down, &mut broker);
    assert!(flags.is_dirty());
    assert_eq!(t.selected_row_index(), 1);
    let up = Event::KeyPress { ctrl: false, alt: false, shift: false, key: Key::Up };
    t.handle_event(&up, &mut broker);
    assert_eq!(t.selected_row_index(), 0);
    let enter = Event::KeyPress { ctrl: false, alt: false, shift: false, key: Key::Enter };
    t.handle_event(&enter, &mut broker);
    let msgs = broker.take_messages();
    assert_eq!(msgs.len(), 1);
    assert!(msgs[0].is(MessageKind::SelectTableRow));
}

#[test]
fn table_draws_header_bold_then_rows() {
    let t = small_table();
    let hw: Vec<Vec<Vec<i32>>> = t.formatted_header.lines.iter()
        .map(|l| l.iter().map(|c| match c { RichTextCode::Text { text, .. } => ones(text.chars().count()), _ => vec![] }).collect())
        .collect();
    let rw: Vec<Vec<Vec<Vec<i32>>>> = t.formatted_rows.iter()
        .map(|r| r.lines.iter()
            .map(|l| l.iter().map(|c| match c { RichTextCode::Text { text, .. } => ones(text.chars().count()), _ => vec![] }).collect())
            .collect())
        .collect();
    let ops = t.draw(WindowSize { rows: 24, columns: 80 }, &hw, &rw, 0, 0);
    assert_eq!(ops[2], DrawOp::FontWeight(thar::style::FontWeight::Bold));
    assert_eq!(ops[ops.len() - 1], DrawOp::EndScope);
    assert_eq!(ops[ops.len() - 2], DrawOp::EndScope);
    // one background scope per body row
    let scopes = ops.iter().filter(|o| matches!(o, DrawOp::Scoped(_))).count();
    assert_eq!(scopes, 2 + 3);
}

#[test]
fn rich_text_wrap_breaks_long_runs() {
    let rt = RichText::from_plain_text("abcd efgh", &ones(9));
    let widths = vec![vec![ones(9)]];
    let w = rt.wrap(4, &widths);
    assert_eq!(w.lines.len(), 3);
    assert_eq!(w.lines[0].iter().filter_map(text_of).collect::<Vec<_>>(), vec![("abcd".to_string(), 4)]);
    assert_eq!(w.lines[1].iter().filter_map(text_of).collect::<Vec<_>>(), vec![("efgh".to_string(), 4)]);
    assert!(w.lines[2].is_empty());
    assert_eq!(w.width, 4);
}

#[test]
fn rich_text_wrap_keeps_short_lines_uncounted() {
    let rt = RichText::from_plain_text("ab", &ones(2));
    let w = rt.wrap(4, &[vec![ones(2)]]);
    assert_eq!(w.lines.len(), 1);
    assert_eq!(w.lines[0].iter().filter_map(text_of).collect::<Vec<_>>(), vec![("ab".to_string(), 2)]);
    // only lines ended by the wrapping count towards the width
    assert_eq!(w.width, 0);
}

#[test]
fn rich_text_wrap_run_reaching_the_width_ends_the_line() {
    let rt = RichText::from_plain_text("abcd", &ones(4));
    let w = rt.wrap(4, &[vec![ones(4)]]);
    assert_eq!(w.lines.len(), 2);
    assert!(w.lines[1].is_empty());
    // the line is counted without the run that ended it
    assert_eq!(w.width, 0);
}

#[test]
fn request_body_colouring_follows_the_mime_type() {
    assert_eq!(body_kind_of(Some("application/json; charset=utf-8")), BodyKind::Json);
    assert_eq!(body_kind_of(Some("text/html;charset=utf-8")), BodyKind::Sgml);
    assert_eq!(body_kind_of(Some("text/plain")), BodyKind::Plain);
    assert_eq!(body_kind_of(None), BodyKind::Plain);
    let t = body_text("1", &[1], Some("application/json"));
    assert_eq!(t.width, 1);
    let t = body_text("1", &[1], None);
    assert_eq!(t.lines[0].iter().filter_map(text_of).collect::<Vec<_>>(), vec![("1".to_string(), 1)]);
}

#[test]
fn request_parameter_rows() {
    let q = vec![QueryParam { name: "a".to_string(), value: "1".to_string(), comment: None }];
    assert_eq!(param_rows(&q), vec![("a".to_string(), "1".to_string())]);
    let p = vec![
        PostParam { name: "f".to_string(), value: None, file_name: None, content_type: None, comment: None },
        PostParam { name: "g".to_string(), value: Some("x".to_string()), file_name: None, content_type: None, comment: None },
    ];
    assert_eq!(post_param_rows(&p), vec![("f".to_string(), String::new()), ("g".to_string(), "x".to_string())]);
}

#[test]
fn the_last_style_code_wins() {
    use_last_code();
}

fn use_last_code() {
    let mut s = thar::rich_text::RichTextStyle::default();
    s.apply_changes(&[
        RichTextCode::FontWeight(thar::style::FontWeight::Bold),
        RichTextCode::Text { text: "x".to_string(), width: 1 },
        RichTextCode::FontWeight(thar::style::FontWeight::Faint),
    ]);
    assert_eq!(s.font_weight, thar::style::FontWeight::Faint);
    let before = s;
    s.apply_changes(&[RichTextCode::Text { text: "y".to_string(), width: 1 }]);
    assert_eq!(s, before);
}

#[test]
fn error_line_on_the_first_line_points_at_the_column() {
    let e = ParseError::new(ParseErrorKind::SyntaxError, 1, "abc");
    assert_eq!(e.print_line("abc"), "1: abc\n   -^\n");
}

#[test]
fn error_line_after_a_line_feed_keeps_the_feed_in_the_line() {
    let text = "first\nsecond line";
    let e = ParseError::new(ParseErrorKind::UnknownTag, 9, text);
    assert_eq!(e.location().lineno, 1);
    assert_eq!(e.location().column, 5);
    assert_eq!(e.print_line(text), "1: \nsecond line\n   ----^\n");
}

#[test]
fn table_columns_grow_to_the_widest_cell_and_keep_their_width() {
    let header = vec![cell("id"), cell("name")];
    let rows = vec![
        vec![cell("1"), cell("x"), cell("extra")],
        vec![cell("12345"), cell("yy")],
    ];
    let mut t = Table::with_data(header, rows, &[Align::Right, Align::Left], WidgetId(3));
    assert_eq!(t.columns().len(), 3);
    assert_eq!(t.columns()[0].width(), 5);
    assert_eq!(t.columns()[1].width(), 4);
    assert_eq!(t.columns()[2].width(), 5);
    assert!(t.columns()[0].align == Align::Right);
    assert!(t.columns()[2].align == Align::Left);
    assert_eq!(t.width(), 5 + 4 + 5 + 2);
    // A column once wide stays wide when its cells shrink.
    t.rows_mut()[1][0] = cell("9");
    t.update();
    assert_eq!(t.columns()[0].width(), 5);
}

fn end_style(r: &RichText) -> thar::rich_text::RichTextStyle {
    let mut s = thar::rich_text::RichTextStyle::default();
    for line in r.lines() {
        s.apply_changes(line);
    }
    s
}

#[test]
fn appended_text_ends_in_the_default_style_with_a_line_per_line_feed() {
    let bold = thar::rich_text::RichTextStyle::build().font_weight(thar::style::FontWeight::Bold).into_inner();
    let mut r = RichText::new();
    r.append_text(&bold, "one\ntwo\n", &ones(8));
    assert_eq!(r.height(), 3);
    assert_eq!(end_style(&r), thar::rich_text::RichTextStyle::default());
    let blue = thar::rich_text::RichTextStyle::build()
        .foreground(thar::color::Color::Color16(thar::color::Color16::Blue))
        .into_inner();
    r.append_text(&blue, "x\u{1}y", &ones(3));
    assert_eq!(r.height(), 3);
    assert_eq!(end_style(&r), thar::rich_text::RichTextStyle::default());
}

#[test]
fn delivery_hands_each_message_to_the_receivers_until_one_stops_it() {
    let mut broker = MessageBroker::new();
    broker.dispatch(MessageData::AppQuit(AppQuit));
    broker.dispatch(MessageData::AppQuit(AppQuit));
    let mut d = Delivery::new(2);
    assert_eq!(broker.next_delivery(&mut d), DeliveryStep::Deliver { message: 0, receiver: 0 });
    d.delivered(thar::widget::ActionFlags::empty());
    assert_eq!(broker.next_delivery(&mut d), DeliveryStep::Deliver { message: 0, receiver: 1 });
    d.delivered(thar::widget::ActionFlags::empty());
    assert_eq!(broker.next_delivery(&mut d), DeliveryStep::Deliver { message: 1, receiver: 0 });
    // The first receiver stops the second message and sends a new one.
    d.batch[1].stop_propergation();
    broker.dispatch(MessageData::AppQuit(AppQuit));
    d.delivered(thar::widget::ActionFlags::dirty());
    // The batch is done; the message sent meanwhile is the next batch.
    assert_eq!(broker.next_delivery(&mut d), DeliveryStep::Deliver { message: 0, receiver: 0 });
    assert!(!broker.has_pending());
    d.delivered(thar::widget::ActionFlags::empty());
    assert_eq!(broker.next_delivery(&mut d), DeliveryStep::Deliver { message: 0, receiver: 1 });
    d.delivered(thar::widget::ActionFlags::empty());
    match broker.next_delivery(&mut d) {
        DeliveryStep::Done(flags) => assert!(flags.is_dirty()),
        other => panic!("expected the end of the delivery, got {:?}", other),
    }
}

#[test]
fn delivery_without_messages_is_done_at_once() {
    let mut broker = MessageBroker::new();
    let mut d = Delivery::new(3);
    match broker.next_delivery(&mut d) {
        DeliveryStep::Done(flags) => assert!(!flags.is_dirty()),
        other => panic!("expected the end of the delivery, got {:?}", other),
    }
}

#[test]
fn table_rows_are_as_tall_as_their_tallest_cell() {
    let header = vec![cell("k"), cell("v")];
    let rows = vec![
        vec![cell("a"), cell("x\ny\nz")],
        vec![cell("b"), cell("w")],
    ];
    let t = Table::with_data(header, rows, &[Align::Left, Align::Left], WidgetId(4));
    assert_eq!(t.header_height(), 1);
    assert_eq!(t.rows_height(), 3 + 1);
    assert_eq!(t.height(), 1 + 4);
}

#[test]
fn a_small_table_takes_paging_keys() {
    let t = small_table();
    for key in [Key::PageUp, Key::PageDown, Key::Up, Key::Down] {
        let e = Event::KeyPress { ctrl: false, alt: false, shift: false, key };
        assert!(t.event_fits(&e));
    }
}

#[test]
fn json_pieces_follow_one_another_and_an_open_string_adds_no_rest() {
    let t: Vec<char> = "[1, true] \"a\\nb".chars().collect();
    let segs = json_pieces(&t);
    assert_eq!(segs[0].start, 0);
    for k in 1..segs.len() {
        assert_eq!(segs[k - 1].end, segs[k].start);
    }
    // The literal that is never closed keeps its escape, not its rest.
    assert_eq!(segs[segs.len() - 1].end, 14);
}

#[test]
fn sgml_pieces_leave_out_only_the_quote_of_an_open_value() {
    let t: Vec<char> = "<a b=\"x".chars().collect();
    let segs = sgml_pieces(&t);
    assert_eq!(segs[0].start, 0);
    let mut gaps = 0;
    for k in 1..segs.len() {
        if segs[k - 1].end != segs[k].start {
            assert_eq!(segs[k].start, segs[k - 1].end + 1);
            assert_eq!(t[segs[k - 1].end], '"');
            gaps += 1;
        }
    }
    assert_eq!(gaps, 1);
    assert_eq!(segs[segs.len() - 1].end, t.len());
}
