use thar::text_editor::{TextEditor, Cursor};
use thar::plain_text::{PlainText, PlainTextItem};
use thar::rect::Rect;
use thar::widget::WidgetId;

#[test]
fn new_editor_is_empty() {
    let e = TextEditor::new(WidgetId(3));
    assert_eq!(e.text.lines.len(), 0);
    assert_eq!(e.cursor, Cursor { line_index: 0, byte_index: 0 });
    let mut s = String::new();
    e.write_to(&mut s);
    assert_eq!(s, "");
}

#[test]
fn editor_scroll_is_clamped() {
    let mut e = TextEditor::new(WidgetId(3));
    e.text = PlainText::parse("a\nb\nc\nd\ne", &[1; 9]);
    e.widget_data.rect = Rect { row: 0, column: 0, width: 1, height: 2 };
    e.scroll_row = 10;
    e.clamp_scroll_row();
    assert_eq!(e.scroll_row, e.text.lines.len() as u32 - 2);
    e.widget_data.rect.height = 40;
    e.clamp_scroll_row();
    assert_eq!(e.scroll_row, 0);
    e.scroll_column = 7;
    e.clamp_scroll_column();
    assert_eq!(e.scroll_column, 0);
}

#[test]
fn editor_update_wraps_to_its_width() {
    let mut e = TextEditor::new(WidgetId(3));
    e.text = PlainText { lines: vec![vec![PlainTextItem::Text { text: "abcdefghij".to_string(), width: 10 }]], width: 10 };
    e.widget_data.rect = Rect { row: 0, column: 0, width: 4, height: 5 };
    e.update(&[vec![vec![1; 10]]]);
    assert_eq!(e.text.lines.len(), 3);
    e.scroll_column = 3;
    e.clamp_scroll_column();
    assert_eq!(e.scroll_column, 0);
}
