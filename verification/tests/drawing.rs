use thar::draw::{DrawOp, WindowSize, crop_region};
use thar::rich_text::RichText;
use thar::property_list::{PropertyList, Item};
use thar::rect::Rect;
use thar::style::{FontWeight, TermIOState};
use thar::styles::{odd_row_background_value, table_foreground_value};
use thar::widget::WidgetId;

fn window() -> WindowSize {
    WindowSize { rows: 24, columns: 80 }
}

fn text(s: &str) -> DrawOp {
    DrawOp::Text(s.to_string())
}

fn ones(n: usize) -> Vec<i32> {
    vec![1; n]
}

#[test]
fn region_of_a_block_at_the_top_left() {
    let g = crop_region(3, Some(10), window(), 0, 0, 0, 0, 10, 3).unwrap();
    assert_eq!((g.crop_row, g.crop_row_end), (0, 3));
    assert_eq!((g.crop_column, g.crop_column_end, g.full_column_end), (0, 10, 10));
    assert_eq!((g.term_row, g.term_column), (0, 0));
}

#[test]
fn region_above_the_terminal_skips_rows() {
    // a block of 5 lines drawn two rows above the terminal shows from its third line
    let g = crop_region(5, Some(4), window(), -2, 3, 0, 0, 4, 5).unwrap();
    assert_eq!((g.crop_row, g.crop_row_end), (2, 5));
    assert_eq!((g.term_row, g.term_column), (0, 3));
}

#[test]
fn region_below_the_terminal_is_empty() {
    assert!(crop_region(5, Some(4), window(), 30, 0, 0, 0, 4, 5).is_none());
    assert!(crop_region(0, Some(4), window(), 0, 0, 0, 0, 4, 5).is_none());
}

#[test]
fn region_clipped_at_the_bottom() {
    let g = crop_region(10, Some(4), window(), 20, 0, 0, 0, 4, 10).unwrap();
    assert_eq!((g.crop_row, g.crop_row_end), (0, 4));
    assert_eq!(g.term_row, 20);
}

#[test]
fn draw_rich_text_whole() {
    let rt = RichText::from_plain_text("ab", &ones(2));
    let ops = rt.draw(window(), &[vec![vec![1, 1]]], 0, 0);
    assert_eq!(ops, vec![
        DrawOp::ClearStyle,
        DrawOp::FgDefault,
        DrawOp::BgDefault,
        DrawOp::MoveCursor { row: 0, column: 0 },
        text("ab"),
    ]);
}

#[test]
fn draw_rich_text_cropped_in_a_run() {
    let rt = RichText::from_plain_text("abcdef", &ones(6));
    let ops = rt.draw_cropped(window(), &[vec![ones(6)]], 0, 0, 0, 2, 3, 1);
    assert_eq!(ops, vec![
        DrawOp::ClearStyle,
        DrawOp::FgDefault,
        DrawOp::BgDefault,
        DrawOp::MoveCursor { row: 0, column: 0 },
        text("cde"),
    ]);
}

#[test]
fn draw_rich_text_blanks_short_lines() {
    let rt = RichText::from_plain_text("ab", &ones(2));
    // the crop is wider than the text: the rest of the line is blanked
    let ops = rt.draw_cropped(window(), &[vec![ones(2)]], 1, 4, 0, 0, 6, 1);
    assert_eq!(ops, vec![
        DrawOp::ClearStyle,
        DrawOp::FgDefault,
        DrawOp::BgDefault,
        DrawOp::MoveCursor { row: 1, column: 4 },
        text("ab"),
        text(" "),
        DrawOp::Repeat(3),
    ]);
}

#[test]
fn draw_of_an_empty_crop_is_nothing() {
    let rt = RichText::from_plain_text("ab", &ones(2));
    let ops = rt.draw_cropped(window(), &[vec![ones(2)]], 0, 0, 1, 0, 2, 1);
    assert!(ops.is_empty());
}

#[test]
fn property_list_lays_out_header() {
    let mut pl = PropertyList::new("Key".to_string(), ones(3), "Value".to_string(), ones(5), WidgetId(1));
    pl.widget_data.rect = Rect { row: 0, column: 0, width: 20, height: 5 };
    pl.update();
    assert_eq!(pl.widths, (3, 5));
    assert_eq!(pl.formatted_widths, (3, 5));
    assert_eq!(pl.header_height(), 1);
    assert_eq!(pl.rows_height(), 0);
    assert_eq!(pl.formatted_header.len(), 1);
    assert_eq!(pl.formatted_header[0].len(), 1);
    match &pl.formatted_header[0][0] {
        Item::Text { text, width, widths } => {
            assert_eq!(text, "Key Value");
            assert_eq!(*width, 9);
            assert_eq!(widths.len(), 9);
        },
        Item::Special(_) => panic!("expected text"),
    }
}

#[test]
fn property_list_narrow_rect_splits_width() {
    let mut pl = PropertyList::new("Key".to_string(), ones(3), "Value".to_string(), ones(5), WidgetId(2));
    pl.widget_data.rect = Rect { row: 0, column: 0, width: 7, height: 5 };
    pl.update();
    // 3 + 1 + 5 > 7: the key keeps its width, the value takes the rest
    assert_eq!(pl.formatted_widths, (3, 3));
    // "Value" wrapped to three columns takes two lines
    assert_eq!(pl.header_height(), 2);
}

#[test]
fn property_list_draws_header_and_blank_lines() {
    let mut pl = PropertyList::new("Key".to_string(), ones(3), "Value".to_string(), ones(5), WidgetId(3));
    pl.widget_data.rect = Rect { row: 0, column: 0, width: 20, height: 3 };
    pl.update();
    let ops = pl.draw(window(), 0, 0);
    assert_eq!(ops, vec![
        DrawOp::Scoped(TermIOState::DefaultBackground(odd_row_background_value())),
        DrawOp::Scoped(TermIOState::DefaultForeground(table_foreground_value())),
        DrawOp::FontWeight(FontWeight::Bold),
        DrawOp::ClearStyle,
        DrawOp::FgDefault,
        DrawOp::BgDefault,
        DrawOp::MoveCursor { row: 0, column: 0 },
        text("Key Value"),
        text(" "),
        DrawOp::Repeat(10),
        DrawOp::FontWeight(FontWeight::Normal),
        DrawOp::MoveCursor { row: 1, column: 0 },
        text(" "),
        DrawOp::Repeat(19),
        text("\n"),
        text(" "),
        DrawOp::Repeat(19),
        DrawOp::EndScope,
        DrawOp::EndScope,
    ]);
    assert!(!pl.widget_data.dirty);
    // a clean list draws nothing
    assert!(pl.draw(window(), 0, 0).is_empty());
}

#[test]
fn empty_crops_at_the_far_corner_draw_nothing() {
    let rt = RichText::from_plain_text("ab", &ones(2));
    assert!(rt.draw_cropped(window(), &[vec![ones(2)]], i32::MIN, i32::MIN, 0, 0, 0, 5).is_empty());
    assert!(rt.draw_cropped(window(), &[vec![ones(2)]], i32::MIN, 0, 3, 0, 2, 1).is_empty());
    assert!(crop_region(1, Some(2), window(), i32::MIN, i32::MIN, 0, 0, 2, 0).is_none());
}

#[test]
fn property_list_far_below_the_terminal_draws_no_lines() {
    let mut pl = PropertyList::new("Key".to_string(), ones(3), "Value".to_string(), ones(5), WidgetId(4));
    pl.widget_data.rect = Rect { row: (1 << 30) + 5, column: 0, width: 20, height: 3 };
    pl.update();
    let ops = pl.draw(window(), 0, 0);
    assert_eq!(ops.first(), Some(&DrawOp::Scoped(TermIOState::DefaultBackground(odd_row_background_value()))));
    assert!(!ops.contains(&text("Key Value")));
    assert!(ops.contains(&DrawOp::MoveCursor { row: (1 << 30) + 6, column: 0 }));
    assert!(!pl.widget_data.dirty);
}
