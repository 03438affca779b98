use thar::tabs::{format_tab, content_rect, Tab, Tabs, TabsOutcome};
use thar::rich_text::RichTextCode;
use thar::rect::Rect;
use thar::event::{Event, Key};
use thar::widget::WidgetId;
use thar::draw::{DrawOp, WindowSize};
use thar::style::TextDecoration;

fn tab(title: &str, mnemonic: char, id: usize) -> Tab {
    Tab {
        title: title.to_string(),
        title_widths: vec![1; title.chars().count()],
        mnemonic,
        content: WidgetId(id),
    }
}

fn texts(codes: &[RichTextCode]) -> Vec<String> {
    codes
        .iter()
        .filter_map(|c| match c {
            RichTextCode::Text { text, .. } => Some(text.clone()),
            _ => None,
        })
        .collect()
}

fn alt(ch: char) -> Event {
    Event::KeyPress { key: Key::Char(ch), ctrl: false, alt: true, shift: false }
}

#[test]
fn tab_label_underlines_the_mnemonic() {
    let label = format_tab("Response", &[1; 8], 'S');
    assert_eq!(label.width, 8);
    assert_eq!(label.lines.len(), 1);
    assert_eq!(texts(&label.lines[0]), vec!["Re".to_string(), "s".to_string(), "ponse".to_string()]);
    assert!(label.lines[0].iter().any(|c| matches!(c, RichTextCode::TextDecoration(TextDecoration::Underline))));
}

#[test]
fn tab_label_without_mnemonic_is_empty() {
    let label = format_tab("Request", &[1; 7], 'x');
    assert_eq!(label.width, 0);
    assert!(label.lines.is_empty());
}

#[test]
fn tab_label_with_mnemonic_first() {
    let label = format_tab("Timings", &[1; 7], 't');
    assert_eq!(texts(&label.lines[0]), vec!["T".to_string(), "imings".to_string()]);
    assert_eq!(label.width, 7);
}

#[test]
fn content_rect_is_below_the_titles() {
    let r = content_rect(&Rect { row: 2, column: 3, width: 40, height: 10 });
    assert_eq!(r, Rect { row: 3, column: 3, width: 40, height: 9 });
    let r = content_rect(&Rect { row: 0, column: 0, width: 5, height: 0 });
    assert_eq!(r, Rect { row: 1, column: 0, width: 5, height: 0 });
}

#[test]
fn alt_mnemonic_selects_a_tab() {
    let mut tabs = Tabs::with_tabs(vec![tab("Request", 'q', 10), tab("Response", 's', 11)], WidgetId(1));
    assert_eq!(tabs.formatted_tabs.len(), 2);
    assert_eq!(tabs.selected_tab_id(), Some(WidgetId(10)));
    tabs.widget_data.dirty = false;
    assert_eq!(tabs.handle_event(&alt('S')), TabsOutcome::Handled(thar::widget::ActionFlags::dirty()));
    assert_eq!(tabs.selected_tab_index(), 1);
    assert!(tabs.widget_data.dirty);
    assert_eq!(tabs.handle_event(&alt('s')), TabsOutcome::Handled(thar::widget::ActionFlags::empty()));
    let down = Event::KeyPress { key: Key::Down, ctrl: false, alt: false, shift: false };
    assert_eq!(tabs.handle_event(&down), TabsOutcome::Forward(WidgetId(11)));
    assert_eq!(tabs.handle_event(&alt('z')), TabsOutcome::Forward(WidgetId(11)));
}

#[test]
fn events_without_tabs_are_handled() {
    let mut tabs = Tabs::new(WidgetId(1));
    assert_eq!(tabs.handle_event(&alt('a')), TabsOutcome::Handled(thar::widget::ActionFlags::empty()));
    assert_eq!(tabs.selected_tab_id(), None);
}

#[test]
fn select_tab_by_widget() {
    let mut tabs = Tabs::with_tabs(vec![tab("Request", 'q', 10), tab("Response", 's', 11)], WidgetId(1));
    tabs.widget_data.rect = Rect { row: 0, column: 0, width: 80, height: 24 };
    let r = tabs.set_selected_tab_id(WidgetId(11));
    assert_eq!(r, Some((WidgetId(11), Rect { row: 1, column: 0, width: 80, height: 23 })));
    assert_eq!(tabs.selected_tab_index(), 1);
    assert_eq!(tabs.set_selected_tab_id(WidgetId(12)), None);
    assert_eq!(tabs.selected_tab_index(), 1);
    assert_eq!(tabs.set_selected_tab_index(5), None);
}

#[test]
fn add_and_clear_tabs() {
    let mut tabs = Tabs::new(WidgetId(1));
    tabs.widget_data.rect = Rect { row: 4, column: 1, width: 20, height: 6 };
    let r = tabs.add(tab("Cookies", 'c', 7));
    assert_eq!(r, Rect { row: 5, column: 1, width: 20, height: 5 });
    assert_eq!(tabs.tabs.len(), 1);
    assert_eq!(tabs.formatted_tabs[0].width, 7);
    tabs.clear();
    assert!(tabs.tabs.is_empty());
    assert!(tabs.formatted_tabs.is_empty());
    assert_eq!(tabs.selected_tab_index(), 0);
}

#[test]
fn tab_row_inverts_the_selected_label() {
    let mut tabs = Tabs::with_tabs(vec![tab("Ab", 'a', 10), tab("Cd", 'c', 11)], WidgetId(1));
    let widths: Vec<Vec<Vec<Vec<i32>>>> = tabs
        .formatted_tabs
        .iter()
        .map(|t| t.lines.iter().map(|l| l.iter().map(|c| match c {
            RichTextCode::Text { text, .. } => vec![1; text.chars().count()],
            _ => vec![],
        }).collect()).collect())
        .collect();
    let window = WindowSize { rows: 24, columns: 80 };
    let ops = tabs.draw(window, &widths, 0, 0);
    assert_eq!(ops.first(), Some(&DrawOp::Inverted(true)));
    assert_eq!(ops.last(), Some(&DrawOp::Inverted(false)));
    let inv: Vec<bool> = ops.iter().filter_map(|o| match o { DrawOp::Inverted(b) => Some(*b), _ => None }).collect();
    assert_eq!(inv, vec![true, false, false, true, false]);
    assert!(ops.contains(&DrawOp::Text(" ".to_string())));
    assert!(ops.contains(&DrawOp::MoveCursor { row: 0, column: 3 }));
    assert!(!tabs.widget_data.dirty);
    assert!(tabs.draw(window, &widths, 0, 0).is_empty());
}

#[test]
fn extend_set_tabs_and_set_content() {
    let mut tabs = Tabs::new(WidgetId(1));
    tabs.widget_data.rect = Rect { row: 0, column: 0, width: 30, height: 8 };
    let r = tabs.extend(vec![tab("Request", 'q', 10), tab("Response", 's', 11)]);
    assert_eq!(r, Rect { row: 1, column: 0, width: 30, height: 7 });
    assert_eq!(tabs.tabs.len(), 2);
    assert_eq!(tabs.formatted_tabs.len(), 2);
    tabs.set_selected_tab_index(1);
    let r = tabs.set_content(1, WidgetId(20));
    assert_eq!(r, Rect { row: 1, column: 0, width: 30, height: 7 });
    assert_eq!(tabs.selected_tab_id(), Some(WidgetId(20)));
    tabs.set_tabs(vec![tab("Cookies", 'c', 30)]);
    assert_eq!(tabs.selected_tab_index(), 0);
    assert_eq!(tabs.selected_tab_id(), Some(WidgetId(30)));
    assert_eq!(tabs.formatted_tabs.len(), 1);
    assert!(tabs.widget_data.dirty);
}
