use thar::viewer::{App, AppOutcome};
use thar::event::{Event, Key};
use thar::message::{MessageBroker, MessageKind};
use thar::rect::Rect;
use thar::schema::ActiveView;
use thar::widget::{ActionFlags, WidgetId};

fn app() -> App {
    App::new(WidgetId(1), WidgetId(2), WidgetId(10), WidgetId(11), vec![1; 8], vec![1; 5])
}

fn key(k: Key) -> Event {
    Event::KeyPress { key: k, ctrl: false, alt: false, shift: false }
}

#[test]
fn viewer_starts_with_the_requests_tab() {
    let a = app();
    assert_eq!(a.active_view, ActiveView::Tabs);
    assert_eq!(a.tabs.tabs.len(), 2);
    assert_eq!(a.tabs.tabs[0].title, "Requests");
    assert_eq!(a.tabs.tabs[1].mnemonic, 'P');
    assert_eq!(a.tabs.selected_tab_id(), Some(WidgetId(10)));
}

#[test]
fn q_asks_to_quit() {
    let mut a = app();
    let mut broker = MessageBroker::new();
    assert_eq!(a.handle_event(&key(Key::Char('q')), &mut broker), AppOutcome::Handled(ActionFlags::empty()));
    let msgs = broker.take_messages();
    assert_eq!(msgs.len(), 1);
    assert!(msgs[0].is(MessageKind::AppQuit));
}

#[test]
fn selecting_rows_and_escaping_back() {
    let mut a = app();
    let mut broker = MessageBroker::new();
    assert_eq!(a.select_row(WidgetId(11), 4), Some(true));
    assert_eq!(a.active_view, ActiveView::Page(4));
    assert_eq!(a.select_row(WidgetId(11), 4), Some(false));
    assert_eq!(a.select_row(WidgetId(99), 1), None);
    assert!(!a.passes_tab_flags());
    assert_eq!(a.handle_event(&key(Key::Down), &mut broker), AppOutcome::Handled(ActionFlags::empty()));
    assert_eq!(a.handle_event(&key(Key::Escape), &mut broker), AppOutcome::Redraw);
    assert_eq!(a.active_view, ActiveView::Tabs);
    assert_eq!(a.tabs.selected_tab_index(), 1);
    assert!(a.passes_tab_flags());
    assert_eq!(a.select_row(WidgetId(10), 0), Some(true));
    assert_eq!(a.handle_event(&key(Key::Escape), &mut broker), AppOutcome::Redraw);
    assert_eq!(a.tabs.selected_tab_index(), 0);
    assert!(!broker.has_pending());
}

#[test]
fn events_in_the_tabs_view() {
    let mut a = app();
    let mut broker = MessageBroker::new();
    assert_eq!(a.handle_event(&key(Key::Down), &mut broker), AppOutcome::Forward(WidgetId(10)));
    assert_eq!(a.handle_event(&key(Key::Escape), &mut broker), AppOutcome::Forward(WidgetId(10)));
    let alt_p = Event::KeyPress { key: Key::Char('p'), ctrl: false, alt: true, shift: false };
    assert_eq!(a.handle_event(&alt_p, &mut broker), AppOutcome::Handled(ActionFlags::dirty()));
    assert_eq!(a.tabs.selected_tab_id(), Some(WidgetId(11)));
}

#[test]
fn viewer_places_its_tabs() {
    let mut a = app();
    let r = a.set_draw_rect(&Rect { row: 3, column: 2, width: 80, height: 24 });
    assert_eq!(a.draw_rect, Rect { row: 3, column: 2, width: 80, height: 24 });
    assert_eq!(a.tabs.widget_data.rect, Rect { row: 0, column: 0, width: 80, height: 24 });
    assert_eq!(r, Some((WidgetId(10), Rect { row: 1, column: 0, width: 80, height: 23 })));
    assert_eq!(a.set_draw_rect(&Rect { row: 5, column: 5, width: 80, height: 24 }), None);
}
