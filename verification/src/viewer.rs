use vstd::prelude::*;
use crate::tabs::{Tab, Tabs, TabsOutcome, tab_ok, tabs_select_index, first_tab_of, tabs_after_event, content_rect_spec};
use crate::rect::Rect;
use crate::event::{Event, Key};
use crate::widget::{ActionFlags, WidgetData, WidgetId};
use crate::schema::ActiveView;
use crate::message::{AppQuit, Message, MessageBroker, MessageData};
use crate::char_width::valid_widths;

verus! {

/// The viewer: a row of tabs with the tables of requests and of pages, or
/// one request or page chosen from them.
#[derive(Debug)]
pub struct App {
    pub tabs: Tabs,
    pub draw_rect: Rect,
    pub widget_id: WidgetId,
    pub requests_table_id: WidgetId,
    pub pages_table_id: WidgetId,
    pub active_view: ActiveView,
}

/// What the viewer does with an event: asks to be drawn again, handles
/// it (with what its widgets ask), or passes it to a widget.
#[derive(Debug, Clone, Copy, PartialEq, Eq, Structural)]
pub enum AppOutcome {
    Redraw,
    Handled(ActionFlags),
    Forward(WidgetId),
}

/// `e` is the key `key` pressed without modifiers.
pub open spec fn plain_key(e: Event, key: Key) -> bool {
    e == (Event::KeyPress { key, ctrl: false, alt: false, shift: false })
}

/// The viewer back at its tabs, with the tab of the table `id` selected.
pub open spec fn back_to_tabs(a: App, id: WidgetId) -> App {
    App { active_view: ActiveView::Tabs, tabs: tabs_select_index(a.tabs, first_tab_of(a.tabs.tabs@, id, 0)), ..a }
}

/// What an event does to the viewer: Escape in a request or a page goes
/// back to the tab of its table and asks to draw again; with the tabs
/// shown the tabs take it; otherwise it is handled with nothing to do.
/// (`q` is handled apart: it asks to quit.)
pub open spec fn app_after_event(a: App, e: Event) -> (App, AppOutcome) {
    if plain_key(e, Key::Escape) && a.active_view is Entry {
        (back_to_tabs(a, a.requests_table_id), AppOutcome::Redraw)
    } else if plain_key(e, Key::Escape) && a.active_view is Page {
        (back_to_tabs(a, a.pages_table_id), AppOutcome::Redraw)
    } else if a.active_view is Tabs {
        let (t, o) = tabs_after_event(a.tabs, e);
        (App { tabs: t, ..a }, match o {
            TabsOutcome::Handled(f) => AppOutcome::Handled(f),
            TabsOutcome::Forward(id) => AppOutcome::Forward(id),
        })
    } else {
        (a, AppOutcome::Handled(ActionFlags { bits: 0 }))
    }
}

/// What a request to show a row of a table does to the viewer: a row of
/// the requests table shows that request, one of the pages table that
/// page; the viewer is drawn again where the view changed.  `None` where
/// the row is of another table.
pub open spec fn app_after_select(a: App, table: WidgetId, row: usize) -> Option<(App, bool)> {
    let view = if table == a.requests_table_id {
        Some(ActiveView::Entry(row))
    } else if table == a.pages_table_id {
        Some(ActiveView::Page(row))
    } else {
        None
    };
    match view {
        Some(v) => Some((App { active_view: v, ..a }, v != a.active_view)),
        None => None,
    }
}

impl App {
    /// The viewer with the tabs of requests and of pages; the widths are
    /// those of the characters of the two titles.
    pub fn new(widget_id: WidgetId, tabs_id: WidgetId, requests_table_id: WidgetId, pages_table_id: WidgetId,
        requests_title_widths: Vec<i32>, pages_title_widths: Vec<i32>) -> (r: Self)
        requires
            requests_title_widths@.len() == 8,
            valid_widths(requests_title_widths@),
            pages_title_widths@.len() == 5,
            valid_widths(pages_title_widths@),
        ensures
            r.tabs.tabs@.len() == 2,
            r.tabs.tabs@[0].title@ == "Requests"@,
            r.tabs.tabs@[0].title_widths@ == requests_title_widths@,
            r.tabs.tabs@[0].mnemonic == 'R',
            r.tabs.tabs@[0].content == requests_table_id,
            r.tabs.tabs@[1].title@ == "Pages"@,
            r.tabs.tabs@[1].title_widths@ == pages_title_widths@,
            r.tabs.tabs@[1].mnemonic == 'P',
            r.tabs.tabs@[1].content == pages_table_id,
            r.tabs.formatted(),
            r.tabs.selected_tab_index == 0,
            r.tabs.widget_data == WidgetData::new_spec(tabs_id),
            r.draw_rect == (Rect { row: 0, column: 0, width: 0, height: 0 }),
            r.widget_id == widget_id,
            r.requests_table_id == requests_table_id,
            r.pages_table_id == pages_table_id,
            r.active_view == ActiveView::Tabs,
    {
        proof {
            reveal_strlit("Requests");
            reveal_strlit("Pages");
        }
        let requests = Tab {
            title: "Requests".to_owned(),
            title_widths: requests_title_widths,
            mnemonic: 'R',
            content: requests_table_id,
        };
        let pages = Tab {
            title: "Pages".to_owned(),
            title_widths: pages_title_widths,
            mnemonic: 'P',
            content: pages_table_id,
        };
        let mut v: Vec<Tab> = Vec::new();
        v.push(requests);
        v.push(pages);
        let tabs = Tabs::with_tabs(v, tabs_id);
        App {
            tabs,
            draw_rect: Rect::default(),
            widget_id,
            requests_table_id,
            pages_table_id,
            active_view: ActiveView::Tabs,
        }
    }

    /// Places the viewer in `rect`; with the tabs shown they take the
    /// whole of it (from its corner), and the selected tab's widget is
    /// returned with its rectangle where the tabs moved.
    pub fn set_draw_rect(&mut self, rect: &Rect) -> (r: Option<(WidgetId, Rect)>)
        ensures
            final(self).draw_rect == *rect,
            ({
                let child = Rect { row: 0, column: 0, width: rect.width, height: rect.height };
                if old(self).active_view is Tabs {
                    final(self).tabs.widget_data.rect == child
                    && (old(self).tabs.widget_data.rect == child ==> r is None && final(self).tabs == old(self).tabs)
                    && (old(self).tabs.widget_data.rect != child ==> final(self).tabs.widget_data.dirty
                        && r == (if old(self).tabs.selected_tab_index < old(self).tabs.tabs@.len() {
                            Some((old(self).tabs.tabs@[old(self).tabs.selected_tab_index as int].content,
                                content_rect_spec(child)))
                        } else {
                            None::<(WidgetId, Rect)>
                        }))
                } else {
                    r is None && final(self).tabs == old(self).tabs
                }
            }),
            final(self).tabs.tabs == old(self).tabs.tabs,
            final(self).tabs.selected_tab_index == old(self).tabs.selected_tab_index,
            final(self).active_view == old(self).active_view,
            final(self).widget_id == old(self).widget_id,
            final(self).requests_table_id == old(self).requests_table_id,
            final(self).pages_table_id == old(self).pages_table_id,
    {
        self.draw_rect = *rect;
        let child = Rect { row: 0, column: 0, width: rect.width, height: rect.height };
        match self.active_view {
            ActiveView::Tabs => self.tabs.set_draw_rect(&child),
            _ => None,
        }
    }

    /// An event; see [`app_after_event`].  `q` without modifiers asks to
    /// quit: the request goes to `broker` and the event is handled.
    pub fn handle_event(&mut self, event: &Event, broker: &mut MessageBroker) -> (r: AppOutcome)
        requires
            old(self).tabs.widget_data.rect.row < i32::MAX,
        ensures
            plain_key(*event, Key::Char('q')) ==> r == AppOutcome::Handled(ActionFlags { bits: 0 })
                && *final(self) == *old(self)
                && final(broker).messages@ == old(broker).messages@.push(Message {
                    data: MessageData::AppQuit(AppQuit), propergate: true }),
            !plain_key(*event, Key::Char('q')) ==> (*final(self), r) == app_after_event(*old(self), *event)
                && final(broker).messages@ == old(broker).messages@,
    {
        match *event {
            Event::KeyPress { key: Key::Char('q'), alt: false, ctrl: false, shift: false } => {
                broker.dispatch_message(Message::new(MessageData::AppQuit(AppQuit)));
                return AppOutcome::Handled(ActionFlags::empty());
            },
            Event::KeyPress { key: Key::Escape, ctrl: false, alt: false, shift: false } => {
                match self.active_view {
                    ActiveView::Entry(_) => {
                        self.active_view = ActiveView::Tabs;
                        let _ = self.tabs.set_selected_tab_id(self.requests_table_id);
                        return AppOutcome::Redraw;
                    },
                    ActiveView::Page(_) => {
                        self.active_view = ActiveView::Tabs;
                        let _ = self.tabs.set_selected_tab_id(self.pages_table_id);
                        return AppOutcome::Redraw;
                    },
                    _ => {},
                }
            },
            _ => {},
        }
        match self.active_view {
            ActiveView::Tabs => match self.tabs.handle_event(event) {
                TabsOutcome::Handled(f) => AppOutcome::Handled(f),
                TabsOutcome::Forward(id) => AppOutcome::Forward(id),
            },
            _ => AppOutcome::Handled(ActionFlags::empty()),
        }
    }

    /// A request to show row `row` of table `table`; see
    /// [`app_after_select`].  `Some(redraw)` where the request was for one
    /// of the viewer's tables (it goes no further), `None` where it goes on
    /// to the widgets of the tabs.
    pub fn select_row(&mut self, table: WidgetId, row: usize) -> (r: Option<bool>)
        ensures
            app_after_select(*old(self), table, row) matches Some((a, redraw)) ==> *final(self) == a && r == Some(redraw),
            app_after_select(*old(self), table, row) is None ==> *final(self) == *old(self) && r is None,
    {
        let view = if table == self.requests_table_id {
            ActiveView::Entry(row)
        } else if table == self.pages_table_id {
            ActiveView::Page(row)
        } else {
            return None;
        };
        if view != self.active_view {
            self.active_view = view;
            Some(true)
        } else {
            Some(false)
        }
    }

    /// What the widgets of the tabs ask after a message counts only while
    /// the tabs are shown.
    pub fn passes_tab_flags(&self) -> (r: bool)
        ensures
            r == (self.active_view is Tabs),
    {
        match self.active_view {
            ActiveView::Tabs => true,
            _ => false,
        }
    }
}

} // verus!
