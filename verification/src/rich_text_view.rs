use vstd::prelude::*;
use crate::rect::Rect;
use crate::event::{Event, Key};
use crate::message::MessageBroker;
use crate::widget::{ActionFlags, WidgetData, WidgetId};
use crate::rich_text::{RichText, append_text_result, default_style, room_for};
use crate::rich_parse::{ParseOutcome, parse_rich, parse_locatable};
use crate::parse_error::{ParseError, location_of};
use crate::text::byte_offset;
use crate::char_width::valid_widths;
use crate::table::{clamp_scroll, trunc32, trunc_u32};

verus! {

/// A scrollable view of a rich text.
#[derive(Debug)]
pub struct RichTextView {
    pub widget_data: WidgetData,
    pub rich_text: RichText,
    pub scroll_row: u32,
    pub scroll_column: u32,
}

/// Scroll position of a view after an event, and whether it changed.
pub ghost struct ViewOutcome {
    pub scroll_row: u32,
    pub scroll_column: u32,
    pub dirty: bool,
}

impl RichTextView {
    /// A view of `rich_text` scrolled to its start.
    pub fn new(rich_text: RichText, widget_id: WidgetId) -> (r: Self)
        ensures
            r.rich_text == rich_text,
            r.widget_data == WidgetData::new_spec(widget_id),
            r.scroll_row == 0,
            r.scroll_column == 0,
    {
        RichTextView { widget_data: WidgetData::new(widget_id), rich_text, scroll_row: 0, scroll_column: 0 }
    }

    /// A view of `plain_text` in the default style.
    pub fn from_plain_text(plain_text: &str, widths: &[i32], widget_id: WidgetId) -> (r: Self)
        requires
            widths@.len() == plain_text@.len(),
            valid_widths(widths@),
            room_for(Seq::empty(), plain_text@.len()),
        ensures
            (r.rich_text.lines_v(), r.rich_text.width as nat)
                == append_text_result(Seq::empty(), 0, default_style(), plain_text@, widths@),
            r.widget_data == WidgetData::new_spec(widget_id),
            r.scroll_row == 0,
            r.scroll_column == 0,
    {
        RichTextView {
            widget_data: WidgetData::new(widget_id),
            rich_text: RichText::from_plain_text(plain_text, widths),
            scroll_row: 0,
            scroll_column: 0,
        }
    }

    /// A view of the rich text markup `rich_text`, or the error that
    /// parsing it gives; see [`RichText::parse`].
    pub fn from_rich_text(rich_text: &str, widths: &[i32], widget_id: WidgetId) -> (r: Result<Self, ParseError>)
        requires
            widths@.len() == rich_text@.len(),
            valid_widths(widths@),
            parse_locatable(parse_rich(Seq::empty(), 0, rich_text@, widths@), rich_text@),
        ensures
            match parse_rich(Seq::empty(), 0, rich_text@, widths@) {
                ParseOutcome::Done(l, w) => r matches Ok(v) && v.rich_text.lines_v() == l && v.rich_text.width == w
                    && v.widget_data == WidgetData::new_spec(widget_id) && v.scroll_row == 0 && v.scroll_column == 0,
                ParseOutcome::Failed(k, p, _, _) => r matches Err(e) && e.kind == k && e.index == byte_offset(rich_text@, p)
                    && e.location == location_of(rich_text@, p),
            },
    {
        match RichText::parse(rich_text, widths) {
            Ok(rt) => Ok(RichTextView { widget_data: WidgetData::new(widget_id), rich_text: rt, scroll_row: 0, scroll_column: 0 }),
            Err(e) => Err(e),
        }
    }

    pub fn scroll_row(&self) -> (r: u32)
        ensures
            r == self.scroll_row,
    {
        self.scroll_row
    }

    pub fn scroll_column(&self) -> (r: u32)
        ensures
            r == self.scroll_column,
    {
        self.scroll_column
    }

    pub fn rich_text(&self) -> (r: &RichText)
        ensures
            *r == self.rich_text,
    {
        &self.rich_text
    }

    pub fn widget_id(&self) -> (r: WidgetId)
        ensures
            r == self.widget_data.widget_id,
    {
        self.widget_data.widget_id
    }

    pub fn draw_rect(&self) -> (r: &Rect)
        ensures
            *r == self.widget_data.rect,
    {
        &self.widget_data.rect
    }

    pub fn is_dirty(&self) -> (r: bool)
        ensures
            r == self.widget_data.dirty,
    {
        self.widget_data.dirty
    }

    pub fn set_dirty(&mut self, dirty: bool)
        ensures
            final(self).widget_data.dirty == dirty,
            final(self).widget_data.rect == old(self).widget_data.rect,
            final(self).widget_data.widget_id == old(self).widget_data.widget_id,
            final(self).rich_text == old(self).rich_text,
            final(self).scroll_row == old(self).scroll_row,
            final(self).scroll_column == old(self).scroll_column,
    {
        self.widget_data.dirty = dirty;
    }

    /// Keeps the scroll row within the text; see [`clamp_scroll`].
    pub fn clamp_scroll_row(&mut self)
        ensures
            final(self).scroll_row == clamp_scroll(old(self).rich_text.lines_v().len(), old(self).widget_data.rect.height as nat, old(self).scroll_row),
            final(self).scroll_column == old(self).scroll_column,
            final(self).widget_data == old(self).widget_data,
            final(self).rich_text == old(self).rich_text,
    {
        let height = self.rich_text.height();
        if self.widget_data.rect.height as usize > height {
            self.scroll_row = 0;
        } else {
            let max_overflow = trunc_u32(height - self.widget_data.rect.height as usize);
            if self.scroll_row > max_overflow {
                self.scroll_row = max_overflow;
            }
        }
    }

    /// Keeps the scroll column within the text; see [`clamp_scroll`].
    pub fn clamp_scroll_column(&mut self)
        ensures
            final(self).scroll_column == clamp_scroll(old(self).rich_text.width as nat, old(self).widget_data.rect.width as nat, old(self).scroll_column),
            final(self).scroll_row == old(self).scroll_row,
            final(self).widget_data == old(self).widget_data,
            final(self).rich_text == old(self).rich_text,
    {
        if self.widget_data.rect.width as usize > self.rich_text.width() {
            self.scroll_column = 0;
        } else {
            let max_overflow = trunc_u32(self.rich_text.width() - self.widget_data.rect.width as usize);
            if self.scroll_column > max_overflow {
                self.scroll_column = max_overflow;
            }
        }
    }

    /// Moves the view to `rect`; where it changes, the view must be drawn
    /// again and its scroll position is kept within the text.
    pub fn set_draw_rect(&mut self, rect: &Rect)
        ensures
            final(self).widget_data.rect == *rect,
            final(self).rich_text == old(self).rich_text,
            final(self).widget_data.widget_id == old(self).widget_data.widget_id,
            *rect != old(self).widget_data.rect ==> final(self).widget_data.dirty
                && final(self).scroll_row == clamp_scroll(old(self).rich_text.lines_v().len(), rect.height as nat, old(self).scroll_row)
                && final(self).scroll_column == clamp_scroll(old(self).rich_text.width as nat, rect.width as nat, old(self).scroll_column),
            *rect == old(self).widget_data.rect ==> *final(self) == *old(self),
    {
        if self.widget_data.rect != *rect {
            self.widget_data.rect = *rect;
            self.widget_data.dirty = true;
            self.clamp_scroll_row();
            self.clamp_scroll_column();
        }
    }

    /// The view's lines past what fits in its height.
    pub open spec fn overflow_rows(&self) -> int {
        self.rich_text.lines_v().len() - self.widget_data.rect.height
    }

    pub open spec fn same(&self) -> ViewOutcome {
        ViewOutcome { scroll_row: self.scroll_row, scroll_column: self.scroll_column, dirty: false }
    }

    pub open spec fn to_row(&self, r: u32) -> ViewOutcome {
        if r != self.scroll_row { ViewOutcome { scroll_row: r, dirty: true, ..self.same() } } else { self.same() }
    }

    pub open spec fn to_column(&self, c: u32) -> ViewOutcome {
        if c != self.scroll_column { ViewOutcome { scroll_column: c, dirty: true, ..self.same() } } else { self.same() }
    }

    /// What a key does to the view: Up, Down, Home, End, Page Up and Page
    /// Down scroll the rows, Left and Right the columns, Ctrl with Home and
    /// End to the first or last column; the view is drawn again where the
    /// position changes.
    pub open spec fn view_event(&self, e: Event) -> ViewOutcome {
        match e {
            Event::KeyPress { ctrl: false, alt: false, shift: false, key } => match key {
                Key::Up => if self.scroll_row > 0 { self.to_row((self.scroll_row - 1) as u32) } else { self.same() },
                Key::Home => if self.scroll_row > 0 { self.to_row(0) } else { self.same() },
                Key::Down => if self.scroll_row < u32::MAX {
                    self.to_row(clamp_scroll(self.rich_text.lines_v().len(), self.widget_data.rect.height as nat, (self.scroll_row + 1) as u32))
                } else {
                    self.same()
                },
                Key::End => self.to_row(trunc32(self.overflow_rows())),
                Key::Left => if self.scroll_column > 0 { self.to_column((self.scroll_column - 1) as u32) } else { self.same() },
                Key::Right => if self.scroll_column < u32::MAX {
                    self.to_column(clamp_scroll(self.rich_text.width as nat, self.widget_data.rect.width as nat, (self.scroll_column + 1) as u32))
                } else {
                    self.same()
                },
                Key::PageUp => self.to_row(
                    if self.scroll_row >= self.widget_data.rect.height { (self.scroll_row - self.widget_data.rect.height) as u32 } else { 0 },
                ),
                Key::PageDown => {
                    let down = if self.scroll_row + self.widget_data.rect.height <= u32::MAX {
                        (self.scroll_row + self.widget_data.rect.height) as u32
                    } else {
                        u32::MAX
                    };
                    let m = trunc32(self.overflow_rows());
                    self.to_row(if down <= m { down } else { m })
                },
                _ => self.same(),
            },
            Event::KeyPress { ctrl: true, alt: false, shift: false, key } => match key {
                Key::Home => if self.scroll_column > 0 { self.to_column(0) } else { self.same() },
                Key::End => if self.scroll_column < u32::MAX {
                    if self.widget_data.rect.width > self.rich_text.width {
                        self.to_column(0)
                    } else {
                        self.to_column(trunc32(self.rich_text.width - self.widget_data.rect.width))
                    }
                } else {
                    self.same()
                },
                _ => self.same(),
            },
            _ => self.same(),
        }
    }

    /// End and Page Down need the text to be at least as tall as the view.
    pub open spec fn view_event_ok(&self, e: Event) -> bool {
        (e == Event::KeyPress { ctrl: false, alt: false, shift: false, key: Key::End }
            || e == Event::KeyPress { ctrl: false, alt: false, shift: false, key: Key::PageDown })
            ==> self.overflow_rows() >= 0
    }

    /// Handles a key; see [`RichTextView::view_event`].
    pub fn handle_event(&mut self, event: &Event, broker: &mut MessageBroker) -> (r: ActionFlags)
        requires
            old(self).view_event_ok(*event),
        ensures
            final(self).scroll_row == old(self).view_event(*event).scroll_row,
            final(self).scroll_column == old(self).view_event(*event).scroll_column,
            r.bits == if old(self).view_event(*event).dirty { 1u32 } else { 0u32 },
            final(self).widget_data.dirty == (old(self).widget_data.dirty || old(self).view_event(*event).dirty),
            final(self).widget_data.rect == old(self).widget_data.rect,
            final(self).widget_data.widget_id == old(self).widget_data.widget_id,
            final(self).rich_text == old(self).rich_text,
            final(broker).messages@ == old(broker).messages@,
    {
        let dirty = ActionFlags::dirty();
        let none = ActionFlags::empty();
        match *event {
            Event::KeyPress { ctrl: false, alt: false, shift: false, key } => match key {
                Key::Up => {
                    if self.scroll_row > 0 {
                        self.scroll_row = self.scroll_row - 1;
                        self.widget_data.dirty = true;
                        return dirty;
                    }
                    none
                },
                Key::Home => {
                    if self.scroll_row > 0 {
                        self.scroll_row = 0;
                        self.widget_data.dirty = true;
                        return dirty;
                    }
                    none
                },
                Key::Down => {
                    if self.scroll_row < u32::MAX {
                        let scroll_row = self.scroll_row;
                        self.scroll_row = self.scroll_row + 1;
                        self.clamp_scroll_row();
                        if self.scroll_row != scroll_row {
                            self.widget_data.dirty = true;
                            return dirty;
                        }
                        self.scroll_row = scroll_row;
                    }
                    none
                },
                Key::End => {
                    let scroll_row = trunc_u32(self.rich_text.height() - self.widget_data.rect.height as usize);
                    if self.scroll_row != scroll_row {
                        self.scroll_row = scroll_row;
                        self.widget_data.dirty = true;
                        return dirty;
                    }
                    none
                },
                Key::Left => {
                    if self.scroll_column > 0 {
                        self.scroll_column = self.scroll_column - 1;
                        self.widget_data.dirty = true;
                        return dirty;
                    }
                    none
                },
                Key::Right => {
                    if self.scroll_column < u32::MAX {
                        let scroll_column = self.scroll_column;
                        self.scroll_column = self.scroll_column + 1;
                        self.clamp_scroll_column();
                        if self.scroll_column != scroll_column {
                            self.widget_data.dirty = true;
                            return dirty;
                        }
                        self.scroll_column = scroll_column;
                    }
                    none
                },
                Key::PageUp => {
                    let scroll_row = self.scroll_row.saturating_sub(self.widget_data.rect.height);
                    if scroll_row != self.scroll_row {
                        self.scroll_row = scroll_row;
                        self.widget_data.dirty = true;
                        return dirty;
                    }
                    none
                },
                Key::PageDown => {
                    let down = self.scroll_row.saturating_add(self.widget_data.rect.height);
                    let m = trunc_u32(self.rich_text.height() - self.widget_data.rect.height as usize);
                    let scroll_row = if down <= m { down } else { m };
                    if scroll_row != self.scroll_row {
                        self.scroll_row = scroll_row;
                        self.widget_data.dirty = true;
                        return dirty;
                    }
                    none
                },
                _ => none,
            },
            Event::KeyPress { ctrl: true, alt: false, shift: false, key } => match key {
                Key::Home => {
                    if self.scroll_column > 0 {
                        self.scroll_column = 0;
                        self.widget_data.dirty = true;
                        return dirty;
                    }
                    none
                },
                Key::End => {
                    if self.scroll_column < u32::MAX {
                        if self.widget_data.rect.width as usize > self.rich_text.width() {
                            if self.scroll_column != 0 {
                                self.scroll_column = 0;
                                self.widget_data.dirty = true;
                                return dirty;
                            }
                        } else {
                            let max_overflow = trunc_u32(self.rich_text.width() - self.widget_data.rect.width as usize);
                            if self.scroll_column != max_overflow {
                                self.scroll_column = max_overflow;
                                self.widget_data.dirty = true;
                                return dirty;
                            }
                        }
                    }
                    none
                },
                _ => none,
            },
            _ => none,
        }
    }
}

} // verus!
