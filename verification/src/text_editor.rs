use vstd::prelude::*;
use crate::plain_text::{PlainText, text_chars, all_specials_ok};
use crate::plain_wrap::{plain_wrap_spec, plain_wrap_ends};
use crate::draw::{plain_widths_ok, block_widths_v};
use crate::widget::{WidgetData, WidgetId};

verus! {

/// A place in a text: a line and a byte offset within it.
#[derive(Debug, Clone, Copy, PartialEq, Eq, Structural)]
pub struct Cursor {
    pub line_index: usize,
    pub byte_index: usize,
}

/// An editor of plain text, wrapped to its width, with a scroll position
/// and a cursor.
#[derive(Debug)]
pub struct TextEditor {
    pub widget_data: WidgetData,
    pub text: PlainText,
    pub scroll_row: u32,
    pub scroll_column: u32,
    pub cursor: Cursor,
}

/// A scroll offset kept at most at the overflow of `total` cells over
/// `view` cells (taken as a `u32`): none where everything fits.
pub open spec fn clamp_scroll(scroll: u32, total: int, view: int) -> u32 {
    if view > total {
        0
    } else if scroll > ((total - view) as u32) {
        (total - view) as u32
    } else {
        scroll
    }
}

impl TextEditor {
    /// An empty editor.
    pub fn new(widget_id: WidgetId) -> (r: Self)
        ensures
            r.widget_data == WidgetData::new_spec(widget_id),
            r.text.lines_v().len() == 0,
            r.text.width == 0,
            r.scroll_row == 0,
            r.scroll_column == 0,
            r.cursor == (Cursor { line_index: 0, byte_index: 0 }),
    {
        TextEditor {
            widget_data: WidgetData::new(widget_id),
            text: PlainText::new(),
            scroll_row: 0,
            scroll_column: 0,
            cursor: Cursor { line_index: 0, byte_index: 0 },
        }
    }

    /// Appends the text to `buf`; see [`PlainText::write`].
    pub fn write_to(&self, buf: &mut String)
        requires
            all_specials_ok(self.text.lines_v()),
        ensures
            final(buf)@ == old(buf)@ + text_chars(self.text.lines_v()),
    {
        self.text.write(buf)
    }

    /// Wraps the text to the width of the editor; `widths` gives the widths
    /// of the characters of the text's items.
    pub fn update(&mut self, widths: &[Vec<Vec<i32>>])
        requires
            old(self).text.width > crate::plain_wrap::wrap_columns(old(self).widget_data.rect.width as nat)
                ==> plain_widths_ok(old(self).text.lines_v(), block_widths_v(widths@)),
            plain_wrap_ends(old(self).text.lines_v(), block_widths_v(widths@), old(self).text.width as nat,
                old(self).widget_data.rect.width as nat),
        ensures
            (final(self).text.lines_v(), final(self).text.width as nat) == plain_wrap_spec(old(self).text.lines_v(),
                block_widths_v(widths@), old(self).text.width as nat, old(self).widget_data.rect.width as nat),
            final(self).widget_data == old(self).widget_data,
            final(self).scroll_row == old(self).scroll_row,
            final(self).scroll_column == old(self).scroll_column,
            final(self).cursor == old(self).cursor,
    {
        self.text = self.text.wrap(self.widget_data.rect.width as usize, widths);
    }

    /// Wraps the text to the width of the editor, as [`TextEditor::update`]
    /// does, where the wrapping is sure to end: the text fits, or no
    /// character is wider than a line.  Otherwise nothing changes and the
    /// result is `false`.
    pub fn update_when_it_ends(&mut self, widths: &[Vec<Vec<i32>>]) -> (r: bool)
        requires
            old(self).text.width > crate::plain_wrap::wrap_columns(old(self).widget_data.rect.width as nat)
                ==> plain_widths_ok(old(self).text.lines_v(), block_widths_v(widths@)),
        ensures
            !r <==> old(self).text.width > crate::plain_wrap::wrap_columns(old(self).widget_data.rect.width as nat)
                && !crate::plain_wrap::chars_fit(block_widths_v(widths@),
                    crate::plain_wrap::wrap_columns(old(self).widget_data.rect.width as nat)),
            r ==> (final(self).text.lines_v(), final(self).text.width as nat) == plain_wrap_spec(old(self).text.lines_v(),
                block_widths_v(widths@), old(self).text.width as nat, old(self).widget_data.rect.width as nat),
            !r ==> final(self).text == old(self).text,
            final(self).widget_data == old(self).widget_data,
            final(self).scroll_row == old(self).scroll_row,
            final(self).scroll_column == old(self).scroll_column,
            final(self).cursor == old(self).cursor,
    {
        match self.text.wrap_when_it_ends(self.widget_data.rect.width as usize, widths) {
            Some(t) => {
                self.text = t;
                true
            },
            None => false,
        }
    }

    /// Keeps the scrolled rows within the text.
    pub fn clamp_scroll_row(&mut self)
        ensures
            final(self).scroll_row == clamp_scroll(old(self).scroll_row, old(self).text.lines@.len() as int,
                old(self).widget_data.rect.height as int),
            final(self).text == old(self).text,
            final(self).widget_data == old(self).widget_data,
            final(self).scroll_column == old(self).scroll_column,
            final(self).cursor == old(self).cursor,
    {
        let height = self.text.height();
        if self.widget_data.rect.height as usize > height {
            self.scroll_row = 0;
        } else {
            let max_overflow = (height - self.widget_data.rect.height as usize) as u32;
            if self.scroll_row > max_overflow {
                self.scroll_row = max_overflow;
            }
        }
    }

    /// Keeps the scrolled columns within the text.
    pub fn clamp_scroll_column(&mut self)
        ensures
            final(self).scroll_column == clamp_scroll(old(self).scroll_column, old(self).text.width as int,
                old(self).widget_data.rect.width as int),
            final(self).text == old(self).text,
            final(self).widget_data == old(self).widget_data,
            final(self).scroll_row == old(self).scroll_row,
            final(self).cursor == old(self).cursor,
    {
        if self.widget_data.rect.width as usize > self.text.width() {
            self.scroll_column = 0;
        } else {
            let max_overflow = (self.text.width() - self.widget_data.rect.width as usize) as u32;
            if self.scroll_column > max_overflow {
                self.scroll_column = max_overflow;
            }
        }
    }
}

} // verus!
