use vstd::prelude::*;
use crate::rich_text::{RichText, RichTextStyle, Code, append_text_result, room_for, default_style};
use crate::char_width::valid_widths;
use crate::color::{Color, Color16};
use crate::style::TextDecoration;
use crate::rect::Rect;
use crate::event::{Event, Key};
use crate::widget::{WidgetData, WidgetId, ActionFlags};
use crate::text::{ascii_lower, to_ascii_lower, to_chars};
use crate::draw::{DrawOp, Op, WindowSize, ops_view, push_op, append_ops, rich_draw_spec, rich_widths_ok, rich_lines_fit,
    block_widths_v, clamp_u32};

verus! {

/// A tab: its title, the widths of the title's characters, the key that
/// selects it (with Alt), and the widget it shows.
#[derive(Debug)]
pub struct Tab {
    pub title: String,
    pub title_widths: Vec<i32>,
    pub mnemonic: char,
    pub content: WidgetId,
}

/// The style of tab titles: white on black.
pub open spec fn title_style() -> RichTextStyle {
    RichTextStyle { foreground: Color::Color16(Color16::White), background: Color::Color16(Color16::Black), ..default_style() }
}

/// The style of the mnemonic in a title: underlined.
pub open spec fn mnemonic_style() -> RichTextStyle {
    RichTextStyle { text_decoration: TextDecoration::Underline, ..title_style() }
}

/// Where the first character equal to `m` (ignoring ASCII case) is, from
/// `i` on; -1 where there is none.
pub open spec fn mnemonic_pos(t: Seq<char>, m: char, i: int) -> int
    decreases t.len() - i,
{
    if i < 0 || i >= t.len() {
        -1
    } else if ascii_lower(t[i]) == ascii_lower(m) {
        i
    } else {
        mnemonic_pos(t, m, i + 1)
    }
}

proof fn lemma_mnemonic_pos_bounds(t: Seq<char>, m: char, i: int)
    requires
        0 <= i,
    ensures
        mnemonic_pos(t, m, i) == -1 || i <= mnemonic_pos(t, m, i) < t.len(),
    decreases t.len() - i,
{
    if i < t.len() && ascii_lower(t[i]) != ascii_lower(m) {
        lemma_mnemonic_pos_bounds(t, m, i + 1);
    }
}

/// The label of a tab: the title with its mnemonic underlined; empty where
/// the title does not hold the mnemonic.
pub open spec fn tab_label(t: Seq<char>, ws: Seq<i32>, m: char) -> (Seq<Seq<Code>>, nat) {
    let k = mnemonic_pos(t, m, 0);
    if k < 0 {
        (Seq::empty(), 0)
    } else {
        let a = append_text_result(Seq::empty(), 0, title_style(), t.take(k), ws.take(k));
        let b = append_text_result(a.0, a.1, mnemonic_style(), t.subrange(k, k + 1), ws.subrange(k, k + 1));
        append_text_result(b.0, b.1, title_style(), t.skip(k + 1), ws.skip(k + 1))
    }
}

/// A tab's title holds one width per character.
pub open spec fn tab_ok(t: Tab) -> bool {
    t.title_widths@.len() == t.title@.len() && valid_widths(t.title_widths@)
}

/// The rectangle of the tabs' contents: below the line of titles.
pub open spec fn content_rect_spec(rect: Rect) -> Rect {
    Rect {
        row: (rect.row + 1) as i32,
        height: if rect.height > 0 { (rect.height - 1) as u32 } else { 0 },
        ..rect
    }
}

/// The rectangle of the tabs' contents.
pub fn content_rect(rect: &Rect) -> (r: Rect)
    requires
        rect.row < i32::MAX,
    ensures
        r == content_rect_spec(*rect),
{
    Rect { row: rect.row + 1, height: if rect.height > 0 { rect.height - 1 } else { 0 }, ..*rect }
}

fn widths_range(ws: &[i32], a: usize, b: usize) -> (r: Vec<i32>)
    requires
        a <= b <= ws@.len(),
    ensures
        r@ == ws@.subrange(a as int, b as int),
{
    let mut v: Vec<i32> = Vec::new();
    let mut i = a;
    while i < b
        invariant
            a <= i <= b <= ws@.len(),
            v@ == ws@.subrange(a as int, i as int),
        decreases b - i,
    {
        v.push(ws[i]);
        proof {
            assert(ws@.subrange(a as int, i + 1) =~= ws@.subrange(a as int, i as int).push(ws@[i as int]));
        }
        i += 1;
    }
    v
}

proof fn lemma_valid_range(ws: Seq<i32>, a: int, b: int)
    requires
        0 <= a <= b <= ws.len(),
        valid_widths(ws),
    ensures
        valid_widths(ws.subrange(a, b)),
{
    assert forall|i: int| 0 <= i < ws.subrange(a, b).len() implies -1 <= #[trigger] ws.subrange(a, b)[i] <= 2 by {
        assert(ws.subrange(a, b)[i] == ws[a + i]);
    }
}

/// The label of a tab; see [`tab_label`].
pub fn format_tab(title: &str, widths: &[i32], mnemonic: char) -> (r: RichText)
    requires
        widths@.len() == title@.len(),
        valid_widths(widths@),
    ensures
        (r.lines_v(), r.width as nat) == tab_label(title@, widths@, mnemonic),
{
    let t = to_chars(title);
    let m = to_ascii_lower(mnemonic);
    let mut k: usize = 0;
    proof {
        lemma_mnemonic_pos_bounds(t@, mnemonic, 0);
    }
    while k < t.len()
        invariant
            k <= t@.len(),
            t@ == title@,
            m == ascii_lower(mnemonic),
            mnemonic_pos(t@, mnemonic, 0) == mnemonic_pos(t@, mnemonic, k as int),
        ensures
            k <= t@.len(),
            mnemonic_pos(t@, mnemonic, 0) == mnemonic_pos(t@, mnemonic, k as int),
            k < t@.len() ==> ascii_lower(t@[k as int]) == ascii_lower(mnemonic),
        decreases t.len() - k,
    {
        if to_ascii_lower(t[k]) == m {
            break;
        }
        k += 1;
    }
    let mut label = RichText::new();
    if k == t.len() {
        return label;
    }
    let n = t.len();
    let style = RichTextStyle::build()
        .foreground(Color::Color16(Color16::White))
        .background(Color::Color16(Color16::Black))
        .into_inner();
    let mstyle = RichTextStyle::build()
        .foreground(Color::Color16(Color16::White))
        .background(Color::Color16(Color16::Black))
        .text_decoration(TextDecoration::Underline)
        .into_inner();
    proof {
        assert(style == title_style());
        assert(mstyle == mnemonic_style());
        assert(mnemonic_pos(t@, mnemonic, k as int) == k);
        lemma_valid_range(widths@, 0, k as int);
        lemma_valid_range(widths@, k as int, k + 1);
        lemma_valid_range(widths@, k + 1, n as int);
        assert(widths@.take(k as int) =~= widths@.subrange(0, k as int));
        assert(widths@.skip(k + 1) =~= widths@.subrange(k + 1, n as int));
        assert(title@.take(k as int) =~= title@.subrange(0, k as int));
        assert(title@.skip(k + 1) =~= title@.subrange(k + 1, n as int));
    }
    let w0 = widths_range(widths, 0, k);
    let w1 = widths_range(widths, k, k + 1);
    let w2 = widths_range(widths, k + 1, n);
    label.append_text(&style, title.substring_char(0, k), w0.as_slice());
    label.append_text(&mstyle, title.substring_char(k, k + 1), w1.as_slice());
    label.append_text(&style, title.substring_char(k + 1, n), w2.as_slice());
    label
}

/// A row of tabs, one of them selected, whose contents are other widgets.
#[derive(Debug)]
pub struct Tabs {
    pub widget_data: WidgetData,
    pub tabs: Vec<Tab>,
    pub formatted_tabs: Vec<RichText>,
    pub selected_tab_index: usize,
}

pub open spec fn labels_of(tabs: Seq<Tab>) -> Seq<(Seq<Seq<Code>>, nat)> {
    tabs.map_values(|t: Tab| tab_label(t.title@, t.title_widths@, t.mnemonic))
}

pub open spec fn formatted_of(texts: Seq<RichText>) -> Seq<(Seq<Seq<Code>>, nat)> {
    texts.map_values(|r: RichText| (r.lines_v(), r.width as nat))
}

/// What a row of tabs does with an event: handled by itself (asking to be
/// drawn again or not), or passed on to the widget of the selected tab.
#[derive(Debug, Clone, Copy, PartialEq, Eq, Structural)]
pub enum TabsOutcome {
    Handled(ActionFlags),
    Forward(WidgetId),
}

/// The character of an Alt key press of a character.
pub open spec fn mnemonic_key(e: Event) -> Option<char> {
    match e {
        Event::KeyPress { key: Key::Char(ch), ctrl: false, alt: true, shift: false } => Some(ch),
        _ => None,
    }
}

/// The first tab from `i` on that shows `id`; -1 where none does.
pub open spec fn first_tab_of(tabs: Seq<Tab>, id: WidgetId, i: int) -> int
    decreases tabs.len() - i,
{
    if i < 0 || i >= tabs.len() {
        -1
    } else if tabs[i].content == id {
        i
    } else {
        first_tab_of(tabs, id, i + 1)
    }
}

proof fn lemma_first_tab_of_bounds(tabs: Seq<Tab>, id: WidgetId, i: int)
    requires
        0 <= i,
    ensures
        first_tab_of(tabs, id, i) == -1 || i <= first_tab_of(tabs, id, i) < tabs.len(),
    decreases tabs.len() - i,
{
    if i < tabs.len() && tabs[i].content != id {
        lemma_first_tab_of_bounds(tabs, id, i + 1);
    }
}

/// The first tab from `i` on whose mnemonic is `ch`, ignoring ASCII case;
/// -1 where there is none.
pub open spec fn first_mnemonic(tabs: Seq<Tab>, ch: char, i: int) -> int
    decreases tabs.len() - i,
{
    if i < 0 || i >= tabs.len() {
        -1
    } else if ascii_lower(tabs[i].mnemonic) == ascii_lower(ch) {
        i
    } else {
        first_mnemonic(tabs, ch, i + 1)
    }
}

proof fn lemma_first_mnemonic_bounds(tabs: Seq<Tab>, ch: char, i: int)
    requires
        0 <= i,
    ensures
        first_mnemonic(tabs, ch, i) == -1 || i <= first_mnemonic(tabs, ch, i) < tabs.len(),
    decreases tabs.len() - i,
{
    if i < tabs.len() && ascii_lower(tabs[i].mnemonic) != ascii_lower(ch) {
        lemma_first_mnemonic_bounds(tabs, ch, i + 1);
    }
}

/// The row with tab `k` selected, where there is one: the row is to be
/// drawn again where the selection changed.
pub open spec fn tabs_select_index(t: Tabs, k: int) -> Tabs {
    if 0 <= k < t.tabs@.len() {
        Tabs {
            selected_tab_index: k as usize,
            widget_data: WidgetData { dirty: t.widget_data.dirty || k != t.selected_tab_index, ..t.widget_data },
            ..t
        }
    } else {
        t
    }
}

/// What an event does to a row of tabs: Alt with the mnemonic of a tab
/// selects the first such tab and is handled, asking to draw again where
/// the selection changed; any other event goes to the selected tab's
/// widget, or is handled where there is none.
pub open spec fn tabs_after_event(t: Tabs, e: Event) -> (Tabs, TabsOutcome) {
    let k = match mnemonic_key(e) {
        Some(ch) => first_mnemonic(t.tabs@, ch, 0),
        None => -1,
    };
    if k >= 0 {
        (tabs_select_index(t, k), TabsOutcome::Handled(
            if k == t.selected_tab_index { ActionFlags { bits: 0 } } else { ActionFlags { bits: 1 } }))
    } else if t.selected_tab_index < t.tabs@.len() {
        (t, TabsOutcome::Forward(t.tabs@[t.selected_tab_index as int].content))
    } else {
        (t, TabsOutcome::Handled(ActionFlags { bits: 0 }))
    }
}

/// Pressing the mnemonic of a tab a second time changes nothing and asks
/// for no drawing.
pub proof fn mnemonic_twice(t: Tabs, e: Event)
    requires
        mnemonic_key(e) is Some,
        first_mnemonic(t.tabs@, mnemonic_key(e)->0, 0) >= 0,
    ensures
        ({
            let once = tabs_after_event(t, e).0;
            tabs_after_event(once, e) == (once, TabsOutcome::Handled(ActionFlags { bits: 0 }))
        }),
{
    let ch = mnemonic_key(e)->0;
    lemma_first_mnemonic_bounds(t.tabs@, ch, 0);
    let k = first_mnemonic(t.tabs@, ch, 0);
    assert(t.tabs@.len() == t.tabs.len());
    let once = tabs_after_event(t, e).0;
    assert(once == tabs_select_index(t, k));
    assert(once.tabs@ == t.tabs@);
    assert(once.selected_tab_index == k);
    assert(tabs_select_index(once, k).widget_data == once.widget_data);
    assert(tabs_select_index(once, k) == once);
}

impl Tabs {
    pub open spec fn tabs_ok(&self) -> bool {
        forall|i: int| 0 <= i < self.tabs@.len() ==> #[trigger] tab_ok(self.tabs@[i])
    }

    /// The labels are those of the tabs.
    pub open spec fn formatted(&self) -> bool {
        formatted_of(self.formatted_tabs@) == labels_of(self.tabs@)
    }

    /// A row without tabs.
    pub fn new(widget_id: WidgetId) -> (r: Self)
        ensures
            r.widget_data == WidgetData::new_spec(widget_id),
            r.tabs@.len() == 0,
            r.formatted_tabs@.len() == 0,
            r.selected_tab_index == 0,
    {
        Tabs { widget_data: WidgetData::new(widget_id), tabs: Vec::new(), formatted_tabs: Vec::new(), selected_tab_index: 0 }
    }

    /// Formats the labels of the tabs.
    pub fn update(&mut self)
        requires
            old(self).tabs_ok(),
        ensures
            final(self).formatted(),
            final(self).tabs == old(self).tabs,
            final(self).widget_data == old(self).widget_data,
            final(self).selected_tab_index == old(self).selected_tab_index,
    {
        let mut out: Vec<RichText> = Vec::new();
        let mut i: usize = 0;
        while i < self.tabs.len()
            invariant
                i <= self.tabs@.len(),
                self.tabs_ok(),
                *self == *old(self),
                formatted_of(out@) == labels_of(self.tabs@.take(i as int)),
            decreases self.tabs.len() - i,
        {
            proof {
                assert(tab_ok(self.tabs@[i as int]));
            }
            let t = &self.tabs[i];
            let label = format_tab(t.title.as_str(), t.title_widths.as_slice(), t.mnemonic);
            let ghost o0 = out@;
            out.push(label);
            proof {
                assert(formatted_of(out@) =~= formatted_of(o0).push((label.lines_v(), label.width as nat)));
                assert(labels_of(self.tabs@.take(i + 1)) =~= labels_of(self.tabs@.take(i as int)).push(
                    tab_label(self.tabs@[i as int].title@, self.tabs@[i as int].title_widths@, self.tabs@[i as int].mnemonic)));
            }
            i += 1;
        }
        assert(self.tabs@.take(i as int) =~= self.tabs@);
        self.formatted_tabs = out;
    }

    /// A row of the tabs `tabs`, the first selected.
    pub fn with_tabs(tabs: Vec<Tab>, widget_id: WidgetId) -> (r: Self)
        requires
            forall|i: int| 0 <= i < tabs@.len() ==> #[trigger] tab_ok(tabs@[i]),
        ensures
            r.tabs@ == tabs@,
            r.formatted(),
            r.selected_tab_index == 0,
            r.widget_data == WidgetData::new_spec(widget_id),
    {
        let mut r = Tabs { widget_data: WidgetData::new(widget_id), tabs, formatted_tabs: Vec::new(), selected_tab_index: 0 };
        r.update();
        r
    }

    /// Removes every tab.
    pub fn clear(&mut self)
        ensures
            final(self).tabs@.len() == 0,
            final(self).formatted_tabs@.len() == 0,
            final(self).selected_tab_index == 0,
            final(self).widget_data == (WidgetData { dirty: true, ..old(self).widget_data }),
    {
        self.tabs = Vec::new();
        self.selected_tab_index = 0;
        self.update();
        assert(formatted_of(self.formatted_tabs@).len() == labels_of(self.tabs@).len());
        self.widget_data.dirty = true;
    }

    /// Adds a tab at the end; returns the rectangle its content takes.
    pub fn add(&mut self, tab: Tab) -> (r: Rect)
        requires
            old(self).tabs_ok(),
            tab_ok(tab),
            old(self).widget_data.rect.row < i32::MAX,
        ensures
            r == content_rect_spec(old(self).widget_data.rect),
            final(self).tabs@ == old(self).tabs@.push(tab),
            final(self).formatted(),
            final(self).selected_tab_index == old(self).selected_tab_index,
            final(self).widget_data == (WidgetData { dirty: true, ..old(self).widget_data }),
    {
        let r = content_rect(&self.widget_data.rect);
        self.tabs.push(tab);
        proof {
            assert forall|i: int| 0 <= i < self.tabs@.len() implies #[trigger] tab_ok(self.tabs@[i]) by {
                if i < old(self).tabs@.len() {
                    assert(self.tabs@[i] == old(self).tabs@[i]);
                }
            }
        }
        self.update();
        self.widget_data.dirty = true;
        r
    }

    /// Adds the tabs `more` at the end; returns the rectangle their
    /// contents take.
    pub fn extend(&mut self, more: Vec<Tab>) -> (r: Rect)
        requires
            old(self).tabs_ok(),
            forall|i: int| 0 <= i < more@.len() ==> #[trigger] tab_ok(more@[i]),
            old(self).widget_data.rect.row < i32::MAX,
        ensures
            r == content_rect_spec(old(self).widget_data.rect),
            final(self).tabs@ == old(self).tabs@ + more@,
            final(self).formatted(),
            final(self).selected_tab_index == old(self).selected_tab_index,
            final(self).widget_data == (WidgetData { dirty: true, ..old(self).widget_data }),
    {
        let r = content_rect(&self.widget_data.rect);
        let mut more = more;
        let ghost m = more@;
        self.tabs.append(&mut more);
        proof {
            assert forall|i: int| 0 <= i < self.tabs@.len() implies #[trigger] tab_ok(self.tabs@[i]) by {
                if i < old(self).tabs@.len() {
                    assert(self.tabs@[i] == old(self).tabs@[i]);
                } else {
                    assert(self.tabs@[i] == m[i - old(self).tabs@.len()]);
                }
            }
        }
        self.update();
        self.widget_data.dirty = true;
        r
    }

    /// Replaces the tabs by `tabs` and selects the first; returns the
    /// rectangle their contents take.
    pub fn set_tabs(&mut self, tabs: Vec<Tab>) -> (r: Rect)
        requires
            forall|i: int| 0 <= i < tabs@.len() ==> #[trigger] tab_ok(tabs@[i]),
            old(self).widget_data.rect.row < i32::MAX,
        ensures
            r == content_rect_spec(old(self).widget_data.rect),
            final(self).tabs@ == tabs@,
            final(self).formatted(),
            final(self).selected_tab_index == 0,
            final(self).widget_data == (WidgetData { dirty: true, ..old(self).widget_data }),
    {
        let r = content_rect(&self.widget_data.rect);
        self.tabs = tabs;
        self.selected_tab_index = 0;
        self.update();
        self.widget_data.dirty = true;
        r
    }

    /// Makes `content` the widget of tab `index`; returns the rectangle it
    /// takes.
    pub fn set_content(&mut self, index: usize, content: WidgetId) -> (r: Rect)
        requires
            index < old(self).tabs@.len(),
            old(self).tabs_ok(),
            old(self).widget_data.rect.row < i32::MAX,
        ensures
            r == content_rect_spec(old(self).widget_data.rect),
            final(self).tabs@ == old(self).tabs@.update(index as int, Tab { content, ..old(self).tabs@[index as int] }),
            final(self).formatted(),
            final(self).selected_tab_index == old(self).selected_tab_index,
            final(self).widget_data == (WidgetData { dirty: true, ..old(self).widget_data }),
    {
        let r = content_rect(&self.widget_data.rect);
        let mut tabs: Vec<Tab> = Vec::new();
        std::mem::swap(&mut tabs, &mut self.tabs);
        let mut t = tabs.remove(index);
        t.content = content;
        tabs.insert(index, t);
        proof {
            assert(tabs@ =~= old(self).tabs@.update(index as int, Tab { content, ..old(self).tabs@[index as int] }));
            assert forall|i: int| 0 <= i < tabs@.len() implies #[trigger] tab_ok(tabs@[i]) by {
                assert(tab_ok(old(self).tabs@[i]));
            }
        }
        self.tabs = tabs;
        self.update();
        self.widget_data.dirty = true;
        r
    }

    /// Moves the row of tabs to `rect`; where it moved, the row is to be
    /// drawn again and the selected tab's widget (returned, where there is
    /// one) is to be placed below the titles.
    pub fn set_draw_rect(&mut self, rect: &Rect) -> (r: Option<(WidgetId, Rect)>)
        requires
            rect.row < i32::MAX,
        ensures
            old(self).widget_data.rect == *rect ==> r is None && *final(self) == *old(self),
            old(self).widget_data.rect != *rect ==> final(self).widget_data == (WidgetData { rect: *rect, dirty: true,
                ..old(self).widget_data })
                && r == (if old(self).selected_tab_index < old(self).tabs@.len() {
                    Some((old(self).tabs@[old(self).selected_tab_index as int].content, content_rect_spec(*rect)))
                } else {
                    None::<(WidgetId, Rect)>
                }),
            final(self).tabs == old(self).tabs,
            final(self).formatted_tabs == old(self).formatted_tabs,
            final(self).selected_tab_index == old(self).selected_tab_index,
    {
        if self.widget_data.rect == *rect {
            return None;
        }
        self.widget_data.rect = *rect;
        self.widget_data.dirty = true;
        if self.selected_tab_index < self.tabs.len() {
            Some((self.tabs[self.selected_tab_index].content, content_rect(rect)))
        } else {
            None
        }
    }

    /// The tabs.
    pub fn tabs(&self) -> (r: &[Tab])
        ensures
            r@ == self.tabs@,
    {
        self.tabs.as_slice()
    }

    pub fn selected_tab_index(&self) -> (r: usize)
        ensures
            r == self.selected_tab_index,
    {
        self.selected_tab_index
    }

    /// The widget of the selected tab, where there is one.
    pub fn selected_tab_id(&self) -> (r: Option<WidgetId>)
        ensures
            r == (if self.selected_tab_index < self.tabs@.len() {
                Some(self.tabs@[self.selected_tab_index as int].content)
            } else {
                None::<WidgetId>
            }),
    {
        if self.selected_tab_index < self.tabs.len() {
            Some(self.tabs[self.selected_tab_index].content)
        } else {
            None
        }
    }

    /// Selects tab `index`, where there is one: the widget it shows is to
    /// be placed in the returned rectangle and drawn; the row is to be
    /// drawn again where the selection changed.
    pub fn set_selected_tab_index(&mut self, index: usize) -> (r: Option<(WidgetId, Rect)>)
        requires
            old(self).widget_data.rect.row < i32::MAX,
        ensures
            *final(self) == tabs_select_index(*old(self), index as int),
            r == (if index < old(self).tabs@.len() {
                Some((old(self).tabs@[index as int].content, content_rect_spec(old(self).widget_data.rect)))
            } else {
                None::<(WidgetId, Rect)>
            }),
    {
        if index < self.tabs.len() {
            let r = content_rect(&self.widget_data.rect);
            let id = self.tabs[index].content;
            if index != self.selected_tab_index {
                self.selected_tab_index = index;
                self.widget_data.dirty = true;
            }
            Some((id, r))
        } else {
            None
        }
    }

    /// Selects the first tab that shows `widget_id`, where there is one;
    /// see [`Self::set_selected_tab_index`].
    pub fn set_selected_tab_id(&mut self, widget_id: WidgetId) -> (r: Option<(WidgetId, Rect)>)
        requires
            old(self).widget_data.rect.row < i32::MAX,
        ensures
            *final(self) == tabs_select_index(*old(self), first_tab_of(old(self).tabs@, widget_id, 0)),
            r == (if first_tab_of(old(self).tabs@, widget_id, 0) >= 0 {
                Some((widget_id, content_rect_spec(old(self).widget_data.rect)))
            } else {
                None::<(WidgetId, Rect)>
            }),
    {
        proof {
            lemma_first_tab_of_bounds(self.tabs@, widget_id, 0);
        }
        let mut i: usize = 0;
        while i < self.tabs.len()
            invariant
                i <= self.tabs@.len(),
                *self == *old(self),
                old(self).widget_data.rect.row < i32::MAX,
                first_tab_of(self.tabs@, widget_id, 0) == first_tab_of(self.tabs@, widget_id, i as int),
            decreases self.tabs.len() - i,
        {
            if self.tabs[i].content == widget_id {
                return self.set_selected_tab_index(i);
            }
            i += 1;
        }
        None
    }

    /// An event: Alt with a tab's mnemonic (ignoring ASCII case) selects
    /// the first such tab, asking to be drawn again unless it was selected
    /// already; any other event goes to the selected tab's widget; see
    /// [`tabs_after_event`].
    pub fn handle_event(&mut self, event: &Event) -> (r: TabsOutcome)
        requires
            old(self).widget_data.rect.row < i32::MAX,
        ensures
            (*final(self), r) == tabs_after_event(*old(self), *event),
    {
        match *event {
            Event::KeyPress { key: Key::Char(ch), ctrl: false, alt: true, shift: false } => {
                let lc = to_ascii_lower(ch);
                proof {
                    lemma_first_mnemonic_bounds(self.tabs@, ch, 0);
                }
                let mut i: usize = 0;
                while i < self.tabs.len()
                    invariant
                        i <= self.tabs@.len(),
                        *self == *old(self),
                        old(self).widget_data.rect.row < i32::MAX,
                        lc == ascii_lower(ch),
                        mnemonic_key(*event) == Some(ch),
                        first_mnemonic(self.tabs@, ch, 0) == first_mnemonic(self.tabs@, ch, i as int),
                    decreases self.tabs.len() - i,
                {
                    if to_ascii_lower(self.tabs[i].mnemonic) == lc {
                        if self.selected_tab_index == i {
                            return TabsOutcome::Handled(ActionFlags::empty());
                        }
                        let _ = self.set_selected_tab_index(i);
                        return TabsOutcome::Handled(ActionFlags::dirty());
                    }
                    i += 1;
                }
            },
            _ => {},
        }
        if self.selected_tab_index < self.tabs.len() {
            TabsOutcome::Forward(self.tabs[self.selected_tab_index].content)
        } else {
            TabsOutcome::Handled(ActionFlags::empty())
        }
    }
}


/// Where tab `i` starts, counted from the first: the widths of the tabs
/// before it, each followed by one blank.
pub open spec fn tab_offset(texts: Seq<RichText>, i: int) -> int
    decreases i,
{
    if i <= 0 { 0 } else { tab_offset(texts, i - 1) + texts[i - 1].width + 1 }
}

proof fn lemma_tab_offset_mono(texts: Seq<RichText>, i: int, j: int)
    requires
        0 <= i <= j,
    ensures
        0 <= tab_offset(texts, i) <= tab_offset(texts, j),
    decreases j,
{
    if j > 0 {
        lemma_tab_offset_mono(texts, if i < j { i } else { j - 1 }, j - 1);
    }
}

/// The operations that draw label `i`: a blank before every label but the
/// first, the label inverted where it is the selected one, then the
/// inversion set to the opposite.
pub open spec fn tab_ops(texts: Seq<RichText>, wss: Seq<Seq<Seq<Seq<i32>>>>, sel: int, window: WindowSize,
    row: int, column: int, i: int) -> Seq<Op>
{
    let t = texts[i];
    let sep = if i == 0 { Seq::<Op>::empty() } else { seq![Op::Text(seq![' '])] };
    sep + seq![Op::Inverted(i == sel)]
        + rich_draw_spec(t.lines_v(), wss[i], t.width as int, window, row, column + tab_offset(texts, i), 0, 0,
            clamp_u32(t.width as int), clamp_u32(t.lines@.len() as int))
        + seq![Op::Inverted(i != sel)]
}

/// The operations that draw labels `i..` and end the inversion.
pub open spec fn tabs_ops(texts: Seq<RichText>, wss: Seq<Seq<Seq<Seq<i32>>>>, sel: int, window: WindowSize,
    row: int, column: int, i: int) -> Seq<Op>
    decreases texts.len() - i,
{
    if i < 0 || i >= texts.len() {
        seq![Op::Inverted(false)]
    } else {
        tab_ops(texts, wss, sel, window, row, column, i) + tabs_ops(texts, wss, sel, window, row, column, i + 1)
    }
}

/// The widths of the labels' characters, one entry per label.
pub open spec fn labels_widths_v(wss: Seq<Vec<Vec<Vec<i32>>>>) -> Seq<Seq<Seq<Seq<i32>>>> {
    wss.map_values(|w: Vec<Vec<Vec<i32>>>| block_widths_v(w@))
}

impl Tabs {
    /// What [`Self::draw_tabs`] needs: the widths of every label's
    /// characters, labels narrower than 2^64 columns, and the row of
    /// labels within the range of `i32`.
    pub open spec fn tabs_drawable(&self, widths: Seq<Vec<Vec<Vec<i32>>>>, parent_row: int, parent_column: int) -> bool {
        let texts = self.formatted_tabs@;
        let row = self.widget_data.rect.row + parent_row;
        let column = self.widget_data.rect.column + parent_column;
        &&& widths.len() == texts.len()
        &&& forall|i: int| 0 <= i < texts.len() ==> #[trigger] rich_widths_ok(texts[i].lines_v(), block_widths_v(widths[i]@))
            && rich_lines_fit(texts[i].lines_v())
        &&& i32::MIN < row <= i32::MAX
        &&& i32::MIN < column
        &&& column + tab_offset(texts, texts.len() as int) <= i32::MAX
    }

    /// The operations that draw the labels on the row of the tabs, one
    /// blank apart, the selected one inverted.
    pub fn draw_tabs(&self, window: WindowSize, widths: &[Vec<Vec<Vec<i32>>>], parent_row: i32, parent_column: i32)
        -> (r: Vec<DrawOp>)
        requires
            self.tabs_drawable(widths@, parent_row as int, parent_column as int),
        ensures
            ops_view(r@) == tabs_ops(self.formatted_tabs@, labels_widths_v(widths@), self.selected_tab_index as int,
                window, self.widget_data.rect.row + parent_row, self.widget_data.rect.column + parent_column, 0),
    {
        proof {
            lemma_tab_offset_mono(self.formatted_tabs@, 0, self.formatted_tabs@.len() as int);
        }
        let row = self.widget_data.rect.row + parent_row;
        let column = self.widget_data.rect.column + parent_column;
        let ghost texts = self.formatted_tabs@;
        let ghost wss = labels_widths_v(widths@);
        let ghost sel = self.selected_tab_index as int;
        let mut out: Vec<DrawOp> = Vec::new();
        let mut tab_column: i32 = column;
        let mut i: usize = 0;
        let n = self.formatted_tabs.len();
        proof {
            lemma_tab_offset_mono(texts, 0, n as int);
        }
        while i < n
            invariant
                n == texts.len(),
                texts == self.formatted_tabs@,
                wss == labels_widths_v(widths@),
                sel == self.selected_tab_index,
                self.tabs_drawable(widths@, parent_row as int, parent_column as int),
                row == self.widget_data.rect.row + parent_row,
                column == self.widget_data.rect.column + parent_column,
                i <= n,
                tab_column == column + tab_offset(texts, i as int) - (if i == 0 { 0int } else { 1int }),
                ops_view(out@) + tabs_ops(texts, wss, sel, window, row as int, column as int, i as int)
                    == tabs_ops(texts, wss, sel, window, row as int, column as int, 0),
            decreases n - i,
        {
            proof {
                lemma_tab_offset_mono(texts, i as int, n as int);
                lemma_tab_offset_mono(texts, i + 1, n as int);
            }
            let ghost before = ops_view(out@);
            if i != 0 {
                let mut sp = String::new();
                crate::text::push_char(&mut sp, ' ');
                proof { assert(sp@ =~= seq![' ']); }
                push_op(&mut out, DrawOp::Text(sp));
                tab_column = tab_column + 1;
            }
            push_op(&mut out, DrawOp::Inverted(i == self.selected_tab_index));
            let t = &self.formatted_tabs[i];
            proof {
                assert(rich_widths_ok(texts[i as int].lines_v(), block_widths_v(widths@[i as int]@)));
            }
            let ops = t.draw(window, widths[i].as_slice(), row, tab_column);
            append_ops(&mut out, ops);
            push_op(&mut out, DrawOp::Inverted(i != self.selected_tab_index));
            proof {
                assert(wss[i as int] == block_widths_v(widths@[i as int]@));
                assert(ops_view(out@) =~= before + tab_ops(texts, wss, sel, window, row as int, column as int, i as int));
                assert(tabs_ops(texts, wss, sel, window, row as int, column as int, i as int)
                    == tab_ops(texts, wss, sel, window, row as int, column as int, i as int)
                    + tabs_ops(texts, wss, sel, window, row as int, column as int, i + 1));
                assert(before + tabs_ops(texts, wss, sel, window, row as int, column as int, i as int)
                    =~= ops_view(out@) + tabs_ops(texts, wss, sel, window, row as int, column as int, i + 1));
            }
            let w = t.width;
            proof {
                assert(tab_offset(texts, i + 1) == tab_offset(texts, i as int) + w + 1);
            }
            tab_column = (tab_column as i64 + w as i64) as i32;
            i += 1;
        }
        let ghost before = ops_view(out@);
        push_op(&mut out, DrawOp::Inverted(false));
        proof {
            assert(ops_view(out@) =~= before + tabs_ops(texts, wss, sel, window, row as int, column as int, i as int));
        }
        out
    }

    /// Draws the row of labels where it changed ([`Self::draw_tabs`]), and
    /// marks the row drawn; the selected tab's widget draws itself.
    pub fn draw(&mut self, window: WindowSize, widths: &[Vec<Vec<Vec<i32>>>], parent_row: i32, parent_column: i32)
        -> (r: Vec<DrawOp>)
        requires
            old(self).tabs_drawable(widths@, parent_row as int, parent_column as int),
        ensures
            old(self).widget_data.dirty ==> ops_view(r@) == tabs_ops(old(self).formatted_tabs@, labels_widths_v(widths@),
                old(self).selected_tab_index as int, window, old(self).widget_data.rect.row + parent_row,
                old(self).widget_data.rect.column + parent_column, 0),
            !old(self).widget_data.dirty ==> r@.len() == 0,
            *final(self) == (Tabs { widget_data: WidgetData { dirty: false, ..old(self).widget_data }, ..*old(self) }),
    {
        let ops = if self.widget_data.dirty {
            self.draw_tabs(window, widths, parent_row, parent_column)
        } else {
            Vec::new()
        };
        self.widget_data.dirty = false;
        ops
    }
}

} // verus!
