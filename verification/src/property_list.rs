use vstd::prelude::*;
use crate::widget::{WidgetId, WidgetData};
use crate::rect::Rect;
use crate::plain_text::{PlainTextItem, items_view, plain_lines_view, items_width};
use crate::draw::{
    DrawOp, Op, WindowSize, RowPlanV, ops_view, push_op, append_ops, plain_draw_spec, plain_widths_ok, plain_line_widths_ok,
    item_widths_ok, plain_lines_fit, block_widths_v, line_widths_v, region_ok, region_spec, rows_ops, lemma_rows_ops_push,
    table_head_ops, table_layout_spec, table_layout, heights_v, heights_from, plans_view, row_background_value,
    blank_lines, blank_lines_ok, push_blank_lines, draw_items_cropped, max_int, lemma_region_ok_from_top, skip_rows, plan_rows,
};
use crate::style::{FontWeight, TermIOState};
use crate::widget_draw::lemma_layout_bounds;
use crate::char_width::{valid_widths, visible, visible_width, lemma_visible_width_push, lemma_visible_width_bound};
use crate::text::{spec_is_ascii_control, is_ascii_control, to_chars, string_from_chars, push_char};
use crate::wrap::{WrapState, all_wrap_lines, wraps_out, wrap_ranges};

verus! {

/// A property list asks to change the key of a row.
#[derive(Debug)]
pub struct UpdateKey {
    pub widget_id: WidgetId,
    pub row_index: usize,
    pub key: String,
}

/// A property list asks to change the value of a row.
#[derive(Debug)]
pub struct UpdateValue {
    pub widget_id: WidgetId,
    pub row_index: usize,
    pub value: String,
}

/// A property list asks to insert a row.
#[derive(Debug)]
pub struct InsertProperty {
    pub widget_id: WidgetId,
    pub row_index: usize,
    pub key: String,
    pub value: String,
}

/// A property list asks to delete a row.
#[derive(Debug, Clone, Copy, PartialEq, Eq, Structural)]
pub struct DeleteProperty {
    pub widget_id: WidgetId,
    pub row_index: usize,
}

/// A piece of a formatted line: a run of text, with the width of each of
/// its characters, or a control character shown as its symbol.
#[derive(Debug)]
pub enum Item {
    Text { text: String, width: usize, widths: Vec<i32> },
    Special(char),
}

/// What an [`Item`] holds, as values.
pub ghost enum ItemV {
    Text { text: Seq<char>, width: nat, widths: Seq<i32> },
    Special(char),
}

impl View for Item {
    type V = ItemV;

    open spec fn view(&self) -> ItemV {
        match self {
            Item::Text { text, width, widths } => ItemV::Text { text: text@, width: *width as nat, widths: widths@ },
            Item::Special(c) => ItemV::Special(*c),
        }
    }
}

/// Columns taken by an item: a control character takes one.
pub open spec fn item_width_v(i: ItemV) -> nat {
    match i {
        ItemV::Text { width, .. } => width,
        ItemV::Special(_) => 1,
    }
}

impl Item {
    /// Columns taken by the item.
    pub fn width(&self) -> (r: usize)
        ensures
            r == item_width_v(self@),
    {
        match self {
            Item::Special(_) => 1,
            Item::Text { width, .. } => *width,
        }
    }
}

pub open spec fn items_v(line: Seq<Item>) -> Seq<ItemV> {
    line.map_values(|i: Item| i@)
}

pub open spec fn lines_v(lines: Seq<Vec<Item>>) -> Seq<Seq<ItemV>> {
    lines.map_values(|l: Vec<Item>| items_v(l@))
}

/// Columns taken by a line.
pub open spec fn list_line_width(line: Seq<ItemV>) -> nat
    decreases line.len(),
{
    if line.len() == 0 { 0 } else { list_line_width(line.drop_last()) + item_width_v(line.last()) }
}

/// An item is well made: a text item has one width per character, each
/// a width `wcwidth` can report, and a control item holds an ASCII control
/// character.
pub open spec fn item_ok(i: ItemV) -> bool {
    match i {
        ItemV::Text { text, widths, .. } => widths.len() == text.len() && valid_widths(widths),
        ItemV::Special(c) => spec_is_ascii_control(c),
    }
}

pub open spec fn line_ok(line: Seq<ItemV>) -> bool {
    forall|k: int| 0 <= k < line.len() ==> #[trigger] item_ok(line[k])
}

/// Adds a run of text of `w` columns to a line: it joins a text item that
/// ends the line, or becomes a new item.
pub open spec fn add_run(line: Seq<ItemV>, t: Seq<char>, ws: Seq<i32>, w: nat) -> Seq<ItemV> {
    if line.len() > 0 && line.last() is Text {
        match line.last() {
            ItemV::Text { text, width, widths } =>
                line.update(line.len() - 1, ItemV::Text { text: text + t, width: width + w, widths: widths + ws }),
            ItemV::Special(_) => line,
        }
    } else {
        line.push(ItemV::Text { text: t, width: w, widths: ws })
    }
}

pub proof fn lemma_add_run(line: Seq<ItemV>, t: Seq<char>, ws: Seq<i32>, w: nat)
    ensures
        list_line_width(add_run(line, t, ws, w)) == list_line_width(line) + w,
        line_ok(line) && ws.len() == t.len() && valid_widths(ws) && (line.len() > 0 && line.last() is Text ==>
            (line.last()->Text_widths.len() + ws.len() <= usize::MAX / 4)) ==> line_ok(add_run(line, t, ws, w)),
{
    let r = add_run(line, t, ws, w);
    if line.len() > 0 && line.last() is Text {
        assert(r.drop_last() =~= line.drop_last());
        if line_ok(line) && ws.len() == t.len() && valid_widths(ws) && line.last()->Text_widths.len() + ws.len() <= usize::MAX / 4 {
            assert(item_ok(line[line.len() - 1]));
            assert forall|k: int| 0 <= k < r.len() implies #[trigger] item_ok(r[k]) by {
                if k < line.len() - 1 {
                    assert(r[k] == line[k]);
                } else {
                    let lw = line.last()->Text_widths;
                    assert forall|i: int| 0 <= i < (lw + ws).len() implies -1 <= #[trigger] (lw + ws)[i] <= 2 by {
                        if i < lw.len() {
                            assert((lw + ws)[i] == lw[i]);
                        } else {
                            assert((lw + ws)[i] == ws[i - lw.len()]);
                        }
                    }
                }
            }
        }
    } else {
        assert(r.drop_last() =~= line);
        if line_ok(line) && ws.len() == t.len() && valid_widths(ws) {
            assert forall|k: int| 0 <= k < r.len() implies #[trigger] item_ok(r[k]) by {
                if k < line.len() {
                    assert(r[k] == line[k]);
                }
            }
        }
    }
}

/// The state while text is added to a line: the line, where the run of
/// ordinary characters not yet added starts, and the columns counted so
/// far (a control character counts one).
pub ghost struct AddState {
    pub line: Seq<ItemV>,
    pub prev: int,
    pub width: nat,
}

pub open spec fn add_step(st: AddState, t: Seq<char>, ws: Seq<i32>, i: int) -> AddState {
    if spec_is_ascii_control(t[i]) {
        let l1 = if st.prev < i {
            add_run(st.line, t.subrange(st.prev, i), ws.subrange(st.prev, i), visible_width(ws.subrange(st.prev, i)))
        } else {
            st.line
        };
        AddState { line: l1.push(ItemV::Special(t[i])), prev: i + 1, width: st.width + 1 }
    } else {
        AddState { width: st.width + visible(ws[i]), ..st }
    }
}

pub open spec fn add_run_chars(st: AddState, t: Seq<char>, ws: Seq<i32>, n: int) -> AddState
    decreases n,
{
    if n <= 0 { st } else { add_step(add_run_chars(st, t, ws, n - 1), t, ws, n - 1) }
}

/// A line with the text `t` added: runs of ordinary characters become text
/// (the first joins a text item that ends the line), each control
/// character an item of its own; with the columns the text takes.
pub open spec fn append_items_spec(line: Seq<ItemV>, t: Seq<char>, ws: Seq<i32>) -> (Seq<ItemV>, nat) {
    let st = add_run_chars(AddState { line: line, prev: 0, width: 0 }, t, ws, t.len() as int);
    let l = if st.prev < t.len() {
        add_run(st.line, t.subrange(st.prev, t.len() as int), ws.subrange(st.prev, t.len() as int),
            visible_width(ws.subrange(st.prev, t.len() as int)))
    } else {
        st.line
    };
    (l, st.width)
}

proof fn lemma_width_push(line: Seq<ItemV>, it: ItemV)
    ensures
        list_line_width(line.push(it)) == list_line_width(line) + item_width_v(it),
{
    assert(line.push(it).drop_last() =~= line);
}

/// Appends an item to a line.
fn push_item(line: &mut Vec<Item>, it: Item)
    ensures
        items_v(final(line)@) == items_v(old(line)@).push(it@),
{
    let ghost v = it@;
    line.push(it);
    assert(items_v(line@) =~= items_v(old(line)@).push(v));
}

proof fn lemma_last_width(line: Seq<ItemV>)
    requires
        line.len() > 0,
    ensures
        item_width_v(line.last()) <= list_line_width(line),
{
}

/// Appends the characters `t[a..b]` to `s`.
fn push_chars(s: &mut String, t: &[char], a: usize, b: usize)
    requires
        a <= b <= t@.len(),
    ensures
        final(s)@ == old(s)@ + t@.subrange(a as int, b as int),
{
    let mut i = a;
    while i < b
        invariant
            a <= i <= b <= t@.len(),
            s@ == old(s)@ + t@.subrange(a as int, i as int),
        decreases b - i,
    {
        push_char(s, t[i]);
        proof {
            assert(t@.subrange(a as int, i + 1) =~= t@.subrange(a as int, i as int).push(t@[i as int]));
        }
        i += 1;
    }
}

/// Appends the numbers `ws[a..b]` to `v`.
fn push_widths(v: &mut Vec<i32>, ws: &[i32], a: usize, b: usize)
    requires
        a <= b <= ws@.len(),
    ensures
        final(v)@ == old(v)@ + ws@.subrange(a as int, b as int),
{
    let mut i = a;
    while i < b
        invariant
            a <= i <= b <= ws@.len(),
            v@ == old(v)@ + ws@.subrange(a as int, i as int),
        decreases b - i,
    {
        v.push(ws[i]);
        proof {
            assert(ws@.subrange(a as int, i + 1) =~= ws@.subrange(a as int, i as int).push(ws@[i as int]));
        }
        i += 1;
    }
}

/// Adds the run `t[a..b]` of `w` columns to a line, as [`add_run`] says.
fn add_run_exec(line: &mut Vec<Item>, t: &[char], ws: &[i32], a: usize, b: usize, w: usize)
    requires
        a <= b <= t@.len(),
        ws@.len() == t@.len(),
        list_line_width(items_v(old(line)@)) + w <= usize::MAX,
    ensures
        items_v(final(line)@) == add_run(items_v(old(line)@), t@.subrange(a as int, b as int), ws@.subrange(a as int, b as int), w as nat),
{
    let ghost l0 = items_v(line@);
    if line.len() > 0 {
        proof {
            lemma_last_width(l0);
            assert(l0.last() == line@.last()@);
        }
        let last = line.pop().unwrap();
        proof {
            assert(items_v(line@) =~= l0.drop_last());
        }
        match last {
            Item::Text { text, width, widths } => {
                let mut text = text;
                let mut widths = widths;
                push_chars(&mut text, t, a, b);
                push_widths(&mut widths, ws, a, b);
                line.push(Item::Text { text, width: width + w, widths });
                proof {
                    assert(items_v(line@) =~= add_run(l0, t@.subrange(a as int, b as int), ws@.subrange(a as int, b as int), w as nat));
                }
            },
            Item::Special(c) => {
                line.push(Item::Special(c));
                let mut v: Vec<i32> = Vec::new();
                push_widths(&mut v, ws, a, b);
                line.push(Item::Text { text: string_from_chars(t, a, b), width: w, widths: v });
                proof {
                    assert(items_v(line@) =~= add_run(l0, t@.subrange(a as int, b as int), ws@.subrange(a as int, b as int), w as nat));
                }
            },
        }
    } else {
        let mut v: Vec<i32> = Vec::new();
        push_widths(&mut v, ws, a, b);
        line.push(Item::Text { text: string_from_chars(t, a, b), width: w, widths: v });
        proof {
            assert(items_v(line@) =~= add_run(l0, t@.subrange(a as int, b as int), ws@.subrange(a as int, b as int), w as nat));
        }
    }
}

proof fn lemma_add_run_chars_bounds(st: AddState, t: Seq<char>, ws: Seq<i32>, n: int)
    requires
        0 <= n <= t.len(),
        ws.len() == t.len(),
        0 <= st.prev <= 0,
    ensures
        0 <= add_run_chars(st, t, ws, n).prev <= n,
    decreases n,
{
    if n > 0 {
        lemma_add_run_chars_bounds(st, t, ws, n - 1);
    }
}

/// Adds the pending run `t[prev..i]` of `w` columns, where it is not
/// empty, then the control character `c`.
fn flush_and_special(line: &mut Vec<Item>, t: &[char], ws: &[i32], prev: usize, i: usize, w: usize, c: char)
    requires
        prev <= i <= t@.len(),
        ws@.len() == t@.len(),
        list_line_width(items_v(old(line)@)) + w + 1 <= usize::MAX,
    ensures
        items_v(final(line)@) == (if prev < i {
            add_run(items_v(old(line)@), t@.subrange(prev as int, i as int), ws@.subrange(prev as int, i as int), w as nat)
        } else {
            items_v(old(line)@)
        }).push(ItemV::Special(c)),
        list_line_width(items_v(final(line)@)) == list_line_width(items_v(old(line)@)) + (if prev < i { w } else { 0 }) + 1,
{
    if prev < i {
        proof {
            lemma_add_run(items_v(line@), t@.subrange(prev as int, i as int), ws@.subrange(prev as int, i as int), w as nat);
        }
        add_run_exec(line, t, ws, prev, i, w);
    }
    let ghost before = items_v(line@);
    push_item(line, Item::Special(c));
    proof {
        lemma_width_push(before, ItemV::Special(c));
    }
}

/// Adds the text `text`, whose characters have the widths `widths`, to a
/// line, as [`append_items_spec`] says; returns the columns it takes.
pub fn append_items(line: &mut Vec<Item>, text: &str, widths: &[i32]) -> (r: usize)
    requires
        widths@.len() == text@.len(),
        valid_widths(widths@),
        list_line_width(items_v(old(line)@)) + 3 * text@.len() <= usize::MAX,
    ensures
        (items_v(final(line)@), r as nat) == append_items_spec(items_v(old(line)@), text@, widths@),
        list_line_width(items_v(final(line)@)) == list_line_width(items_v(old(line)@)) + r,
        r <= 3 * text@.len(),
{
    let t = to_chars(text);
    let n = t.len();
    let ghost l0 = items_v(line@);
    let ghost st0 = AddState { line: l0, prev: 0, width: 0 };
    let mut prev: usize = 0;
    let mut width: usize = 0;
    let mut run_width: usize = 0;
    let mut i: usize = 0;
    while i < n
        invariant
            n == t@.len(),
            t@ == text@,
            widths@.len() == n,
            valid_widths(widths@),
            list_line_width(l0) + 3 * n <= usize::MAX,
            0 <= prev <= i <= n,
            add_run_chars(st0, t@, widths@, i as int) == (AddState { line: items_v(line@), prev: prev as int, width: width as nat }),
            run_width == visible_width(widths@.subrange(prev as int, i as int)),
            run_width <= 2 * (i - prev),
            width <= 3 * i,
            list_line_width(items_v(line@)) + run_width == list_line_width(l0) + width,
        decreases n - i,
    {
        let c = t[i];
        proof {
            assert(widths@.subrange(prev as int, i + 1) =~= widths@.subrange(prev as int, i as int).push(widths@[i as int]));
            lemma_visible_width_push(widths@.subrange(prev as int, i as int), widths@[i as int]);
        }
        if is_ascii_control(c) {
            proof {
                if prev == i {
                    assert(widths@.subrange(prev as int, i as int) =~= Seq::<i32>::empty());
                }
            }
            flush_and_special(line, t.as_slice(), widths, prev, i, run_width, c);
            width += 1;
            prev = i + 1;
            run_width = 0;
            proof {
                assert(widths@.subrange(prev as int, i + 1) =~= Seq::<i32>::empty());
            }
        } else {
            let w = widths[i];
            if w > 0 {
                width += w as usize;
                run_width += w as usize;
            }
        }
        i += 1;
    }
    if prev < n {
        proof {
            lemma_add_run(items_v(line@), t@.subrange(prev as int, n as int), widths@.subrange(prev as int, n as int), run_width as nat);
        }
        add_run_exec(line, t.as_slice(), widths, prev, n, run_width);
    }
    width
}

/// `n` spaces, and their widths.
pub open spec fn spaces(n: nat) -> Seq<char> {
    Seq::new(n, |i: int| ' ')
}

pub open spec fn ones(n: nat) -> Seq<i32> {
    Seq::new(n, |i: int| 1i32)
}

/// Pads a line of `lw` columns with spaces to `target` columns.
pub open spec fn pad_to(line: Seq<ItemV>, lw: nat, target: nat) -> (Seq<ItemV>, nat) {
    if target > lw {
        (add_run(line, spaces((target - lw) as nat), ones((target - lw) as nat), (target - lw) as nat), target)
    } else {
        (line, lw)
    }
}

/// One line of a formatted row: the key's line, padding to the value's
/// column, the value's line, and padding to the end of the row.
pub open spec fn format_line(key: Option<(Seq<char>, Seq<i32>)>, value: Option<(Seq<char>, Seq<i32>)>, kw: nat, vw: nat) -> Seq<ItemV> {
    let (l1, w1) = match key {
        Some((t, ws)) => append_items_spec(Seq::empty(), t, ws),
        None => (Seq::<ItemV>::empty(), 0nat),
    };
    let (l2, w2) = pad_to(l1, w1, kw + 1);
    let (l3, w3) = match value {
        Some((t, ws)) => {
            let (l, w) = append_items_spec(l2, t, ws);
            (l, w2 + w)
        },
        None => (l2, w2),
    };
    pad_to(l3, w3, kw + 1 + vw).0
}

/// Line `li` of a wrapped cell, where the cell has that many lines.
pub open spec fn cell_line(t: Seq<char>, ws: Seq<i32>, lines: Seq<(int, int)>, li: int) -> Option<(Seq<char>, Seq<i32>)> {
    if 0 <= li < lines.len() {
        Some((t.subrange(lines[li].0, lines[li].1), ws.subrange(lines[li].0, lines[li].1)))
    } else {
        None
    }
}

pub open spec fn wrap_start() -> WrapState {
    WrapState { start: 0, prefix: 0 }
}

/// A row of a property list, formatted: the key wrapped to `kw` columns
/// beside the value wrapped to `vw` columns, one column apart; as many
/// lines as the longer of the two, and at least one.
pub open spec fn format_row_spec(key: Seq<char>, kws: Seq<i32>, value: Seq<char>, vws: Seq<i32>, kw: nat, vw: nat) -> Seq<Seq<ItemV>> {
    let kl = all_wrap_lines(key, kws, kw, wrap_start());
    let vl = all_wrap_lines(value, vws, vw, wrap_start());
    let n = if kl.len() > vl.len() { kl.len() } else { vl.len() };
    let n = if n > 0 { n } else { 1 };
    Seq::new(n, |li: int| format_line(cell_line(key, kws, kl, li), cell_line(value, vws, vl, li), kw, vw))
}

/// Pads a line of `lw` columns to `target` columns, as [`pad_to`] says.
fn pad_exec(line: &mut Vec<Item>, lw: usize, target: usize) -> (r: usize)
    requires
        list_line_width(items_v(old(line)@)) == lw,
        target <= usize::MAX / 4,
    ensures
        (items_v(final(line)@), r as nat) == pad_to(items_v(old(line)@), lw as nat, target as nat),
        list_line_width(items_v(final(line)@)) == r,
{
    if target > lw {
        let diff = target - lw;
        let mut t: Vec<char> = Vec::new();
        let mut ws: Vec<i32> = Vec::new();
        let mut k: usize = 0;
        while k < diff
            invariant
                k <= diff,
                t@ == spaces(k as nat),
                ws@ == ones(k as nat),
            decreases diff - k,
        {
            t.push(' ');
            ws.push(1);
            proof {
                assert(t@ =~= spaces((k + 1) as nat));
                assert(ws@ =~= ones((k + 1) as nat));
            }
            k += 1;
        }
        proof {
            lemma_add_run(items_v(line@), t@, ws@, diff as nat);
            assert(t@.subrange(0, diff as int) =~= t@);
            assert(ws@.subrange(0, diff as int) =~= ws@);
        }
        add_run_exec(line, t.as_slice(), ws.as_slice(), 0, diff, diff);
        target
    } else {
        lw
    }
}

/// The widths `ws[a..b]`, in a vector of their own.
fn widths_range(ws: &[i32], a: usize, b: usize) -> (r: Vec<i32>)
    requires
        a <= b <= ws@.len(),
    ensures
        r@ == ws@.subrange(a as int, b as int),
{
    let mut v: Vec<i32> = Vec::new();
    push_widths(&mut v, ws, a, b);
    v
}

proof fn lemma_valid_sub(ws: Seq<i32>, a: int, b: int)
    requires
        0 <= a <= b <= ws.len(),
        valid_widths(ws),
    ensures
        valid_widths(ws.subrange(a, b)),
{
    assert forall|i: int| 0 <= i < ws.subrange(a, b).len() implies -1 <= #[trigger] ws.subrange(a, b)[i] <= 2 by {
        assert(ws.subrange(a, b)[i] == ws[a + i]);
    }
}

/// Formats a row of a property list into `formatted`, as
/// [`format_row_spec`] says; returns its number of lines.
fn format_row(key: &str, key_widths: &[i32], value: &str, value_widths: &[i32], key_width: usize, value_width: usize,
    formatted: &mut Vec<Vec<Item>>) -> (r: usize)
    requires
        old(formatted)@.len() == 0,
        key_widths@.len() == key@.len(),
        value_widths@.len() == value@.len(),
        valid_widths(key_widths@),
        valid_widths(value_widths@),
        3 * key@.len() + 3 * value@.len() + key_width + value_width + 2 <= usize::MAX / 4,
        wraps_out(key@, key_widths@, key_width as nat, wrap_start()),
        wraps_out(value@, value_widths@, value_width as nat, wrap_start()),
    ensures
        lines_v(final(formatted)@) == format_row_spec(key@, key_widths@, value@, value_widths@, key_width as nat, value_width as nat),
        r == final(formatted)@.len(),
{
    let kl = wrap_ranges(key, key_widths, key_width);
    let vl = wrap_ranges(value, value_widths, value_width);
    let ghost kls = all_wrap_lines(key@, key_widths@, key_width as nat, wrap_start());
    let ghost vls = all_wrap_lines(value@, value_widths@, value_width as nat, wrap_start());
    let mut n = if kl.len() > vl.len() { kl.len() } else { vl.len() };
    if n == 0 {
        n = 1;
    }
    let ghost target = format_row_spec(key@, key_widths@, value@, value_widths@, key_width as nat, value_width as nat);
    let mut li: usize = 0;
    while li < n
        invariant
            li <= n,
            n == target.len(),
            target == format_row_spec(key@, key_widths@, value@, value_widths@, key_width as nat, value_width as nat),
            kls == all_wrap_lines(key@, key_widths@, key_width as nat, wrap_start()),
            vls == all_wrap_lines(value@, value_widths@, value_width as nat, wrap_start()),
            kl@.len() == kls.len(),
            vl@.len() == vls.len(),
            forall|i: int| 0 <= i < kl@.len() ==> (#[trigger] kl@[i]).0 as int == kls[i].0 && kl@[i].1 as int == kls[i].1,
            forall|i: int| 0 <= i < vl@.len() ==> (#[trigger] vl@[i]).0 as int == vls[i].0 && vl@[i].1 as int == vls[i].1,
            forall|i: int| 0 <= i < kl@.len() ==> (#[trigger] kl@[i]).0 <= kl@[i].1 <= key@.len(),
            forall|i: int| 0 <= i < vl@.len() ==> (#[trigger] vl@[i]).0 <= vl@[i].1 <= value@.len(),
            key_widths@.len() == key@.len(),
            value_widths@.len() == value@.len(),
            valid_widths(key_widths@),
            valid_widths(value_widths@),
            3 * key@.len() + 3 * value@.len() + key_width + value_width + 2 <= usize::MAX / 4,
            formatted@.len() == li,
            forall|j: int| 0 <= j < li ==> #[trigger] lines_v(formatted@)[j] == target[j],
        decreases n - li,
    {
        let mut line: Vec<Item> = Vec::new();
        let mut lw: usize = 0;
        proof {
            assert(items_v(line@) =~= Seq::<ItemV>::empty());
        }
        let ghost kc = cell_line(key@, key_widths@, kls, li as int);
        let ghost vc = cell_line(value@, value_widths@, vls, li as int);
        if li < kl.len() {
            let (a, b) = kl[li];
            proof {
                lemma_valid_sub(key_widths@, a as int, b as int);
            }
            let t = key.substring_char(a, b);
            let ws = widths_range(key_widths, a, b);
            lw = append_items(&mut line, t, ws.as_slice());
        }
        let ghost l1 = items_v(line@);
        proof {
            assert((l1, lw as nat) == (match kc {
                Some((t, ws)) => append_items_spec(Seq::empty(), t, ws),
                None => (Seq::<ItemV>::empty(), 0nat),
            }));
        }
        lw = pad_exec(&mut line, lw, key_width + 1);
        if li < vl.len() {
            let (a, b) = vl[li];
            proof {
                lemma_valid_sub(value_widths@, a as int, b as int);
            }
            let t = value.substring_char(a, b);
            let ws = widths_range(value_widths, a, b);
            let w = append_items(&mut line, t, ws.as_slice());
            lw = lw + w;
        }
        lw = pad_exec(&mut line, lw, key_width + 1 + value_width);
        proof {
            assert(items_v(line@) == format_line(kc, vc, key_width as nat, value_width as nat));
            assert(target[li as int] == format_line(kc, vc, key_width as nat, value_width as nat));
        }
        let ghost before = formatted@;
        formatted.push(line);
        proof {
            assert forall|j: int| 0 <= j < li + 1 implies #[trigger] lines_v(formatted@)[j] == target[j] by {
                if j < li {
                    assert(formatted@[j] == before[j]);
                    assert(lines_v(before)[j] == target[j]);
                }
            }
        }
        li += 1;
    }
    assert(lines_v(formatted@) =~= target);
    n
}

/// The column of a property list being edited.
#[derive(Debug, Clone, Copy, PartialEq, Eq, Structural)]
pub enum EditColumn {
    Key,
    Value,
}

/// A place in an edited text: line and column.
#[derive(Debug, Clone, Copy, PartialEq, Eq, Structural)]
pub struct Location {
    pub lineno: usize,
    pub column: usize,
}

/// What is being edited: the column, the cursor and the row.
#[derive(Debug, Clone, Copy, PartialEq, Eq, Structural)]
pub struct EditState {
    pub column: EditColumn,
    pub cursor: Location,
    pub row_index: usize,
}

/// State while the widest line of a text is measured: the width of the
/// current line and of the widest finished one.
pub ghost struct MaxWidthState {
    pub cur: nat,
    pub best: nat,
}

pub open spec fn max_nat(a: nat, b: nat) -> nat {
    if a > b { a } else { b }
}

pub open spec fn max_width_step(st: MaxWidthState, t: Seq<char>, ws: Seq<i32>, i: int) -> MaxWidthState {
    if t[i] == '\n' {
        MaxWidthState { cur: 0, best: max_nat(st.best, st.cur) }
    } else if spec_is_ascii_control(t[i]) {
        MaxWidthState { cur: st.cur + 1, ..st }
    } else {
        MaxWidthState { cur: st.cur + visible(ws[i]), ..st }
    }
}

pub open spec fn max_width_run(t: Seq<char>, ws: Seq<i32>, n: int) -> MaxWidthState
    decreases n,
{
    if n <= 0 {
        MaxWidthState { cur: 0, best: 0 }
    } else {
        max_width_step(max_width_run(t, ws, n - 1), t, ws, n - 1)
    }
}

/// Width of the widest line of a text, where a control character other
/// than the line feed takes one column.
pub open spec fn max_line_width(t: Seq<char>, ws: Seq<i32>) -> nat {
    let st = max_width_run(t, ws, t.len() as int);
    max_nat(st.best, st.cur)
}

/// The widest line of `text`, whose characters have the widths `widths`;
/// see [`max_line_width`].
pub fn wcs_max_width_control_is_one(text: &str, widths: &[i32]) -> (r: usize)
    requires
        widths@.len() == text@.len(),
        valid_widths(widths@),
    ensures
        r == max_line_width(text@, widths@),
        r <= 2 * text@.len(),
{
    let t = to_chars(text);
    let mut cur: usize = 0;
    let mut best: usize = 0;
    let mut i: usize = 0;
    while i < t.len()
        invariant
            t@ == text@,
            widths@.len() == t@.len(),
            valid_widths(widths@),
            i <= t@.len(),
            max_width_run(t@, widths@, i as int) == (MaxWidthState { cur: cur as nat, best: best as nat }),
            cur <= 2 * i,
            best <= 2 * i,
        decreases t.len() - i,
    {
        let c = t[i];
        if c == '\n' {
            if cur > best {
                best = cur;
            }
            cur = 0;
        } else if is_ascii_control(c) {
            cur += 1;
        } else {
            let w = widths[i];
            if w > 0 {
                cur += w as usize;
            }
        }
        i += 1;
    }
    if cur > best { cur } else { best }
}

/// A text and the widths of its characters.
pub open spec fn cell_ok(t: Seq<char>, ws: Seq<i32>) -> bool {
    ws.len() == t.len() && valid_widths(ws)
}

/// Widest key (`.0`) or value (`.1`) line over the first `n` rows.
pub open spec fn rows_max_width(rows: Seq<(String, String)>, rws: Seq<(Vec<i32>, Vec<i32>)>, n: int, value: bool) -> nat
    decreases n,
{
    if n <= 0 {
        0
    } else {
        let w = if value { max_line_width(rows[n - 1].1@, rws[n - 1].1@) } else { max_line_width(rows[n - 1].0@, rws[n - 1].0@) };
        max_nat(rows_max_width(rows, rws, n - 1, value), w)
    }
}

/// The widths a list of pairs takes once laid out in `width` columns: the
/// natural widths where they fit beside each other with a column between;
/// else the narrower one keeps its width where it is at most half, and
/// the other takes the rest.
pub open spec fn fitted_widths(kw: nat, vw: nat, width: nat) -> (nat, nat) {
    if kw + 1 + vw > width {
        let h0 = width / 2;
        let half: int = if h0 + h0 < width { h0 as int } else { h0 - 1 };
        if kw <= half {
            (kw, (width - 1 - kw) as nat)
        } else if vw <= half {
            ((width - 1 - vw) as nat, vw)
        } else {
            (half as nat, (width - 1 - half) as nat)
        }
    } else {
        (kw, vw)
    }
}

/// Lines of the first `n` formatted rows.
pub open spec fn rows_height_spec(rows: Seq<Seq<Seq<ItemV>>>, n: int) -> nat
    decreases n,
{
    if n <= 0 { 0 } else { rows_height_spec(rows, n - 1) + rows[n - 1].len() }
}

/// A list of key/value pairs under a header of two titles, laid out as two
/// columns in the widget's rectangle.
#[derive(Debug)]
pub struct PropertyList {
    pub widget_data: WidgetData,
    pub widths: (usize, usize),
    pub formatted_widths: (usize, usize),
    pub header: (String, String),
    pub header_widths: (Vec<i32>, Vec<i32>),
    pub rows: Vec<(String, String)>,
    pub row_widths: Vec<(Vec<i32>, Vec<i32>)>,
    pub formatted_header: Vec<Vec<Item>>,
    pub formatted_rows: Vec<Vec<Vec<Item>>>,
    pub header_height: usize,
    pub rows_height: usize,
    pub selected_row_index: usize,
    pub scroll_row: u32,
    pub editable: bool,
    pub edit_state: Option<EditState>,
}

impl PropertyList {
    /// Every text has one width per character.
    pub open spec fn cells_ok(&self) -> bool {
        &&& cell_ok(self.header.0@, self.header_widths.0@)
        &&& cell_ok(self.header.1@, self.header_widths.1@)
        &&& self.row_widths@.len() == self.rows@.len()
        &&& forall|i: int| 0 <= i < self.rows@.len() ==> cell_ok(#[trigger] self.rows@[i].0@, self.row_widths@[i].0@)
            && cell_ok(self.rows@[i].1@, self.row_widths@[i].1@)
    }

    /// The natural widths of the two columns: their widest lines.
    pub open spec fn natural_widths(&self) -> (nat, nat) {
        (max_nat(max_line_width(self.header.0@, self.header_widths.0@), rows_max_width(self.rows@, self.row_widths@, self.rows@.len() as int, false)),
         max_nat(max_line_width(self.header.1@, self.header_widths.1@), rows_max_width(self.rows@, self.row_widths@, self.rows@.len() as int, true)))
    }

    /// The widths of the columns once laid out in the widget's width.
    pub open spec fn laid_out_widths(&self) -> (nat, nat) {
        fitted_widths(self.widths.0 as nat, self.widths.1 as nat, self.widget_data.rect.width as nat)
    }

    /// Every text of the list can be laid out in the widths `kw` and `vw`:
    /// its wrapping ends, and the sizes stay within machine limits.
    pub open spec fn formats_in(&self, kw: nat, vw: nat) -> bool {
        &&& self.cells_ok()
        &&& wraps_out(self.header.0@, self.header_widths.0@, kw, wrap_start())
        &&& wraps_out(self.header.1@, self.header_widths.1@, vw, wrap_start())
        &&& 3 * self.header.0@.len() + 3 * self.header.1@.len() + kw + vw + 2 <= usize::MAX / 4
        &&& forall|i: int| 0 <= i < self.rows@.len() ==>
            wraps_out(#[trigger] self.rows@[i].0@, self.row_widths@[i].0@, kw, wrap_start())
            && wraps_out(self.rows@[i].1@, self.row_widths@[i].1@, vw, wrap_start())
            && 3 * self.rows@[i].0@.len() + 3 * self.rows@[i].1@.len() + kw + vw + 2 <= usize::MAX / 4
        &&& rows_height_spec(Seq::new(self.rows@.len(), |i: int| format_row_spec(self.rows@[i].0@, self.row_widths@[i].0@,
            self.rows@[i].1@, self.row_widths@[i].1@, kw, vw)), self.rows@.len() as int) <= usize::MAX
    }

    /// An empty list with the titles `key_header` and `value_header`, whose
    /// characters have the given widths.
    pub fn new(key_header: String, key_widths: Vec<i32>, value_header: String, value_widths: Vec<i32>, widget_id: WidgetId) -> (r: Self)
        ensures
            r.widget_data == WidgetData::new_spec(widget_id),
            r.header.0@ == key_header@,
            r.header.1@ == value_header@,
            r.header_widths.0@ == key_widths@,
            r.header_widths.1@ == value_widths@,
            r.rows@.len() == 0,
            r.row_widths@.len() == 0,
            r.formatted_header@.len() == 0,
            r.formatted_rows@.len() == 0,
            r.widths == (0usize, 0usize),
            r.formatted_widths == (0usize, 0usize),
            r.header_height == 0,
            r.rows_height == 0,
            r.selected_row_index == 0,
            r.scroll_row == 0,
            !r.editable,
            r.edit_state is None,
    {
        PropertyList {
            widget_data: WidgetData::new(widget_id),
            widths: (0, 0),
            formatted_widths: (0, 0),
            header: (key_header, value_header),
            header_widths: (key_widths, value_widths),
            rows: Vec::new(),
            row_widths: Vec::new(),
            formatted_header: Vec::new(),
            formatted_rows: Vec::new(),
            header_height: 0,
            rows_height: 0,
            selected_row_index: 0,
            scroll_row: 0,
            editable: false,
            edit_state: None,
        }
    }

    pub fn header_height(&self) -> (r: usize)
        ensures
            r == self.header_height,
    {
        self.header_height
    }

    pub fn rows_height(&self) -> (r: usize)
        ensures
            r == self.rows_height,
    {
        self.rows_height
    }

    /// Measures the natural widths of the two columns.
    pub fn preformat(&mut self)
        requires
            old(self).cells_ok(),
        ensures
            final(self).widths.0 == old(self).natural_widths().0,
            final(self).widths.1 == old(self).natural_widths().1,
            *final(self) == (PropertyList { widths: final(self).widths, ..*old(self) }),
    {
        let mut key_width = wcs_max_width_control_is_one(self.header.0.as_str(), self.header_widths.0.as_slice());
        let mut value_width = wcs_max_width_control_is_one(self.header.1.as_str(), self.header_widths.1.as_slice());
        let ghost kw0 = key_width as nat;
        let ghost vw0 = value_width as nat;
        let mut i: usize = 0;
        while i < self.rows.len()
            invariant
                self.cells_ok(),
                *self == *old(self),
                i <= self.rows@.len(),
                kw0 == max_line_width(self.header.0@, self.header_widths.0@),
                vw0 == max_line_width(self.header.1@, self.header_widths.1@),
                key_width == max_nat(kw0, rows_max_width(self.rows@, self.row_widths@, i as int, false)),
                value_width == max_nat(vw0, rows_max_width(self.rows@, self.row_widths@, i as int, true)),
            decreases self.rows.len() - i,
        {
            proof {
                assert(cell_ok(self.rows@[i as int].0@, self.row_widths@[i as int].0@));
            }
            let rk = wcs_max_width_control_is_one(self.rows[i].0.as_str(), self.row_widths[i].0.as_slice());
            let rv = wcs_max_width_control_is_one(self.rows[i].1.as_str(), self.row_widths[i].1.as_slice());
            if rk > key_width {
                key_width = rk;
            }
            if rv > value_width {
                value_width = rv;
            }
            i += 1;
        }
        self.widths = (key_width, value_width);
    }

    /// Lays out the header and the rows in the widths that fit the
    /// widget's width; see [`fitted_widths`] and [`format_row_spec`].
    pub fn postformat(&mut self)
        requires
            old(self).widget_data.rect.width > 0,
            old(self).widths.0 + 1 + old(self).widths.1 <= usize::MAX,
            old(self).formats_in(old(self).laid_out_widths().0, old(self).laid_out_widths().1),
        ensures
            final(self).formatted_widths.0 == old(self).laid_out_widths().0,
            final(self).formatted_widths.1 == old(self).laid_out_widths().1,
            lines_v(final(self).formatted_header@) == format_row_spec(old(self).header.0@, old(self).header_widths.0@,
                old(self).header.1@, old(self).header_widths.1@, old(self).laid_out_widths().0, old(self).laid_out_widths().1),
            final(self).formatted_rows@.len() == old(self).rows@.len(),
            forall|i: int| 0 <= i < old(self).rows@.len() ==> lines_v(#[trigger] final(self).formatted_rows@[i]@)
                == format_row_spec(old(self).rows@[i].0@, old(self).row_widths@[i].0@, old(self).rows@[i].1@,
                    old(self).row_widths@[i].1@, old(self).laid_out_widths().0, old(self).laid_out_widths().1),
            final(self).header_height == final(self).formatted_header@.len(),
            final(self).rows_height == rows_height_spec(Seq::new(old(self).rows@.len(), |i: int| lines_v(final(self).formatted_rows@[i]@)),
                old(self).rows@.len() as int),
            *final(self) == (PropertyList {
                formatted_widths: final(self).formatted_widths,
                formatted_header: final(self).formatted_header,
                formatted_rows: final(self).formatted_rows,
                header_height: final(self).header_height,
                rows_height: final(self).rows_height,
                ..*old(self)
            }),
    {
        let width = self.widget_data.rect.width as usize;
        let mut key_width = self.widths.0;
        let mut value_width = self.widths.1;
        if key_width + 1 + value_width > width {
            let h0 = width / 2;
            let half = if h0 + h0 < width { h0 } else { h0 - 1 };
            if key_width <= half {
                value_width = width - 1 - key_width;
            } else if value_width <= half {
                key_width = width - 1 - value_width;
            } else {
                key_width = half;
                value_width = width - 1 - key_width;
            }
        }
        self.formatted_widths = (key_width, value_width);
        let ghost kw = key_width as nat;
        let ghost vw = value_width as nat;
        assert((kw, vw) == old(self).laid_out_widths());
        let mut fh: Vec<Vec<Item>> = Vec::new();
        let hh = format_row(self.header.0.as_str(), self.header_widths.0.as_slice(), self.header.1.as_str(),
            self.header_widths.1.as_slice(), key_width, value_width, &mut fh);
        self.formatted_header = fh;
        self.header_height = hh;
        let mut rows: Vec<Vec<Vec<Item>>> = Vec::new();
        let mut rows_height: usize = 0;
        let ghost all = Seq::new(self.rows@.len(), |i: int| format_row_spec(self.rows@[i].0@, self.row_widths@[i].0@,
            self.rows@[i].1@, self.row_widths@[i].1@, kw, vw));
        let mut i: usize = 0;
        while i < self.rows.len()
            invariant
                i <= self.rows@.len(),
                self.rows == old(self).rows,
                self.row_widths == old(self).row_widths,
                self.header == old(self).header,
                self.header_widths == old(self).header_widths,
                old(self).formats_in(kw, vw),
                key_width == kw,
                value_width == vw,
                all == Seq::new(self.rows@.len(), |i: int| format_row_spec(self.rows@[i].0@, self.row_widths@[i].0@,
                    self.rows@[i].1@, self.row_widths@[i].1@, kw, vw)),
                rows@.len() == i,
                forall|j: int| 0 <= j < i ==> lines_v(#[trigger] rows@[j]@) == all[j],
                rows_height == rows_height_spec(all, i as int),
            decreases self.rows.len() - i,
        {
            proof {
                assert(cell_ok(self.rows@[i as int].0@, self.row_widths@[i as int].0@));
                assert(wraps_out(self.rows@[i as int].0@, self.row_widths@[i as int].0@, kw, wrap_start()));
                lemma_rows_height_mono(all, i + 1, all.len() as int);
            }
            let mut f: Vec<Vec<Item>> = Vec::new();
            let h = format_row(self.rows[i].0.as_str(), self.row_widths[i].0.as_slice(), self.rows[i].1.as_str(),
                self.row_widths[i].1.as_slice(), key_width, value_width, &mut f);
            let ghost before = rows@;
            rows.push(f);
            rows_height = rows_height + h;
            proof {
                assert forall|j: int| 0 <= j < i + 1 implies lines_v(#[trigger] rows@[j]@) == all[j] by {
                    if j < i {
                        assert(rows@[j] == before[j]);
                    }
                }
            }
            i += 1;
        }
        proof {
            assert(Seq::new(old(self).rows@.len(), |i: int| lines_v(rows@[i]@)) =~= all);
        }
        self.formatted_rows = rows;
        self.rows_height = rows_height;
    }

    /// Measures and lays out the list.
    pub fn update(&mut self)
        requires
            old(self).cells_ok(),
            old(self).widget_data.rect.width > 0,
            old(self).natural_widths().0 + 1 + old(self).natural_widths().1 <= usize::MAX,
            old(self).formats_in(
                fitted_widths(old(self).natural_widths().0, old(self).natural_widths().1, old(self).widget_data.rect.width as nat).0,
                fitted_widths(old(self).natural_widths().0, old(self).natural_widths().1, old(self).widget_data.rect.width as nat).1),
        ensures
            final(self).widths.0 == old(self).natural_widths().0,
            final(self).widths.1 == old(self).natural_widths().1,
            final(self).formatted_widths.0 == final(self).laid_out_widths().0,
            final(self).formatted_widths.1 == final(self).laid_out_widths().1,
            lines_v(final(self).formatted_header@) == format_row_spec(old(self).header.0@, old(self).header_widths.0@,
                old(self).header.1@, old(self).header_widths.1@, final(self).laid_out_widths().0, final(self).laid_out_widths().1),
            final(self).formatted_rows@.len() == old(self).rows@.len(),
            forall|i: int| 0 <= i < old(self).rows@.len() ==> lines_v(#[trigger] final(self).formatted_rows@[i]@)
                == format_row_spec(old(self).rows@[i].0@, old(self).row_widths@[i].0@, old(self).rows@[i].1@,
                    old(self).row_widths@[i].1@, final(self).laid_out_widths().0, final(self).laid_out_widths().1),
            final(self).header_height == final(self).formatted_header@.len(),
            final(self).rows_height == rows_height_spec(Seq::new(old(self).rows@.len(), |i: int| lines_v(final(self).formatted_rows@[i]@)),
                old(self).rows@.len() as int),
            final(self).rows == old(self).rows,
            final(self).header == old(self).header,
            final(self).widget_data == old(self).widget_data,
    {
        self.preformat();
        self.postformat();
    }

    /// Moves the list to `rect`; where that changes it, the list is laid
    /// out anew and marked to be drawn.
    pub fn set_draw_rect(&mut self, rect: &Rect)
        requires
            *rect != old(self).widget_data.rect ==> rect.width > 0
                && old(self).widths.0 + 1 + old(self).widths.1 <= usize::MAX
                && old(self).formats_in(fitted_widths(old(self).widths.0 as nat, old(self).widths.1 as nat, rect.width as nat).0,
                    fitted_widths(old(self).widths.0 as nat, old(self).widths.1 as nat, rect.width as nat).1),
        ensures
            final(self).widget_data.rect == *rect,
            *rect == old(self).widget_data.rect ==> *final(self) == *old(self),
            *rect != old(self).widget_data.rect ==> final(self).widget_data.dirty
                && final(self).formatted_widths.0 == fitted_widths(old(self).widths.0 as nat, old(self).widths.1 as nat, rect.width as nat).0
                && final(self).formatted_widths.1 == fitted_widths(old(self).widths.0 as nat, old(self).widths.1 as nat, rect.width as nat).1
                && lines_v(final(self).formatted_header@) == format_row_spec(old(self).header.0@, old(self).header_widths.0@,
                    old(self).header.1@, old(self).header_widths.1@, final(self).laid_out_widths().0, final(self).laid_out_widths().1)
                && final(self).formatted_rows@.len() == old(self).rows@.len()
                && final(self).header_height == final(self).formatted_header@.len(),
    {
        if self.widget_data.rect != *rect {
            self.widget_data.rect = *rect;
            self.widget_data.dirty = true;
            self.postformat();
        }
    }
}

proof fn lemma_rows_height_mono(rows: Seq<Seq<Seq<ItemV>>>, a: int, b: int)
    requires
        0 <= a <= b,
    ensures
        rows_height_spec(rows, a) <= rows_height_spec(rows, b),
    decreases b - a,
{
    if a < b {
        lemma_rows_height_mono(rows, a, b - 1);
    }
}

/// An item as an item of plain text.
pub open spec fn plain_item(i: ItemV) -> crate::plain_text::Item {
    match i {
        ItemV::Text { text, width, .. } => crate::plain_text::Item::Text { text: text, width: width },
        ItemV::Special(c) => crate::plain_text::Item::Special(c),
    }
}

/// The character widths of an item: none for a control character.
pub open spec fn item_char_widths(i: ItemV) -> Seq<i32> {
    match i {
        ItemV::Text { widths, .. } => widths,
        ItemV::Special(_) => Seq::empty(),
    }
}

pub open spec fn plain_line(line: Seq<ItemV>) -> Seq<crate::plain_text::Item> {
    line.map_values(|i: ItemV| plain_item(i))
}

pub open spec fn plain_lines(lines: Seq<Seq<ItemV>>) -> Seq<Seq<crate::plain_text::Item>> {
    lines.map_values(|l: Seq<ItemV>| plain_line(l))
}

pub open spec fn line_char_widths(line: Seq<ItemV>) -> Seq<Seq<i32>> {
    line.map_values(|i: ItemV| item_char_widths(i))
}

pub open spec fn lines_char_widths(lines: Seq<Seq<ItemV>>) -> Seq<Seq<Seq<i32>>> {
    lines.map_values(|l: Seq<ItemV>| line_char_widths(l))
}

/// The lines `lines` as lines of plain items, with their character widths.
fn to_plain(lines: &[Vec<Item>]) -> (r: (Vec<Vec<PlainTextItem>>, Vec<Vec<Vec<i32>>>))
    ensures
        plain_lines_view(r.0@) == plain_lines(lines_v(lines@)),
        block_widths_v(r.1@) == lines_char_widths(lines_v(lines@)),
{
    let mut out: Vec<Vec<PlainTextItem>> = Vec::new();
    let mut wout: Vec<Vec<Vec<i32>>> = Vec::new();
    let mut l: usize = 0;
    while l < lines.len()
        invariant
            l <= lines@.len(),
            plain_lines_view(out@) == plain_lines(lines_v(lines@.take(l as int))),
            block_widths_v(wout@) == lines_char_widths(lines_v(lines@.take(l as int))),
        decreases lines.len() - l,
    {
        let line = &lines[l];
        let mut pl: Vec<PlainTextItem> = Vec::new();
        let mut wl: Vec<Vec<i32>> = Vec::new();
        let mut k: usize = 0;
        while k < line.len()
            invariant
                k <= line@.len(),
                items_view(pl@) == plain_line(items_v(line@.take(k as int))),
                line_widths_v(wl@) == line_char_widths(items_v(line@.take(k as int))),
            decreases line.len() - k,
        {
            let ghost p0 = pl@;
            let ghost w0 = wl@;
            match &line[k] {
                Item::Text { text, width, widths } => {
                    pl.push(PlainTextItem::Text { text: text.clone(), width: *width });
                    let mut v: Vec<i32> = Vec::new();
                    push_widths(&mut v, widths.as_slice(), 0, widths.len());
                    proof { assert(widths@.subrange(0, widths@.len() as int) =~= widths@); }
                    wl.push(v);
                },
                Item::Special(c) => {
                    pl.push(PlainTextItem::Special(*c));
                    wl.push(Vec::new());
                },
            }
            proof {
                assert(items_v(line@.take(k + 1)) =~= items_v(line@.take(k as int)).push(line@[k as int]@));
                assert(items_view(pl@) =~= items_view(p0).push(plain_item(line@[k as int]@)));
                assert(line_widths_v(wl@) =~= line_widths_v(w0).push(item_char_widths(line@[k as int]@)));
                assert(plain_line(items_v(line@.take(k + 1))) =~= plain_line(items_v(line@.take(k as int))).push(plain_item(line@[k as int]@)));
                assert(line_char_widths(items_v(line@.take(k + 1))) =~= line_char_widths(items_v(line@.take(k as int))).push(item_char_widths(line@[k as int]@)));
            }
            k += 1;
        }
        proof {
            assert(line@.take(k as int) =~= line@);
        }
        let ghost o0 = out@;
        let ghost ww0 = wout@;
        out.push(pl);
        wout.push(wl);
        proof {
            assert(lines_v(lines@.take(l + 1)) =~= lines_v(lines@.take(l as int)).push(items_v(lines@[l as int]@)));
            assert(plain_lines_view(out@) =~= plain_lines_view(o0).push(items_view(pl@)));
            assert(block_widths_v(wout@) =~= block_widths_v(ww0).push(line_widths_v(wl@)));
            assert(plain_lines(lines_v(lines@.take(l + 1))) =~= plain_lines(lines_v(lines@.take(l as int))).push(plain_line(items_v(lines@[l as int]@))));
            assert(lines_char_widths(lines_v(lines@.take(l + 1))) =~= lines_char_widths(lines_v(lines@.take(l as int))).push(line_char_widths(items_v(lines@[l as int]@))));
        }
        l += 1;
    }
    proof {
        assert(lines@.take(l as int) =~= lines@);
    }
    (out, wout)
}

/// Every item of every line is well made and every line is narrower than
/// 2^64 columns.
pub open spec fn lines_drawable(lines: Seq<Seq<ItemV>>) -> bool {
    &&& plain_widths_ok(plain_lines(lines), lines_char_widths(lines))
    &&& plain_lines_fit(plain_lines(lines))
}

/// The drawing of formatted lines of a property list: as plain text, with
/// the style reset first and a control character's column counted before
/// the test whether it is shown.
pub open spec fn list_draw(lines: Seq<Seq<ItemV>>, window: WindowSize, row: int, column: int, crop_row: int,
    width: int, height: int) -> Seq<Op> {
    plain_draw_spec(plain_lines(lines), lines_char_widths(lines), window, row, column, crop_row, 0, width, height,
        seq![Op::ClearStyle, Op::FgDefault, Op::BgDefault], true)
}

fn draw_list_lines(lines: &[Vec<Item>], window: WindowSize, row: i32, column: i32, crop_row: u32, width: u32, height: u32)
    -> (r: Vec<DrawOp>)
    requires
        row > i32::MIN,
        column > i32::MIN,
        lines_drawable(lines_v(lines@)),
        region_ok(region_spec(lines@.len() as int, None, window.rows as int, window.columns as int,
            row as int, column as int, crop_row as int, 0, width as int, height as int)),
    ensures
        ops_view(r@) == list_draw(lines_v(lines@), window, row as int, column as int, crop_row as int, width as int, height as int),
{
    let (pl, pw) = to_plain(lines);
    let mut prefix: Vec<DrawOp> = Vec::new();
    push_op(&mut prefix, DrawOp::ClearStyle);
    push_op(&mut prefix, DrawOp::FgDefault);
    push_op(&mut prefix, DrawOp::BgDefault);
    assert(ops_view(prefix@) =~= seq![Op::ClearStyle, Op::FgDefault, Op::BgDefault]);
    proof {
        assert(plain_lines_view(pl@).len() == lines@.len());
    }
    draw_items_cropped(pl.as_slice(), pw.as_slice(), window, row, column, crop_row, 0, width, height, prefix, true)
}

/// Heights of formatted rows.
pub open spec fn row_heights(rows: Seq<Vec<Vec<Item>>>) -> Seq<int> {
    rows.map_values(|r: Vec<Vec<Item>>| r@.len() as int)
}

fn row_heights_exec(rows: &[Vec<Vec<Item>>]) -> (r: Vec<usize>)
    ensures
        heights_v(r@) == row_heights(rows@),
{
    let mut r: Vec<usize> = Vec::new();
    let mut i: usize = 0;
    while i < rows.len()
        invariant
            i <= rows@.len(),
            heights_v(r@) == row_heights(rows@.take(i as int)),
        decreases rows.len() - i,
    {
        let ghost r0 = r@;
        r.push(rows[i].len());
        proof {
            assert(row_heights(rows@.take(i + 1)) =~= row_heights(rows@.take(i as int)).push(rows@[i as int]@.len() as int));
            assert(heights_v(r@) =~= heights_v(r0).push(rows@[i as int]@.len() as int));
        }
        i += 1;
    }
    assert(rows@.take(i as int) =~= rows@);
    r
}

impl PropertyList {
    /// The rows of the body that a drawing shows.
    pub open spec fn plans(&self) -> Seq<RowPlanV> {
        table_layout_spec(row_heights(self.formatted_rows@), self.formatted_header@.len() as int,
            self.widget_data.rect.height as int, self.scroll_row as int).0
    }

    /// The lines passed and left once the rows are drawn.
    pub open spec fn layout_rest(&self) -> (int, int) {
        let l = table_layout_spec(row_heights(self.formatted_rows@), self.formatted_header@.len() as int,
            self.widget_data.rect.height as int, self.scroll_row as int);
        (l.1, l.2)
    }

    pub open spec fn row_draw(&self, window: WindowSize, row: int, column: int) -> spec_fn(RowPlanV) -> Seq<Op> {
        |p: RowPlanV| list_draw(lines_v(self.formatted_rows@[p.index]@), window, row + p.offset, column, p.crop_row,
            self.widget_data.rect.width as int, p.avail)
    }

    /// Where the blank lines below the rows start.
    pub open spec fn blank_row(&self, row: int) -> int {
        let (body, _) = self.layout_rest();
        (((row + self.formatted_header@.len() + max_int(body - self.scroll_row, 0)) as i32) as u32) as int
    }

    /// The drawing of the list at `row`, `column` (its rectangle moved by
    /// the parent's place): like a table's, with the lines below the rows
    /// blanked.
    pub open spec fn draw_spec(&self, window: WindowSize, row: int, column: int) -> Seq<Op> {
        let width = self.widget_data.rect.width as int;
        let height = self.widget_data.rect.height as int;
        let header = list_draw(lines_v(self.formatted_header@), window, row, column, 0, width, height);
        if height < self.formatted_header@.len() {
            table_head_ops(header) + seq![Op::EndScope, Op::EndScope]
        } else {
            let (body, avail) = self.layout_rest();
            table_head_ops(header)
                + rows_ops(self.plans(), self.scroll_row as int, self.selected_row_index as int, self.row_draw(window, row, column))
                + (if body < avail {
                    blank_lines(window.columns as int, column, width, self.blank_row(row), avail - body)
                } else {
                    seq![]
                })
                + seq![Op::EndScope, Op::EndScope]
        }
    }

    /// The list can be drawn at `row`, `column`.
    pub open spec fn drawable(&self, window: WindowSize, row: int, column: int) -> bool {
        let hh = self.formatted_header@.len() as int;
        let height = self.widget_data.rect.height as int;
        &&& i32::MIN < row <= i32::MAX
        &&& i32::MIN < column <= i32::MAX
        &&& lines_drawable(lines_v(self.formatted_header@))
        &&& forall|i: int| 0 <= i < self.formatted_rows@.len() ==> lines_drawable(#[trigger] lines_v(self.formatted_rows@[i]@))
        &&& hh <= height ==> hh + heights_from(row_heights(self.formatted_rows@), 0) + self.scroll_row <= i32::MAX
        &&& hh <= height ==> height - hh + self.scroll_row <= u32::MAX
        &&& forall|k: int| 0 <= k < self.plans().len() ==> row + #[trigger] self.plans()[k].offset <= i32::MAX
        &&& forall|k: int| 0 <= k < self.plans().len() ==> region_ok(region_spec(
            self.formatted_rows@[#[trigger] self.plans()[k].index]@.len() as int, None,
            window.rows as int, window.columns as int,
            row + self.plans()[k].offset, column, self.plans()[k].crop_row, 0,
            self.widget_data.rect.width as int, self.plans()[k].avail))
        &&& self.layout_rest().0 < self.layout_rest().1 ==>
            row + hh + max_int(self.layout_rest().0 - self.scroll_row, 0) <= i32::MAX
        &&& self.layout_rest().0 < self.layout_rest().1 ==> blank_lines_ok(window.columns as int, column,
            self.widget_data.rect.width as int, self.blank_row(row), self.layout_rest().1 - self.layout_rest().0)
    }

    /// The operations that draw the list where it needs drawing, with its
    /// rectangle moved by `parent_row`, `parent_column`; the list is then
    /// marked drawn, unless its header does not fit.
    pub fn draw(&mut self, window: WindowSize, parent_row: i32, parent_column: i32) -> (r: Vec<DrawOp>)
        requires
            old(self).widget_data.dirty && old(self).widget_data.rect.width != 0 && old(self).widget_data.rect.height != 0
                ==> old(self).drawable(window, old(self).widget_data.rect.row + parent_row,
                    old(self).widget_data.rect.column + parent_column),
        ensures
            !old(self).widget_data.dirty ==> r@.len() == 0 && *final(self) == *old(self),
            old(self).widget_data.dirty && (old(self).widget_data.rect.width == 0 || old(self).widget_data.rect.height == 0)
                ==> r@.len() == 0 && *final(self) == (PropertyList {
                    widget_data: WidgetData { dirty: false, ..old(self).widget_data }, ..*old(self) }),
            old(self).widget_data.dirty && old(self).widget_data.rect.width != 0 && old(self).widget_data.rect.height != 0
                ==> ops_view(r@) == old(self).draw_spec(window, old(self).widget_data.rect.row + parent_row,
                    old(self).widget_data.rect.column + parent_column)
                && *final(self) == (PropertyList {
                    widget_data: WidgetData {
                        dirty: old(self).widget_data.rect.height < old(self).formatted_header@.len(),
                        ..old(self).widget_data
                    },
                    ..*old(self)
                }),
    {
        if !self.widget_data.dirty {
            return Vec::new();
        }
        let rect = self.widget_data.rect;
        if rect.width == 0 || rect.height == 0 {
            self.widget_data.dirty = false;
            return Vec::new();
        }
        let row = rect.row + parent_row;
        let column = rect.column + parent_column;
        let width = rect.width;
        let height = rect.height;
        let mut ops: Vec<DrawOp> = Vec::new();
        push_op(&mut ops, DrawOp::Scoped(TermIOState::DefaultBackground(crate::styles::odd_row_background_value())));
        push_op(&mut ops, DrawOp::Scoped(TermIOState::DefaultForeground(crate::styles::table_foreground_value())));
        push_op(&mut ops, DrawOp::FontWeight(FontWeight::Bold));
        proof {
            lemma_region_ok_from_top(self.formatted_header@.len() as int, None, window.rows as int, window.columns as int,
                row as int, column as int, 0, width as int, height as int);
        }
        let header = draw_list_lines(self.formatted_header.as_slice(), window, row, column, 0, width, height);
        append_ops(&mut ops, header);
        push_op(&mut ops, DrawOp::FontWeight(FontWeight::Normal));
        let ghost head = ops_view(ops@);
        let hh = self.formatted_header.len();
        if (height as usize) < hh {
            push_op(&mut ops, DrawOp::EndScope);
            push_op(&mut ops, DrawOp::EndScope);
            assert(ops_view(ops@) =~= self.draw_spec(window, row as int, column as int));
            return ops;
        }
        let heights = row_heights_exec(self.formatted_rows.as_slice());
        let ghost hv = row_heights(self.formatted_rows@);
        proof {
            assert(heights_v(heights@) == hv);
            assert forall|k: int| 0 <= k < hv.len() implies #[trigger] hv[k] >= 0 by {}
            crate::draw::lemma_heights_from_nonneg(hv, 0);
        }
        let (plans, body, avail) = table_layout(heights.as_slice(), hh, height, self.scroll_row);
        proof {
            lemma_layout_bounds(hv, hh as int, height as int, self.scroll_row as int);
            assert(plans_view(plans@) == self.plans());
            assert(body <= heights_from(hv, 0));
        }
        let ghost draw_row = self.row_draw(window, row as int, column as int);
        let mut k: usize = 0;
        while k < plans.len()
            invariant
                k <= plans@.len(),
                plans_view(plans@) == self.plans(),
                draw_row == self.row_draw(window, row as int, column as int),
                self.drawable(window, row as int, column as int),
                i32::MIN < row <= i32::MAX,
                i32::MIN < column <= i32::MAX,
                width == self.widget_data.rect.width,
                hh == self.formatted_header@.len(),
                hv == row_heights(self.formatted_rows@),
                hv.len() == self.formatted_rows@.len(),
                body <= heights_from(hv, 0),
                (plans_view(plans@), body as int, avail as int) == table_layout_spec(hv, hh as int, height as int, self.scroll_row as int),
                height == self.widget_data.rect.height,
                forall|j: int| 0 <= j < self.plans().len() ==> 0 <= #[trigger] self.plans()[j].index < hv.len()
                    && hh <= self.plans()[j].offset <= hh + heights_from(hv, 0),
                hh + heights_from(hv, 0) + self.scroll_row <= i32::MAX,
                ops_view(ops@) == head + rows_ops(plans_view(plans@).take(k as int), self.scroll_row as int,
                    self.selected_row_index as int, draw_row),
            decreases plans.len() - k,
        {
            let p = plans[k];
            proof {
                assert(plans_view(plans@)[k as int] == p@);
                assert(self.plans()[k as int] == p@);
                assert(self.plans()[k as int].index == p.index);
                assert(self.plans()[k as int].offset == p.offset);
                assert(lines_drawable(lines_v(self.formatted_rows@[p.index as int]@)));
            }
            push_op(&mut ops, DrawOp::Scoped(TermIOState::DefaultBackground(
                row_background_value(p.index, self.scroll_row, self.selected_row_index))));
            let d = draw_list_lines(self.formatted_rows[p.index].as_slice(), window, row + p.offset as i32, column,
                p.crop_row, width, p.avail);
            append_ops(&mut ops, d);
            push_op(&mut ops, DrawOp::EndScope);
            proof {
                assert(plans_view(plans@).take(k + 1) =~= plans_view(plans@).take(k as int).push(p@));
                lemma_rows_ops_push(plans_view(plans@).take(k as int), p@, self.scroll_row as int,
                    self.selected_row_index as int, draw_row);
            }
            k += 1;
        }
        assert(plans_view(plans@).take(k as int) =~= plans_view(plans@));
        let ghost mid = ops_view(ops@);
        if body < avail as usize {
            let lr: i32 = if body >= self.scroll_row as usize {
                row + (hh + (body - self.scroll_row as usize)) as i32
            } else {
                row + hh as i32
            };
            push_blank_lines(&mut ops, window.columns, column, width, lr as u32, (avail as usize - body) as u32);
        }
        push_op(&mut ops, DrawOp::EndScope);
        push_op(&mut ops, DrawOp::EndScope);
        self.widget_data.dirty = false;
        assert(ops_view(ops@) =~= old(self).draw_spec(window, row as int, column as int));
        ops
    }
}

} // verus!
