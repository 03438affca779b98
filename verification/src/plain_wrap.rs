use vstd::prelude::*;
use crate::plain_text::{PlainText, PlainTextItem, Item, items_view, plain_lines_view, copy_line};
use crate::char_width::{valid_widths, visible, visible_width, lemma_visible_width_push, lemma_visible_width_bound};
use crate::wrap::{piece_end, wrap_point, lemma_wrap_point_bounds, find_wrap_point, range_width};
use crate::draw::{plain_widths_ok, plain_line_widths_ok, item_widths_ok, block_widths_v, line_widths_v};
use crate::text::{push_char, to_chars};

verus! {

/// State while plain text is wrapped: the lines so far, the columns used
/// on the current line, the width counted so far, and whether the
/// wrapping met a character it can never place.
pub ghost struct PlainWrapState {
    pub lines: Seq<Seq<Item>>,
    pub lw: nat,
    pub width: nat,
    pub stuck: bool,
}

/// Adds an item to the last line.
pub open spec fn push_item(lines: Seq<Seq<Item>>, it: Item) -> Seq<Seq<Item>> {
    lines.update(lines.len() - 1, lines[lines.len() - 1].push(it))
}

/// Where a run of characters from `i` on, placed after `lw` used
/// columns, first passes `w` columns, with the columns used before that
/// character; the end of the run where it never does.
pub open spec fn char_break(ws: Seq<i32>, i: int, lw: nat, w: nat) -> (int, nat)
    decreases ws.len() - i,
{
    if i < 0 || i >= ws.len() {
        (ws.len() as int, lw)
    } else if lw + visible(ws[i]) > w {
        (i, lw)
    } else {
        char_break(ws, i + 1, lw + visible(ws[i]), w)
    }
}

/// A text wider than what is left of the line, wrapped from `index` on,
/// a word (or a single other character) at a time.  Words that fit only
/// take up columns; at a word that does not fit, the text up to it is
/// added with the columns of the line and a new line starts; a word that
/// does not fit a fresh line is broken before the first character that
/// does not fit.  A character wider than a whole line is never placed.
pub open spec fn words_run(st: PlainWrapState, t: Seq<char>, ws: Seq<i32>, w: nat, index: int) -> PlainWrapState
    decreases t.len() - index, (if st.lw > 0 { 1int } else { 0int }),
{
    if index < 0 || index >= t.len() || st.stuck {
        st
    } else {
        proof {
            lemma_wrap_point_bounds(t, index);
        }
        let pe = piece_end(t, index);
        let ww = visible_width(ws.subrange(index, pe));
        if st.lw + ww <= w {
            words_run(PlainWrapState { lw: st.lw + ww, ..st }, t, ws, w, pe)
        } else if st.lw > 0 {
            let lines = if index > 0 {
                push_item(st.lines, Item::Text { text: t.take(index), width: st.lw })
            } else {
                st.lines
            };
            words_run(PlainWrapState { lines: lines.push(Seq::empty()), lw: 0, ..st }, t, ws, w, index)
        } else {
            let b = char_break(ws, index, 0, w);
            if b.0 <= index || b.0 >= t.len() {
                PlainWrapState { stuck: true, ..st }
            } else {
                words_run(PlainWrapState {
                    lines: push_item(st.lines, Item::Text { text: t.take(b.0), width: b.1 }).push(Seq::empty()),
                    lw: 0,
                    ..st
                }, t, ws, w, b.0)
            }
        }
    }
}

/// One item of a line: a line feed mark is kept; a control character
/// starts a new line where the line is full (the line is counted for the
/// width) and takes one column; a text that fits is kept whole, a wider
/// one is wrapped word by word.
pub open spec fn plain_item_wrap(st: PlainWrapState, it: Item, ws: Seq<i32>, w: nat) -> PlainWrapState {
    if st.stuck {
        st
    } else {
        match it {
            Item::Newline => PlainWrapState { lines: push_item(st.lines, it), ..st },
            Item::Special(_) => {
                let s1 = if st.lw + 1 > w {
                    PlainWrapState {
                        lines: st.lines.push(Seq::empty()),
                        lw: 0,
                        width: if st.lw > st.width { st.lw } else { st.width },
                        stuck: false,
                    }
                } else {
                    st
                };
                PlainWrapState { lines: push_item(s1.lines, it), lw: s1.lw + 1, ..s1 }
            },
            Item::Text { text, width: tw } => {
                if st.lw + tw <= w {
                    PlainWrapState { lines: push_item(st.lines, it), lw: st.lw + tw, ..st }
                } else {
                    words_run(st, text, ws, w, 0)
                }
            },
        }
    }
}

/// The first `n` items of a line wrapped.
pub open spec fn plain_line_wrap(st: PlainWrapState, line: Seq<Item>, wl: Seq<Seq<i32>>, w: nat, n: int) -> PlainWrapState
    decreases n,
{
    if n <= 0 {
        st
    } else {
        plain_item_wrap(plain_line_wrap(st, line, wl, w, n - 1), line[n - 1], wl[n - 1], w)
    }
}

/// The first `k` lines wrapped, each starting a new line; the columns
/// used carry over from one line to the next.
pub open spec fn plain_lines_wrap(lines: Seq<Seq<Item>>, wss: Seq<Seq<Seq<i32>>>, w: nat, k: int) -> PlainWrapState
    decreases k,
{
    if k <= 0 {
        PlainWrapState { lines: Seq::empty(), lw: 0, width: 0, stuck: false }
    } else {
        let st = plain_lines_wrap(lines, wss, w, k - 1);
        plain_line_wrap(PlainWrapState { lines: st.lines.push(Seq::empty()), ..st }, lines[k - 1], wss[k - 1],
            w, lines[k - 1].len() as int)
    }
}

/// The columns a wrapping is made for: at least one.
pub open spec fn wrap_columns(wrap_width: nat) -> nat {
    if wrap_width < 1 { 1 } else { wrap_width }
}

/// Plain text wrapped to `wrap_width` columns: the lines and the width;
/// text no wider than that is kept as it is.
pub open spec fn plain_wrap_spec(lines: Seq<Seq<Item>>, wss: Seq<Seq<Seq<i32>>>, width: nat, wrap_width: nat)
    -> (Seq<Seq<Item>>, nat)
{
    let w = wrap_columns(wrap_width);
    if width <= w {
        (lines, width)
    } else {
        let st = plain_lines_wrap(lines, wss, w, lines.len() as int);
        (st.lines, st.width)
    }
}

/// Wrapping the text never meets a character it cannot place.
pub open spec fn plain_wrap_ends(lines: Seq<Seq<Item>>, wss: Seq<Seq<Seq<i32>>>, width: nat, wrap_width: nat) -> bool {
    width > wrap_columns(wrap_width) ==> !plain_lines_wrap(lines, wss, wrap_columns(wrap_width), lines.len() as int).stuck
}

proof fn lemma_char_break_bounds(ws: Seq<i32>, i: int, lw: nat, w: nat)
    requires
        0 <= i <= ws.len(),
        lw <= w,
    ensures
        i <= char_break(ws, i, lw, w).0 <= ws.len(),
        char_break(ws, i, lw, w).1 <= w,
    decreases ws.len() - i,
{
    if i < ws.len() && lw + visible(ws[i]) <= w {
        lemma_char_break_bounds(ws, i + 1, lw + visible(ws[i]), w);
    }
}

proof fn lemma_visible_width_front(ws: Seq<i32>, i: int, j: int)
    requires
        0 <= i < j <= ws.len(),
    ensures
        visible_width(ws.subrange(i, j)) == visible(ws[i]) + visible_width(ws.subrange(i + 1, j)),
    decreases j - i,
{
    if j - i > 1 {
        lemma_visible_width_front(ws, i, j - 1);
        assert(ws.subrange(i, j).drop_last() =~= ws.subrange(i, j - 1));
        assert(ws.subrange(i + 1, j).drop_last() =~= ws.subrange(i + 1, j - 1));
    } else {
        assert(ws.subrange(i, j).drop_last() =~= ws.subrange(i + 1, j));
        assert(ws.subrange(i + 1, j).len() == 0);
    }
}

/// A run wider than what is left breaks before its end.
proof fn lemma_char_break_before(ws: Seq<i32>, i: int, e: int, lw: nat, w: nat)
    requires
        0 <= i <= e <= ws.len(),
        lw <= w,
        lw + visible_width(ws.subrange(i, e)) > w,
    ensures
        char_break(ws, i, lw, w).0 < e,
    decreases e - i,
{
    if i == e {
        assert(ws.subrange(i, e).len() == 0);
    } else {
        lemma_visible_width_front(ws, i, e);
        if lw + visible(ws[i]) <= w {
            lemma_char_break_before(ws, i + 1, e, lw + visible(ws[i]), w);
        }
    }
}

proof fn lemma_words_not_stuck(st: PlainWrapState, t: Seq<char>, ws: Seq<i32>, w: nat, index: int)
    requires
        !st.stuck,
        st.lw <= w,
        0 <= index <= t.len(),
        ws.len() == t.len(),
        forall|j: int| 0 <= j < ws.len() ==> visible(#[trigger] ws[j]) <= w,
    ensures
        !words_run(st, t, ws, w, index).stuck,
    decreases t.len() - index, (if st.lw > 0 { 1int } else { 0int }),
{
    if index < t.len() {
        lemma_wrap_point_bounds(t, index);
        let pe = piece_end(t, index);
        let ww = visible_width(ws.subrange(index, pe));
        if st.lw + ww <= w {
            lemma_words_not_stuck(PlainWrapState { lw: st.lw + ww, ..st }, t, ws, w, pe);
        } else if st.lw > 0 {
            let lines = if index > 0 {
                push_item(st.lines, Item::Text { text: t.take(index), width: st.lw })
            } else {
                st.lines
            };
            lemma_words_not_stuck(PlainWrapState { lines: lines.push(Seq::empty()), lw: 0, ..st }, t, ws, w, index);
        } else {
            let b = char_break(ws, index, 0, w);
            lemma_char_break_before(ws, index, pe, 0, w);
            assert(visible(ws[index]) <= w);
            lemma_char_break_bounds(ws, index + 1, visible(ws[index]), w);
            lemma_words_not_stuck(PlainWrapState {
                lines: push_item(st.lines, Item::Text { text: t.take(b.0), width: b.1 }).push(Seq::empty()),
                lw: 0,
                ..st
            }, t, ws, w, b.0);
        }
    }
}

proof fn lemma_words_lw(st: PlainWrapState, t: Seq<char>, ws: Seq<i32>, w: nat, index: int)
    requires
        st.lw <= w,
    ensures
        words_run(st, t, ws, w, index).lw <= w,
        words_run(st, t, ws, w, index).width == st.width,
        st.stuck ==> words_run(st, t, ws, w, index).stuck,
    decreases t.len() - index, (if st.lw > 0 { 1int } else { 0int }),
{
    if index >= 0 && index < t.len() && !st.stuck {
        lemma_wrap_point_bounds(t, index);
        let pe = piece_end(t, index);
        let ww = visible_width(ws.subrange(index, pe));
        if st.lw + ww <= w {
            lemma_words_lw(PlainWrapState { lw: st.lw + ww, ..st }, t, ws, w, pe);
        } else if st.lw > 0 {
            let lines = if index > 0 {
                push_item(st.lines, Item::Text { text: t.take(index), width: st.lw })
            } else {
                st.lines
            };
            lemma_words_lw(PlainWrapState { lines: lines.push(Seq::empty()), lw: 0, ..st }, t, ws, w, index);
        } else {
            let b = char_break(ws, index, 0, w);
            if !(b.0 <= index || b.0 >= t.len()) {
                lemma_words_lw(PlainWrapState {
                    lines: push_item(st.lines, Item::Text { text: t.take(b.0), width: b.1 }).push(Seq::empty()),
                    lw: 0,
                    ..st
                }, t, ws, w, b.0);
            }
        }
    }
}

proof fn lemma_line_not_stuck(st: PlainWrapState, line: Seq<Item>, wl: Seq<Seq<i32>>, w: nat, n: int)
    requires
        !st.stuck,
        w >= 1,
        st.lw <= w,
        n <= line.len(),
        plain_line_widths_ok(line, wl),
        forall|c: int, j: int| 0 <= c < wl.len() && line[c] is Text && 0 <= j < wl[c].len()
            ==> visible(#[trigger] wl[c][j]) <= w,
    ensures
        !plain_line_wrap(st, line, wl, w, n).stuck,
        plain_line_wrap(st, line, wl, w, n).lw <= w,
    decreases n,
{
    if n > 0 {
        lemma_line_not_stuck(st, line, wl, w, n - 1);
        let s = plain_line_wrap(st, line, wl, w, n - 1);
        assert(item_widths_ok(line[n - 1], wl[n - 1]));
        match line[n - 1] {
            Item::Text { text, width: tw } => {
                if s.lw + tw > w {
                    lemma_words_not_stuck(s, text, wl[n - 1], w, 0);
                    lemma_words_lw(s, text, wl[n - 1], w, 0);
                }
            },
            _ => {},
        }
    }
}

/// Every character of the text takes at most `w` columns.
pub open spec fn chars_fit(wss: Seq<Seq<Seq<i32>>>, w: nat) -> bool {
    forall|l: int, c: int, j: int| 0 <= l < wss.len() && 0 <= c < wss[l].len() && 0 <= j < wss[l][c].len()
        ==> visible(#[trigger] wss[l][c][j]) <= w
}

/// Wrapping plain text to at least two columns always ends: no character
/// is wider than a line.
pub proof fn plain_wrap_ends_when_wide(lines: Seq<Seq<Item>>, wss: Seq<Seq<Seq<i32>>>, w: nat, k: int)
    requires
        w >= 2,
        plain_widths_ok(lines, wss),
        k <= lines.len(),
    ensures
        !plain_lines_wrap(lines, wss, w, k).stuck,
        plain_lines_wrap(lines, wss, w, k).lw <= w,
    decreases k,
{
    if k > 0 {
        plain_wrap_ends_when_wide(lines, wss, w, k - 1);
        assert(plain_line_widths_ok(lines[k - 1], wss[k - 1]));
        assert forall|c: int, j: int| 0 <= c < wss[k - 1].len() && lines[k - 1][c] is Text && 0 <= j < wss[k - 1][c].len()
            implies visible(#[trigger] wss[k - 1][c][j]) <= w by {
            assert(item_widths_ok(lines[k - 1][c], wss[k - 1][c]));
            assert(valid_widths(wss[k - 1][c]));
            assert(-1 <= wss[k - 1][c][j] <= 2);
        }
        let st = plain_lines_wrap(lines, wss, w, k - 1);
        lemma_line_not_stuck(PlainWrapState { lines: st.lines.push(Seq::empty()), ..st },
            lines[k - 1], wss[k - 1], w, lines[k - 1].len() as int);
    }
}

/// Wrapping plain text ends where no character is wider than a line.
pub proof fn plain_wrap_ends_when_chars_fit(lines: Seq<Seq<Item>>, wss: Seq<Seq<Seq<i32>>>, w: nat, k: int)
    requires
        w >= 1,
        chars_fit(wss, w),
        plain_widths_ok(lines, wss),
        k <= lines.len(),
    ensures
        !plain_lines_wrap(lines, wss, w, k).stuck,
        plain_lines_wrap(lines, wss, w, k).lw <= w,
    decreases k,
{
    if k > 0 {
        plain_wrap_ends_when_chars_fit(lines, wss, w, k - 1);
        assert forall|c: int, j: int| 0 <= c < wss[k - 1].len() && lines[k - 1][c] is Text && 0 <= j < wss[k - 1][c].len()
            implies visible(#[trigger] wss[k - 1][c][j]) <= w by {
            assert(visible(wss[k - 1][c][j]) <= w);
        }
        assert(plain_line_widths_ok(lines[k - 1], wss[k - 1]));
        let st = plain_lines_wrap(lines, wss, w, k - 1);
        lemma_line_not_stuck(PlainWrapState { lines: st.lines.push(Seq::empty()), ..st },
            lines[k - 1], wss[k - 1], w, lines[k - 1].len() as int);
    }
}


proof fn lemma_line_wrap_stuck(st: PlainWrapState, line: Seq<Item>, wl: Seq<Seq<i32>>, w: nat, i: int, n: int)
    requires
        0 <= i <= n,
        plain_line_wrap(st, line, wl, w, i).stuck,
    ensures
        plain_line_wrap(st, line, wl, w, n).stuck,
    decreases n,
{
    if n > i {
        lemma_line_wrap_stuck(st, line, wl, w, i, n - 1);
    }
}

proof fn lemma_lines_wrap_stuck(lines: Seq<Seq<Item>>, wss: Seq<Seq<Seq<i32>>>, w: nat, k: int, n: int)
    requires
        0 <= k <= n,
        plain_lines_wrap(lines, wss, w, k).stuck,
    ensures
        plain_lines_wrap(lines, wss, w, n).stuck,
    decreases n,
{
    if n > k {
        lemma_lines_wrap_stuck(lines, wss, w, k, n - 1);
        let st = plain_lines_wrap(lines, wss, w, n - 1);
        lemma_line_wrap_stuck(PlainWrapState { lines: st.lines.push(Seq::empty()), ..st }, lines[n - 1], wss[n - 1],
            w, 0, lines[n - 1].len() as int);
    }
}

/// Adds an item to the last line.
fn push_item_last(lines: &mut Vec<Vec<PlainTextItem>>, it: PlainTextItem)
    requires
        old(lines)@.len() > 0,
    ensures
        plain_lines_view(final(lines)@) == push_item(plain_lines_view(old(lines)@), it@),
        final(lines)@.len() == old(lines)@.len(),
{
    let ghost v = it@;
    let mut last = lines.pop().unwrap();
    let ghost l0 = last@;
    last.push(it);
    lines.push(last);
    proof {
        assert(items_view(last@) =~= items_view(l0).push(v));
        assert(plain_lines_view(lines@) =~= push_item(plain_lines_view(old(lines)@), v));
    }
}

/// Starts a new, empty line.
fn push_empty_line(lines: &mut Vec<Vec<PlainTextItem>>)
    ensures
        plain_lines_view(final(lines)@) == plain_lines_view(old(lines)@).push(Seq::empty()),
        final(lines)@.len() == old(lines)@.len() + 1,
{
    lines.push(Vec::new());
    proof {
        assert(items_view(Seq::<PlainTextItem>::empty()) =~= Seq::<Item>::empty());
        assert(plain_lines_view(lines@) =~= plain_lines_view(old(lines)@).push(Seq::empty()));
    }
}

/// The first `n` characters as a string.
fn chars_prefix(t: &[char], n: usize) -> (s: String)
    requires
        n <= t@.len(),
    ensures
        s@ == t@.take(n as int),
{
    let mut s = String::new();
    let mut i: usize = 0;
    while i < n
        invariant
            i <= n <= t@.len(),
            s@ == t@.take(i as int),
        decreases n - i,
    {
        push_char(&mut s, t[i]);
        assert(t@.take(i + 1) =~= t@.take(i as int).push(t@[i as int]));
        i += 1;
    }
    s
}

fn char_break_exec(ws: &[i32], i: usize, w: usize) -> (r: (usize, usize))
    requires
        i <= ws@.len(),
        valid_widths(ws@),
    ensures
        r.0 as int == char_break(ws@, i as int, 0, w as nat).0,
        r.1 as nat == char_break(ws@, i as int, 0, w as nat).1,
{
    let mut j = i;
    let mut acc: usize = 0;
    while j < ws.len()
        invariant
            i <= j <= ws@.len(),
            valid_widths(ws@),
            acc <= w,
            char_break(ws@, i as int, 0, w as nat) == char_break(ws@, j as int, acc as nat, w as nat),
        decreases ws.len() - j,
    {
        let x = ws[j];
        let v: usize = if x > 0 { x as usize } else { 0 };
        assert(v == visible(ws@[j as int]));
        if v > w - acc {
            return (j, acc);
        }
        acc = acc + v;
        j += 1;
    }
    (j, acc)
}

fn piece_end_exec(t: &[char], index: usize) -> (r: usize)
    requires
        index < t@.len(),
    ensures
        r == piece_end(t@, index as int),
        index < r <= t@.len(),
{
    proof {
        lemma_wrap_point_bounds(t@, index as int);
    }
    let n = t.len();
    let p = find_wrap_point(t, index);
    if p == index { index + 1 } else { p }
}

/// Wraps a text that does not fit what is left of the line; returns the
/// columns then used on the last line.
fn wrap_words(lines: &mut Vec<Vec<PlainTextItem>>, lw: usize, t: &[char], ws: &[i32], w: usize, Ghost(width): Ghost<nat>)
    -> (r: usize)
    requires
        old(lines)@.len() > 0,
        t@.len() == ws@.len(),
        valid_widths(ws@),
        1 <= w,
        lw <= w,
        !words_run(PlainWrapState { lines: plain_lines_view(old(lines)@), lw: lw as nat, width, stuck: false },
            t@, ws@, w as nat, 0).stuck,
    ensures
        ({
            let s = words_run(PlainWrapState { lines: plain_lines_view(old(lines)@), lw: lw as nat, width, stuck: false },
                t@, ws@, w as nat, 0);
            plain_lines_view(final(lines)@) == s.lines && r as nat == s.lw
        }),
        final(lines)@.len() > 0,
        r <= w,
{
    let ghost target = words_run(PlainWrapState { lines: plain_lines_view(lines@), lw: lw as nat, width, stuck: false },
        t@, ws@, w as nat, 0);
    let n = t.len();
    let mut index: usize = 0;
    let mut lw = lw;
    while index < n
        invariant
            n == t@.len(),
            t@.len() == ws@.len(),
            valid_widths(ws@),
            1 <= w,
            lw <= w,
            index <= n,
            lines@.len() > 0,
            !target.stuck,
            words_run(PlainWrapState { lines: plain_lines_view(lines@), lw: lw as nat, width, stuck: false },
                t@, ws@, w as nat, index as int) == target,
        decreases n - index, (if lw > 0 { 1int } else { 0int }),
    {
        let pe = piece_end_exec(t, index);
        let ww = range_width(ws, index, pe);
        if ww <= w - lw {
            lw = lw + ww;
            index = pe;
        } else if lw > 0 {
            if index > 0 {
                let s = chars_prefix(t, index);
                push_item_last(lines, PlainTextItem::Text { text: s, width: lw });
            }
            push_empty_line(lines);
            lw = 0;
        } else {
            let (j, acc) = char_break_exec(ws, index, w);
            proof {
                lemma_char_break_bounds(ws@, index as int, 0, w as nat);
            }
            let s = chars_prefix(t, j);
            push_item_last(lines, PlainTextItem::Text { text: s, width: acc });
            push_empty_line(lines);
            lw = 0;
            index = j;
        }
    }
    lw
}


/// The state of a wrapping in progress.
pub open spec fn wrap_state(lines: Seq<Vec<PlainTextItem>>, lw: usize, width: usize) -> PlainWrapState {
    PlainWrapState { lines: plain_lines_view(lines), lw: lw as nat, width: width as nat, stuck: false }
}

/// Wraps one line's items onto `lines`.
fn wrap_line(lines: &mut Vec<Vec<PlainTextItem>>, lw: &mut usize, width: &mut usize, line: &[PlainTextItem],
    wl: &[Vec<i32>], w: usize)
    requires
        old(lines)@.len() > 0,
        1 <= w,
        *old(lw) <= w,
        plain_line_widths_ok(items_view(line@), line_widths_v(wl@)),
        !plain_line_wrap(wrap_state(old(lines)@, *old(lw), *old(width)), items_view(line@), line_widths_v(wl@), w as nat,
            line@.len() as int).stuck,
    ensures
        wrap_state(final(lines)@, *final(lw), *final(width)) == plain_line_wrap(wrap_state(old(lines)@, *old(lw),
            *old(width)), items_view(line@), line_widths_v(wl@), w as nat, line@.len() as int),
        final(lines)@.len() > 0,
        *final(lw) <= w,
{
    let ghost start = wrap_state(lines@, *lw, *width);
    let ghost lv = items_view(line@);
    let ghost wv = line_widths_v(wl@);
    let mut c: usize = 0;
    while c < line.len()
        invariant
            c <= line@.len(),
            lines@.len() > 0,
            1 <= w,
            *lw <= w,
            lv == items_view(line@),
            wv == line_widths_v(wl@),
            plain_line_widths_ok(lv, wv),
            !plain_line_wrap(start, lv, wv, w as nat, line@.len() as int).stuck,
            wrap_state(lines@, *lw, *width) == plain_line_wrap(start, lv, wv, w as nat, c as int),
        decreases line.len() - c,
    {
        proof {
            if plain_line_wrap(start, lv, wv, w as nat, c + 1).stuck {
                lemma_line_wrap_stuck(start, lv, wv, w as nat, c + 1, line@.len() as int);
            }
            assert(lv[c as int] == line@[c as int]@);
            assert(wv[c as int] == wl@[c as int]@);
            assert(item_widths_ok(lv[c as int], wv[c as int]));
        }
        let ghost cur = wrap_state(lines@, *lw, *width);
        match &line[c] {
            PlainTextItem::Newline => {
                push_item_last(lines, PlainTextItem::Newline);
            },
            PlainTextItem::Special(ch) => {
                if *lw >= w {
                    if *lw > *width {
                        *width = *lw;
                    }
                    *lw = 0;
                    push_empty_line(lines);
                }
                push_item_last(lines, PlainTextItem::Special(*ch));
                *lw = *lw + 1;
            },
            PlainTextItem::Text { text, width: tw } => {
                if *tw <= w - *lw {
                    push_item_last(lines, PlainTextItem::Text { text: text.clone(), width: *tw });
                    *lw = *lw + *tw;
                } else {
                    let t = to_chars(text.as_str());
                    let nlw = wrap_words(lines, *lw, t.as_slice(), wl[c].as_slice(), w, Ghost(*width as nat));
                    proof {
                        lemma_words_lw(cur, t@, wv[c as int], w as nat, 0);
                    }
                    *lw = nlw;
                }
            },
        }
        c += 1;
    }
}

impl PlainText {
    /// The text wrapped to `wrap_width` columns (at least one); see
    /// [`plain_wrap_spec`].  `widths` gives the widths of the characters of
    /// each text item.
    pub fn wrap(&self, wrap_width: usize, widths: &[Vec<Vec<i32>>]) -> (r: PlainText)
        requires
            self.width > wrap_columns(wrap_width as nat) ==> plain_widths_ok(self.lines_v(), block_widths_v(widths@)),
            plain_wrap_ends(self.lines_v(), block_widths_v(widths@), self.width as nat, wrap_width as nat),
        ensures
            (r.lines_v(), r.width as nat) == plain_wrap_spec(self.lines_v(), block_widths_v(widths@),
                self.width as nat, wrap_width as nat),
    {
        let w = if wrap_width < 1 { 1 } else { wrap_width };
        let ghost lv = self.lines_v();
        let ghost wss = block_widths_v(widths@);
        if self.width <= w {
            let mut copy: Vec<Vec<PlainTextItem>> = Vec::new();
            let mut l: usize = 0;
            while l < self.lines.len()
                invariant
                    l <= self.lines@.len(),
                    lv == self.lines_v(),
                    plain_lines_view(copy@) == lv.take(l as int),
                decreases self.lines.len() - l,
            {
                let line = copy_line(self.lines[l].as_slice());
                let ghost c0 = copy@;
                let ghost lvl = items_view(line@);
                assert(lvl == lv[l as int]);
                copy.push(line);
                assert(plain_lines_view(copy@) =~= plain_lines_view(c0).push(lvl));
                assert(plain_lines_view(copy@) =~= lv.take(l + 1));
                l += 1;
            }
            assert(lv.take(l as int) =~= lv);
            return PlainText { lines: copy, width: self.width };
        }
        let mut lines: Vec<Vec<PlainTextItem>> = Vec::new();
        let mut lw: usize = 0;
        let mut width: usize = 0;
        let mut l: usize = 0;
        proof {
            assert(plain_lines_view(lines@) =~= Seq::<Seq<Item>>::empty());
        }
        while l < self.lines.len()
            invariant
                l <= self.lines@.len(),
                lv == self.lines_v(),
                wss == block_widths_v(widths@),
                plain_widths_ok(lv, wss),
                1 <= w,
                w == wrap_columns(wrap_width as nat),
                lw <= w,
                !plain_lines_wrap(lv, wss, w as nat, lv.len() as int).stuck,
                wrap_state(lines@, lw, width) == plain_lines_wrap(lv, wss, w as nat, l as int),
            decreases self.lines.len() - l,
        {
            proof {
                if plain_lines_wrap(lv, wss, w as nat, l + 1).stuck {
                    lemma_lines_wrap_stuck(lv, wss, w as nat, l + 1, lv.len() as int);
                }
                assert(plain_line_widths_ok(lv[l as int], wss[l as int]));
                assert(lv[l as int] == items_view(self.lines@[l as int]@));
                assert(wss[l as int] == line_widths_v(widths@[l as int]@));
            }
            push_empty_line(&mut lines);
            wrap_line(&mut lines, &mut lw, &mut width, self.lines[l].as_slice(), widths[l].as_slice(), w);
            l += 1;
        }
        PlainText { lines, width }
    }

    /// The text wrapped to `wrap_width` columns (see [`PlainText::wrap`])
    /// where the wrapping is sure to end: the text fits, or no character is
    /// wider than a line.  `None` where the text is wider and a character
    /// is wider than a line too, which wrapping could never place.
    pub fn wrap_when_it_ends(&self, wrap_width: usize, widths: &[Vec<Vec<i32>>]) -> (r: Option<PlainText>)
        requires
            self.width > wrap_columns(wrap_width as nat) ==> plain_widths_ok(self.lines_v(), block_widths_v(widths@)),
        ensures
            r is None <==> self.width > wrap_columns(wrap_width as nat)
                && !chars_fit(block_widths_v(widths@), wrap_columns(wrap_width as nat)),
            r matches Some(p) ==> (p.lines_v(), p.width as nat) == plain_wrap_spec(self.lines_v(),
                block_widths_v(widths@), self.width as nat, wrap_width as nat),
    {
        let w = if wrap_width < 1 { 1 } else { wrap_width };
        if self.width > w && !widths_fit(widths, w) {
            return None;
        }
        proof {
            if self.width > w {
                plain_wrap_ends_when_chars_fit(self.lines_v(), block_widths_v(widths@), w as nat,
                    self.lines_v().len() as int);
            }
        }
        Some(self.wrap(wrap_width, widths))
    }
}

/// Whether no character of `widths` takes more than `w` columns; see
/// [`chars_fit`].
pub fn widths_fit(widths: &[Vec<Vec<i32>>], w: usize) -> (r: bool)
    ensures
        r == chars_fit(block_widths_v(widths@), w as nat),
{
    let ghost wss = block_widths_v(widths@);
    let mut l: usize = 0;
    while l < widths.len()
        invariant
            l <= widths@.len(),
            wss == block_widths_v(widths@),
            forall|l2: int, c: int, j: int| 0 <= l2 < l && 0 <= c < wss[l2].len() && 0 <= j < wss[l2][c].len()
                ==> visible(#[trigger] wss[l2][c][j]) <= w,
        decreases widths.len() - l,
    {
        let line = &widths[l];
        let mut c: usize = 0;
        while c < line.len()
            invariant
                l < widths@.len(),
                wss.len() == widths@.len(),
                c <= line@.len(),
                wss[l as int].len() == line@.len(),
                *line == widths@[l as int],
                wss == block_widths_v(widths@),
                wss[l as int] == line_widths_v(line@),
                forall|l2: int, c2: int, j: int| 0 <= l2 < l && 0 <= c2 < wss[l2].len() && 0 <= j < wss[l2][c2].len()
                    ==> visible(#[trigger] wss[l2][c2][j]) <= w,
                forall|c2: int, j: int| 0 <= c2 < c && 0 <= j < wss[l as int][c2].len()
                    ==> visible(#[trigger] wss[l as int][c2][j]) <= w,
            decreases line.len() - c,
        {
            let run = &line[c];
            assert(wss[l as int][c as int] == run@);
            let mut j: usize = 0;
            while j < run.len()
                invariant
                    j <= run@.len(),
                    wss == block_widths_v(widths@),
                    0 <= l < wss.len(),
                    0 <= c < wss[l as int].len(),
                    wss[l as int][c as int] == run@,
                    forall|j2: int| 0 <= j2 < j ==> visible(#[trigger] run@[j2]) <= w,
                decreases run.len() - j,
            {
                let x = run[j];
                if x > 0 && x as usize > w {
                    assert(run@[j as int] == x);
                    assert(visible(wss[l as int][c as int][j as int]) > w);
                    assert(!chars_fit(wss, w as nat));
                    return false;
                }
                j += 1;
            }
            c += 1;
        }
        l += 1;
    }
    true
}


/// Text no wider than the wrapping width (at least one column) comes back
/// as it is, width included.
pub proof fn wrap_keeps_narrow_text(lines: Seq<Seq<Item>>, wss: Seq<Seq<Seq<i32>>>, width: nat, wrap_width: nat)
    requires
        width <= wrap_columns(wrap_width),
    ensures
        plain_wrap_spec(lines, wss, width, wrap_width) == (lines, width),
{
}

} // verus!
