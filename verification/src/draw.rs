use vstd::prelude::*;
use crate::color::Color;
use crate::style::{FontWeight, FontStyle, TextDecoration, TermIOState};
use crate::char_width::{crop_range, crop_columns, valid_widths};
use crate::styles::{even_row_background, odd_row_background, selected_even_row_background, selected_odd_row_background};
use crate::rich_text::{codes_sgr, diff_codes, default_style, control_style, control_symbol, Code, RichTextCode, RichText,
    line_view, lines_view, line_width_spec, code_width, lemma_line_width_push};
use crate::plain_text::{Item, PlainTextItem, PlainText, items_view, plain_lines_view, items_width, lemma_items_width_push,
    lemma_items_width_concat};

verus! {

/// Size of the terminal window in character cells.
#[derive(Debug, Clone, Copy, PartialEq, Eq, Hash, Structural)]
pub struct WindowSize {
    pub rows: u32,
    pub columns: u32,
}

/// One terminal operation of a drawing: a style change, text, raw escape
/// bytes, a cursor move or a repetition of the last character; `Scoped`
/// changes a default of the terminal until the matching `EndScope` puts
/// the previous one back; `Inverted` turns inverse video on or off.
#[derive(Debug, PartialEq, Eq)]
pub enum DrawOp {
    ClearStyle,
    FgDefault,
    BgDefault,
    FontWeight(FontWeight),
    FontStyle(FontStyle),
    TextDecoration(TextDecoration),
    Fg(Color),
    Bg(Color),
    Text(String),
    Raw(Vec<u8>),
    MoveCursor { row: u32, column: u32 },
    Repeat(u32),
    Scoped(TermIOState),
    EndScope,
    Inverted(bool),
}

/// What a [`DrawOp`] holds, with text as characters.
pub ghost enum Op {
    ClearStyle,
    FgDefault,
    BgDefault,
    FontWeight(FontWeight),
    FontStyle(FontStyle),
    TextDecoration(TextDecoration),
    Fg(Color),
    Bg(Color),
    Text(Seq<char>),
    Raw(Seq<u8>),
    MoveCursor { row: nat, column: nat },
    Repeat(nat),
    Scoped(TermIOState),
    EndScope,
    Inverted(bool),
}

impl View for DrawOp {
    type V = Op;

    open spec fn view(&self) -> Op {
        match self {
            DrawOp::ClearStyle => Op::ClearStyle,
            DrawOp::FgDefault => Op::FgDefault,
            DrawOp::BgDefault => Op::BgDefault,
            DrawOp::FontWeight(w) => Op::FontWeight(*w),
            DrawOp::FontStyle(s) => Op::FontStyle(*s),
            DrawOp::TextDecoration(d) => Op::TextDecoration(*d),
            DrawOp::Fg(c) => Op::Fg(*c),
            DrawOp::Bg(c) => Op::Bg(*c),
            DrawOp::Text(t) => Op::Text(t@),
            DrawOp::Raw(b) => Op::Raw(b@),
            DrawOp::MoveCursor { row, column } => Op::MoveCursor { row: *row as nat, column: *column as nat },
            DrawOp::Repeat(n) => Op::Repeat(*n as nat),
            DrawOp::Scoped(t) => Op::Scoped(*t),
            DrawOp::EndScope => Op::EndScope,
            DrawOp::Inverted(b) => Op::Inverted(*b),
        }
    }
}

/// The operations of a list, as values.
pub open spec fn ops_view(ops: Seq<DrawOp>) -> Seq<Op> {
    ops.map_values(|o: DrawOp| o@)
}

/// Appends `op` to `ops`.
pub fn push_op(ops: &mut Vec<DrawOp>, op: DrawOp)
    ensures
        ops_view(final(ops)@) == ops_view(old(ops)@).push(op@),
{
    let ghost v = op@;
    ops.push(op);
    assert(ops_view(ops@) =~= ops_view(old(ops)@).push(v));
}

/// The part of a text block that a drawing shows: the rows
/// `crop_row..crop_row_end` of the block and, within each, the columns
/// `crop_column..crop_column_end`; lines are blanked up to
/// `full_column_end`, and the first shown row lands at `term_row`,
/// `term_column` of the terminal.
pub ghost struct RegionV {
    pub crop_row: int,
    pub crop_row_end: int,
    pub crop_column: int,
    pub crop_column_end: int,
    pub full_column_end: int,
    pub term_row: int,
    pub term_column: int,
}

pub open spec fn min_int(a: int, b: int) -> int {
    if a < b { a } else { b }
}

/// Rows to draw, with their place on the terminal: `None` where nothing is
/// drawn, else the first row, the end row and the terminal row.
pub open spec fn row_span(rows: int, row: int, cr: int, cre: int) -> Option<(int, int, int)> {
    if row < 0 {
        if cre < -row {
            None
        } else {
            Some((cr - row, min_int(cre, rows - row), 0))
        }
    } else if row > rows {
        None
    } else if row + (cre - cr) > rows {
        Some((cr, rows + cr - row, row))
    } else {
        Some((cr, cre, row))
    }
}

/// The region that a block of `height` lines (and of `width` columns, where
/// the block clips its columns) shows when its cropped part
/// `crop_row.., crop_column..` of `crop_height` by `crop_width` cells is drawn
/// at `row`, `column` of a terminal of the given size; `None` where nothing
/// is drawn.
pub open spec fn region_spec(
    height: int,
    width: Option<int>,
    rows: int,
    columns: int,
    row: int,
    column: int,
    crop_row: int,
    crop_column: int,
    crop_width: int,
    crop_height: int,
) -> Option<RegionV> {
    let cre = min_int(crop_row + crop_height, height);
    let cce = match width {
        Some(w) => min_int(crop_column + crop_width, w),
        None => crop_column + crop_width,
    };
    let full = min_int(crop_column + crop_width, columns);
    if crop_row >= cre || crop_column >= cce {
        None
    } else {
        match (row_span(rows, row, crop_row, cre), row_span(columns, column, crop_column, cce)) {
            (Some(rs), Some(cs)) => Some(RegionV {
                crop_row: rs.0,
                crop_row_end: rs.1,
                crop_column: cs.0,
                crop_column_end: cs.1,
                full_column_end: full,
                term_row: rs.2,
                term_column: cs.2,
            }),
            _ => None,
        }
    }
}

/// Whether a region is one that can be drawn: its rows form a range.
pub open spec fn region_ok(r: Option<RegionV>) -> bool {
    match r {
        Some(g) => g.crop_row <= g.crop_row_end,
        None => true,
    }
}

/// The region of a drawing, in machine integers.
#[derive(Debug, Clone, Copy)]
pub struct Region {
    pub crop_row: usize,
    pub crop_row_end: usize,
    pub crop_column: u64,
    pub crop_column_end: u64,
    pub full_column_end: u64,
    pub term_row: u32,
    pub term_column: u32,
}

impl View for Region {
    type V = RegionV;

    open spec fn view(&self) -> RegionV {
        RegionV {
            crop_row: self.crop_row as int,
            crop_row_end: self.crop_row_end as int,
            crop_column: self.crop_column as int,
            crop_column_end: self.crop_column_end as int,
            full_column_end: self.full_column_end as int,
            term_row: self.term_row as int,
            term_column: self.term_column as int,
        }
    }
}

/// The region of [`region_spec`] for a block of `height` lines; `width` is
/// `Some` where the block clips its columns.
pub fn crop_region(
    height: usize,
    width: Option<usize>,
    window: WindowSize,
    row: i32,
    column: i32,
    crop_row: u32,
    crop_column: u32,
    crop_width: u32,
    crop_height: u32,
) -> (r: Option<Region>)
    requires
        region_spec(
            height as int,
            match width { Some(w) => Some(w as int), None => None },
            window.rows as int,
            window.columns as int,
            row as int,
            column as int,
            crop_row as int,
            crop_column as int,
            crop_width as int,
            crop_height as int,
        ) is Some ==> row > i32::MIN && column > i32::MIN,
        region_ok(region_spec(
            height as int,
            match width { Some(w) => Some(w as int), None => None },
            window.rows as int,
            window.columns as int,
            row as int,
            column as int,
            crop_row as int,
            crop_column as int,
            crop_width as int,
            crop_height as int,
        )),
    ensures
        match r {
            Some(g) => region_spec(
                height as int,
                match width { Some(w) => Some(w as int), None => None },
                window.rows as int,
                window.columns as int,
                row as int,
                column as int,
                crop_row as int,
                crop_column as int,
                crop_width as int,
                crop_height as int,
            ) == Some(g@),
            None => region_spec(
                height as int,
                match width { Some(w) => Some(w as int), None => None },
                window.rows as int,
                window.columns as int,
                row as int,
                column as int,
                crop_row as int,
                crop_column as int,
                crop_width as int,
                crop_height as int,
            ) is None,
        },
        match r {
            Some(g) => g.crop_row <= g.crop_row_end <= height
                && g.term_row + (g.crop_row_end - g.crop_row) <= window.rows
                && g.full_column_end <= window.columns,
            None => true,
        },
{
    let rows = window.rows as u64;
    let columns = window.columns as u64;
    let cr = crop_row as u64;
    let cc = crop_column as u64;
    let mut cre = cr + crop_height as u64;
    if cre > height as u64 {
        cre = height as u64;
    }
    let mut cce = cc + crop_width as u64;
    match width {
        Some(w) => {
            if cce > w as u64 {
                cce = w as u64;
            }
        },
        None => {},
    }
    let mut full = cc + crop_width as u64;
    if full > columns {
        full = columns;
    }
    if cr >= cre || cc >= cce {
        return None;
    }
    let (r0, r1, tr): (u64, u64, u64) = if row < 0 {
        let back = (-(row as i64)) as u64;
        if cre < back {
            return None;
        }
        let m = if cre < rows + back { cre } else { rows + back };
        (cr + back, m, 0)
    } else {
        let rw = row as u64;
        if rw > rows {
            return None;
        }
        if rw + (cre - cr) > rows {
            (cr, rows + cr - rw, rw)
        } else {
            (cr, cre, rw)
        }
    };
    let (c0, c1, tc): (u64, u64, u64) = if column < 0 {
        let back = (-(column as i64)) as u64;
        if cce < back {
            return None;
        }
        let m = if cce < columns + back { cce } else { columns + back };
        (cc + back, m, 0)
    } else {
        let cw = column as u64;
        if cw > columns {
            return None;
        }
        if cw + (cce - cc) > columns {
            (cc, columns + cc - cw, cw)
        } else {
            (cc, cce, cw)
        }
    };
    Some(Region {
        crop_row: r0 as usize,
        crop_row_end: r1 as usize,
        crop_column: c0,
        crop_column_end: c1,
        full_column_end: full,
        term_row: tr as u32,
        term_column: tc as u32,
    })
}

/// Operations so far, whether no line has been placed yet, and the index of
/// the last line placed.
pub ghost struct DrawState {
    pub ops: Seq<Op>,
    pub first: bool,
    pub prev: int,
}

/// State within a line: whether the cursor has been placed on it, and the
/// columns of the line passed so far.
pub ghost struct LineState {
    pub ds: DrawState,
    pub moved: bool,
    pub lw: int,
}

/// Places the cursor on line `li` of the region: a newline where the line
/// directly follows the last one placed at the left edge of the terminal,
/// else a cursor move.
pub open spec fn approach(ds: DrawState, li: int, g: RegionV) -> DrawState {
    if !ds.first && g.term_column == 0 && ds.prev + 1 == li {
        DrawState { ops: ds.ops.push(Op::Text(seq!['\n'])), first: false, prev: li }
    } else {
        DrawState {
            ops: ds.ops.push(Op::MoveCursor { row: (g.term_row + li) as nat, column: g.term_column as nat }),
            first: false,
            prev: li,
        }
    }
}

/// Places the cursor on line `li` unless it is there already.
pub open spec fn ensure_moved(ls: LineState, li: int, g: RegionV) -> LineState {
    if ls.moved {
        ls
    } else {
        LineState { ds: approach(ls.ds, li, g), moved: true, lw: ls.lw }
    }
}

/// A text run of `width` columns, whose characters have the widths `ws`:
/// written whole where it lies inside the shown columns, cropped where it
/// overlaps them, skipped otherwise.
pub open spec fn text_piece(ls: LineState, li: int, g: RegionV, text: Seq<char>, width: int, ws: Seq<i32>) -> LineState {
    let lw = ls.lw;
    if lw >= g.crop_column && lw + width <= g.crop_column_end {
        let m = ensure_moved(ls, li, g);
        LineState { ds: DrawState { ops: m.ds.ops.push(Op::Text(text)), ..m.ds }, moved: true, lw: lw + width }
    } else if lw + width >= g.crop_column && lw < g.crop_column_end {
        let m = ensure_moved(ls, li, g);
        let tc = if lw >= g.crop_column { 0 } else { g.crop_column - lw };
        let tce = g.crop_column_end - lw;
        let range = crop_range(ws, tc as nat, tce as nat);
        let ops = if tc < tce { m.ds.ops.push(Op::Text(text.subrange(range.0, range.1))) } else { m.ds.ops };
        LineState { ds: DrawState { ops: ops, ..m.ds }, moved: true, lw: lw + width }
    } else {
        LineState { lw: lw + width, ..ls }
    }
}

/// Blanks the rest of line `li` up to the end column of the region.
pub open spec fn fill(ls: LineState, li: int, g: RegionV) -> DrawState {
    if ls.lw < g.full_column_end {
        let ds = if ls.moved { ls.ds } else { approach(ls.ds, li, g) };
        DrawState {
            ops: ds.ops + seq![Op::Text(seq![' ']), Op::Repeat((g.full_column_end - ls.lw - 1) as nat)],
            ..ds
        }
    } else {
        ls.ds
    }
}

/// The operations that show a control character: its symbol in the
/// control style.
pub open spec fn special_ops(c: char) -> Seq<Op> {
    seq![
        Op::Raw(codes_sgr(diff_codes(default_style(), control_style()))),
        Op::Text(seq![control_symbol(c)]),
        Op::Raw(codes_sgr(diff_codes(control_style(), default_style()))),
    ]
}

/// A control character, one column wide. Where `counted_first` holds the
/// column is counted before the test whether it is shown.
pub open spec fn special_piece(ls: LineState, g: RegionV, c: char, counted_first: bool) -> LineState {
    let shown = if counted_first {
        ls.lw + 1 >= g.crop_column && ls.lw + 1 < g.crop_column_end
    } else {
        ls.lw >= g.crop_column && ls.lw + 1 < g.crop_column_end
    };
    LineState {
        ds: if shown { DrawState { ops: ls.ds.ops + special_ops(c), ..ls.ds } } else { ls.ds },
        moved: ls.moved,
        lw: ls.lw + 1,
    }
}

/// The state at the start of a drawing.
pub open spec fn start_state(ops: Seq<Op>) -> DrawState {
    DrawState { ops: ops, first: true, prev: 0 }
}

/// The state at the start of a line.
pub open spec fn line_start(ds: DrawState) -> LineState {
    LineState { ds: ds, moved: false, lw: 0 }
}

/// A pen that writes the operations of a drawing.
pub struct Pen {
    pub ops: Vec<DrawOp>,
    pub first: bool,
    pub prev: usize,
    pub moved: bool,
    pub lw: u64,
}

impl Pen {
    pub open spec fn line_state(&self) -> LineState {
        LineState {
            ds: DrawState { ops: ops_view(self.ops@), first: self.first, prev: self.prev as int },
            moved: self.moved,
            lw: self.lw as int,
        }
    }

    /// A pen that continues after `ops`.
    pub fn new(ops: Vec<DrawOp>) -> (p: Pen)
        ensures
            p.line_state() == line_start(start_state(ops_view(ops@))),
    {
        Pen { ops, first: true, prev: 0, moved: false, lw: 0 }
    }

    pub fn approach(&mut self, li: usize, g: &Region)
        requires
            g.term_row + li <= u32::MAX,
        ensures
            final(self).line_state() == (LineState { ds: approach(old(self).line_state().ds, li as int, g@), ..old(self).line_state() }),
    {
        if !self.first && g.term_column == 0 && self.prev < li && self.prev + 1 == li {
            let mut s = String::new();
            crate::text::push_char(&mut s, '\n');
            proof { assert(s@ =~= seq!['\n']); }
            push_op(&mut self.ops, DrawOp::Text(s));
        } else {
            self.first = false;
            push_op(&mut self.ops, DrawOp::MoveCursor { row: g.term_row + li as u32, column: g.term_column });
        }
        self.first = false;
        self.prev = li;
    }

    pub fn ensure_moved(&mut self, li: usize, g: &Region)
        requires
            g.term_row + li <= u32::MAX,
        ensures
            final(self).line_state() == ensure_moved(old(self).line_state(), li as int, g@),
    {
        if !self.moved {
            self.approach(li, g);
            self.moved = true;
        }
    }

    /// Writes a text run, as [`text_piece`] says.
    pub fn text_piece(&mut self, li: usize, g: &Region, text: &str, width: usize, widths: &[i32])
        requires
            g.term_row + li <= u32::MAX,
            old(self).lw + width <= u64::MAX,
            widths@.len() == text@.len(),
            valid_widths(widths@),
        ensures
            final(self).line_state() == text_piece(old(self).line_state(), li as int, g@, text@, width as int, widths@),
    {
        let lw = self.lw;
        let w = width as u64;
        if lw >= g.crop_column && lw + w <= g.crop_column_end {
            self.ensure_moved(li, g);
            push_op(&mut self.ops, DrawOp::Text(text.to_owned()));
        } else if lw + w >= g.crop_column && lw < g.crop_column_end {
            self.ensure_moved(li, g);
            let tc: u64 = if lw >= g.crop_column { 0 } else { g.crop_column - lw };
            let tce: u64 = g.crop_column_end - lw;
            if tc < tce {
                let part = crop_columns(text, widths, tc, tce);
                push_op(&mut self.ops, DrawOp::Text(part.to_owned()));
            }
        }
        self.lw = lw + w;
    }

    /// Writes a control character, as [`special_piece`] says.
    pub fn special_piece(&mut self, g: &Region, c: char, counted_first: bool)
        requires
            old(self).lw < u64::MAX,
            crate::text::spec_is_ascii_control(c),
        ensures
            final(self).line_state() == special_piece(old(self).line_state(), g@, c, counted_first),
    {
        let lw = self.lw;
        let shown = if counted_first {
            lw + 1 >= g.crop_column && lw + 1 < g.crop_column_end
        } else {
            lw >= g.crop_column && lw + 1 < g.crop_column_end
        };
        if shown {
            let ghost before = ops_view(self.ops@);
            let d = crate::rich_text::default_style_value();
            let k = crate::rich_text::control_style_value();
            push_op(&mut self.ops, DrawOp::Raw(d.write_diff(&k)));
            let mut s = String::new();
            crate::text::push_char(&mut s, crate::plain_text::plain_symbol(c));
            proof { assert(s@ =~= seq![control_symbol(c)]); }
            push_op(&mut self.ops, DrawOp::Text(s));
            push_op(&mut self.ops, DrawOp::Raw(k.write_diff(&d)));
            assert(ops_view(self.ops@) =~= before + special_ops(c));
        }
        self.lw = lw + 1;
    }

    /// Blanks the rest of line `li` and makes the pen ready for the next
    /// line.
    pub fn fill(&mut self, li: usize, g: &Region)
        requires
            g.term_row + li <= u32::MAX,
            g.full_column_end <= u32::MAX,
        ensures
            final(self).line_state() == line_start(fill(old(self).line_state(), li as int, g@)),
    {
        if self.lw < g.full_column_end {
            if !self.moved {
                self.approach(li, g);
            }
            let ghost before = ops_view(self.ops@);
            let mut s = String::new();
            crate::text::push_char(&mut s, ' ');
            proof { assert(s@ =~= seq![' ']); }
            push_op(&mut self.ops, DrawOp::Text(s));
            push_op(&mut self.ops, DrawOp::Repeat((g.full_column_end - self.lw - 1) as u32));
            assert(ops_view(self.ops@) =~= before + seq![Op::Text(seq![' ']), Op::Repeat((g@.full_column_end - old(self).lw - 1) as nat)]);
        }
        self.moved = false;
        self.lw = 0;
    }
}

/// The character widths of the runs of a line, as values.
pub open spec fn line_widths_v(wl: Seq<Vec<i32>>) -> Seq<Seq<i32>> {
    wl.map_values(|w: Vec<i32>| w@)
}

/// The character widths of the runs of the lines of a block, as values.
pub open spec fn block_widths_v(wss: Seq<Vec<Vec<i32>>>) -> Seq<Seq<Seq<i32>>> {
    wss.map_values(|l: Vec<Vec<i32>>| line_widths_v(l@))
}

/// `ws` gives the width of each character of the code, where it is text.
pub open spec fn code_widths_ok(c: Code, ws: Seq<i32>) -> bool {
    match c {
        Code::Text { text, .. } => ws.len() == text.len() && valid_widths(ws),
        _ => true,
    }
}

pub open spec fn rich_line_widths_ok(line: Seq<Code>, wl: Seq<Seq<i32>>) -> bool {
    &&& wl.len() == line.len()
    &&& forall|c: int| 0 <= c < line.len() ==> #[trigger] code_widths_ok(line[c], wl[c])
}

/// `wss` gives the character widths of every text run of `lines`.
pub open spec fn rich_widths_ok(lines: Seq<Seq<Code>>, wss: Seq<Seq<Seq<i32>>>) -> bool {
    &&& wss.len() == lines.len()
    &&& forall|l: int| 0 <= l < lines.len() ==> #[trigger] rich_line_widths_ok(lines[l], wss[l])
}

/// Every line is narrower than 2^64 columns.
pub open spec fn rich_lines_fit(lines: Seq<Seq<Code>>) -> bool {
    forall|l: int| 0 <= l < lines.len() ==> #[trigger] line_width_spec(lines[l]) <= u64::MAX
}

pub open spec fn with_op(ls: LineState, o: Op) -> LineState {
    LineState { ds: DrawState { ops: ls.ds.ops.push(o), ..ls.ds }, ..ls }
}

/// One code of a rich line: style changes are passed on, text runs are
/// drawn as [`text_piece`] says.
pub open spec fn rich_code_step(ls: LineState, c: Code, ws: Seq<i32>, li: int, g: RegionV) -> LineState {
    match c {
        Code::FontWeight(w) => with_op(ls, Op::FontWeight(w)),
        Code::TextDecoration(d) => with_op(ls, Op::TextDecoration(d)),
        Code::FontStyle(s) => with_op(ls, Op::FontStyle(s)),
        Code::Foreground(k) => with_op(ls, Op::Fg(k)),
        Code::Background(k) => with_op(ls, Op::Bg(k)),
        Code::Text { text, width } => text_piece(ls, li, g, text, width as int, ws),
    }
}

/// The first `n` codes of line `li` of the region.
pub open spec fn rich_line_run(line: Seq<Code>, wl: Seq<Seq<i32>>, n: int, ls: LineState, li: int, g: RegionV) -> LineState
    decreases n,
{
    if n <= 0 {
        ls
    } else {
        rich_code_step(rich_line_run(line, wl, n - 1, ls, li, g), line[n - 1], wl[n - 1], li, g)
    }
}

/// The first `k` lines of the region, each ended by [`fill`].
pub open spec fn rich_lines_run(lines: Seq<Seq<Code>>, wss: Seq<Seq<Seq<i32>>>, k: int, ds: DrawState, g: RegionV) -> DrawState
    decreases k,
{
    if k <= 0 {
        ds
    } else {
        let d = rich_lines_run(lines, wss, k - 1, ds, g);
        let line = lines[g.crop_row + k - 1];
        fill(rich_line_run(line, wss[g.crop_row + k - 1], line.len() as int, line_start(d), k - 1, g), k - 1, g)
    }
}

/// The drawing of a rich text: the style is reset, then the lines of the
/// region are drawn; nothing where the region is empty.
pub open spec fn rich_draw_spec(
    lines: Seq<Seq<Code>>,
    wss: Seq<Seq<Seq<i32>>>,
    width: int,
    window: WindowSize,
    row: int,
    column: int,
    crop_row: int,
    crop_column: int,
    crop_width: int,
    crop_height: int,
) -> Seq<Op> {
    match region_spec(lines.len() as int, Some(width), window.rows as int, window.columns as int,
        row, column, crop_row, crop_column, crop_width, crop_height) {
        None => seq![],
        Some(g) => rich_lines_run(lines, wss, g.crop_row_end - g.crop_row,
            start_state(seq![Op::ClearStyle, Op::FgDefault, Op::BgDefault]), g).ops,
    }
}

/// Draws one line of a rich text.
fn draw_rich_line(pen: &mut Pen, line: &[RichTextCode], wl: &[Vec<i32>], li: usize, g: &Region)
    requires
        rich_line_widths_ok(line_view(line@), line_widths_v(wl@)),
        line_width_spec(line_view(line@)) <= u64::MAX,
        g.term_row + li <= u32::MAX,
        old(pen).lw == 0,
    ensures
        final(pen).line_state() == rich_line_run(line_view(line@), line_widths_v(wl@), line@.len() as int, old(pen).line_state(), li as int, g@),
{
    let ghost lv = line_view(line@);
    let ghost wv = line_widths_v(wl@);
    let ghost ls0 = pen.line_state();
    let mut i: usize = 0;
    while i < line.len()
        invariant
            i <= line@.len(),
            lv == line_view(line@),
            wv == line_widths_v(wl@),
            rich_line_widths_ok(lv, wv),
            line_width_spec(lv) <= u64::MAX,
            g.term_row + li <= u32::MAX,
            pen.line_state() == rich_line_run(lv, wv, i as int, ls0, li as int, g@),
            pen.lw == line_width_spec(lv.take(i as int)),
        decreases line.len() - i,
    {
        proof {
            assert(lv.take(i + 1) =~= lv.take(i as int).push(lv[i as int]));
            lemma_line_width_push(lv.take(i as int), lv[i as int]);
            assert(lv =~= lv.take(i + 1) + lv.skip(i + 1));
            crate::rich_text::lemma_line_width_concat(lv.take(i + 1), lv.skip(i + 1));
            assert(code_widths_ok(lv[i as int], wv[i as int]));
        }
        match &line[i] {
            RichTextCode::FontWeight(w) => push_op(&mut pen.ops, DrawOp::FontWeight(*w)),
            RichTextCode::TextDecoration(d) => push_op(&mut pen.ops, DrawOp::TextDecoration(*d)),
            RichTextCode::FontStyle(s) => push_op(&mut pen.ops, DrawOp::FontStyle(*s)),
            RichTextCode::Foreground(k) => push_op(&mut pen.ops, DrawOp::Fg(*k)),
            RichTextCode::Background(k) => push_op(&mut pen.ops, DrawOp::Bg(*k)),
            RichTextCode::Text { text, width } => {
                pen.text_piece(li, g, text.as_str(), *width, wl[i].as_slice());
            },
        }
        i += 1;
    }
    assert(lv.take(i as int) =~= lv);
}

/// Draws the lines of the region of a rich text.
fn draw_rich_lines(pen: &mut Pen, lines: &[Vec<RichTextCode>], widths: &[Vec<Vec<i32>>], g: &Region)
    requires
        g.crop_row <= g.crop_row_end <= lines@.len(),
        g.term_row + (g.crop_row_end - g.crop_row) <= u32::MAX,
        g.full_column_end <= u32::MAX,
        rich_widths_ok(lines_view(lines@), block_widths_v(widths@)),
        rich_lines_fit(lines_view(lines@)),
        old(pen).line_state() == line_start(old(pen).line_state().ds),
    ensures
        final(pen).line_state() == line_start(rich_lines_run(lines_view(lines@), block_widths_v(widths@),
            g.crop_row_end - g.crop_row, old(pen).line_state().ds, g@)),
{
    let ghost lv = lines_view(lines@);
    let ghost wv = block_widths_v(widths@);
    let ghost ds0 = pen.line_state().ds;
    let count = g.crop_row_end - g.crop_row;
    let mut k: usize = 0;
    while k < count
        invariant
            k <= count,
            count == g.crop_row_end - g.crop_row,
            g.crop_row <= g.crop_row_end <= lines@.len(),
            g.term_row + (g.crop_row_end - g.crop_row) <= u32::MAX,
            g.full_column_end <= u32::MAX,
            lv == lines_view(lines@),
            wv == block_widths_v(widths@),
            rich_widths_ok(lv, wv),
            rich_lines_fit(lv),
            pen.line_state() == line_start(rich_lines_run(lv, wv, k as int, ds0, g@)),
        decreases count - k,
    {
        let l = g.crop_row + k;
        proof {
            assert(rich_line_widths_ok(lv[l as int], wv[l as int]));
            assert(line_width_spec(lv[l as int]) <= u64::MAX);
            assert(lv[l as int] == line_view(lines@[l as int]@));
            assert(wv[l as int] == line_widths_v(widths@[l as int]@));
        }
        draw_rich_line(pen, lines[l].as_slice(), widths[l].as_slice(), k, g);
        pen.fill(k, g);
        k += 1;
    }
}

impl RichText {
    /// The operations that draw the part `crop_row.., crop_column..` of
    /// `crop_height` by `crop_width` cells of this text at `row`, `column` of
    /// a terminal of size `window`; `widths` gives the width of every
    /// character of every text run. Lines are blanked to the end of the
    /// crop.
    pub fn draw_cropped(
        &self,
        window: WindowSize,
        widths: &[Vec<Vec<i32>>],
        row: i32,
        column: i32,
        crop_row: u32,
        crop_column: u32,
        crop_width: u32,
        crop_height: u32,
    ) -> (r: Vec<DrawOp>)
        requires
            region_spec(self.lines@.len() as int, Some(self.width as int), window.rows as int,
                window.columns as int, row as int, column as int, crop_row as int, crop_column as int,
                crop_width as int, crop_height as int) is Some ==> row > i32::MIN && column > i32::MIN,
            rich_widths_ok(self.lines_v(), block_widths_v(widths@)),
            rich_lines_fit(self.lines_v()),
            region_ok(region_spec(self.lines@.len() as int, Some(self.width as int), window.rows as int,
                window.columns as int, row as int, column as int, crop_row as int, crop_column as int,
                crop_width as int, crop_height as int)),
        ensures
            ops_view(r@) == rich_draw_spec(self.lines_v(), block_widths_v(widths@), self.width as int, window,
                row as int, column as int, crop_row as int, crop_column as int, crop_width as int, crop_height as int),
    {
        let region = crop_region(self.lines.len(), Some(self.width), window, row, column,
            crop_row, crop_column, crop_width, crop_height);
        match region {
            None => Vec::new(),
            Some(g) => {
                let mut ops: Vec<DrawOp> = Vec::new();
                push_op(&mut ops, DrawOp::ClearStyle);
                push_op(&mut ops, DrawOp::FgDefault);
                push_op(&mut ops, DrawOp::BgDefault);
                assert(ops_view(ops@) =~= seq![Op::ClearStyle, Op::FgDefault, Op::BgDefault]);
                let mut pen = Pen::new(ops);
                draw_rich_lines(&mut pen, self.lines.as_slice(), widths, &g);
                pen.ops
            },
        }
    }
}

/// `ws` gives the width of each character of the item, where it is text;
/// a control item holds an ASCII control character.
pub open spec fn item_widths_ok(it: Item, ws: Seq<i32>) -> bool {
    match it {
        Item::Text { text, .. } => ws.len() == text.len() && valid_widths(ws),
        Item::Special(c) => crate::text::spec_is_ascii_control(c),
        Item::Newline => true,
    }
}

pub open spec fn plain_line_widths_ok(line: Seq<Item>, wl: Seq<Seq<i32>>) -> bool {
    &&& wl.len() == line.len()
    &&& forall|c: int| 0 <= c < line.len() ==> #[trigger] item_widths_ok(line[c], wl[c])
}

/// `wss` gives the character widths of every text item of `lines`, and
/// every control item holds an ASCII control character.
pub open spec fn plain_widths_ok(lines: Seq<Seq<Item>>, wss: Seq<Seq<Seq<i32>>>) -> bool {
    &&& wss.len() == lines.len()
    &&& forall|l: int| 0 <= l < lines.len() ==> #[trigger] plain_line_widths_ok(lines[l], wss[l])
}

/// Every line is narrower than 2^64 columns.
pub open spec fn plain_lines_fit(lines: Seq<Seq<Item>>) -> bool {
    forall|l: int| 0 <= l < lines.len() ==> #[trigger] items_width(lines[l]) <= u64::MAX
}

/// One item of a line of plain text: the cursor is placed on the line
/// first, then text is drawn as [`text_piece`] says and a control
/// character as [`special_piece`] says; a line end mark draws nothing.
pub open spec fn plain_item_step(ls: LineState, it: Item, ws: Seq<i32>, li: int, g: RegionV, counted_first: bool) -> LineState {
    let m = ensure_moved(ls, li, g);
    match it {
        Item::Newline => m,
        Item::Special(c) => special_piece(m, g, c, counted_first),
        Item::Text { text, width } => text_piece(m, li, g, text, width as int, ws),
    }
}

pub open spec fn plain_line_run(line: Seq<Item>, wl: Seq<Seq<i32>>, n: int, ls: LineState, li: int, g: RegionV, counted_first: bool) -> LineState
    decreases n,
{
    if n <= 0 {
        ls
    } else {
        plain_item_step(plain_line_run(line, wl, n - 1, ls, li, g, counted_first), line[n - 1], wl[n - 1], li, g, counted_first)
    }
}

pub open spec fn plain_lines_run(lines: Seq<Seq<Item>>, wss: Seq<Seq<Seq<i32>>>, k: int, ds: DrawState, g: RegionV, counted_first: bool) -> DrawState
    decreases k,
{
    if k <= 0 {
        ds
    } else {
        let d = plain_lines_run(lines, wss, k - 1, ds, g, counted_first);
        let line = lines[g.crop_row + k - 1];
        fill(plain_line_run(line, wss[g.crop_row + k - 1], line.len() as int, line_start(d), k - 1, g, counted_first), k - 1, g)
    }
}

/// The drawing of lines of plain items, after the operations `prefix`;
/// nothing where the region is empty.
pub open spec fn plain_draw_spec(
    lines: Seq<Seq<Item>>,
    wss: Seq<Seq<Seq<i32>>>,
    window: WindowSize,
    row: int,
    column: int,
    crop_row: int,
    crop_column: int,
    crop_width: int,
    crop_height: int,
    prefix: Seq<Op>,
    counted_first: bool,
) -> Seq<Op> {
    match region_spec(lines.len() as int, None, window.rows as int, window.columns as int,
        row, column, crop_row, crop_column, crop_width, crop_height) {
        None => seq![],
        Some(g) => plain_lines_run(lines, wss, g.crop_row_end - g.crop_row, start_state(prefix), g, counted_first).ops,
    }
}

fn draw_plain_line(pen: &mut Pen, line: &[PlainTextItem], wl: &[Vec<i32>], li: usize, g: &Region, counted_first: bool)
    requires
        plain_line_widths_ok(items_view(line@), line_widths_v(wl@)),
        items_width(items_view(line@)) <= u64::MAX,
        g.term_row + li <= u32::MAX,
        old(pen).lw == 0,
    ensures
        final(pen).line_state() == plain_line_run(items_view(line@), line_widths_v(wl@), line@.len() as int,
            old(pen).line_state(), li as int, g@, counted_first),
{
    let ghost lv = items_view(line@);
    let ghost wv = line_widths_v(wl@);
    let ghost ls0 = pen.line_state();
    let mut i: usize = 0;
    while i < line.len()
        invariant
            i <= line@.len(),
            lv == items_view(line@),
            wv == line_widths_v(wl@),
            plain_line_widths_ok(lv, wv),
            items_width(lv) <= u64::MAX,
            g.term_row + li <= u32::MAX,
            pen.line_state() == plain_line_run(lv, wv, i as int, ls0, li as int, g@, counted_first),
            pen.lw == items_width(lv.take(i as int)),
        decreases line.len() - i,
    {
        proof {
            assert(lv.take(i + 1) =~= lv.take(i as int).push(lv[i as int]));
            lemma_items_width_push(lv.take(i as int), lv[i as int]);
            assert(lv =~= lv.take(i + 1) + lv.skip(i + 1));
            lemma_items_width_concat(lv.take(i + 1), lv.skip(i + 1));
            assert(item_widths_ok(lv[i as int], wv[i as int]));
        }
        pen.ensure_moved(li, g);
        match &line[i] {
            PlainTextItem::Newline => {},
            PlainTextItem::Special(c) => pen.special_piece(g, *c, counted_first),
            PlainTextItem::Text { text, width } => {
                pen.text_piece(li, g, text.as_str(), *width, wl[i].as_slice());
            },
        }
        i += 1;
    }
    assert(lv.take(i as int) =~= lv);
}

fn draw_plain_lines(pen: &mut Pen, lines: &[Vec<PlainTextItem>], widths: &[Vec<Vec<i32>>], g: &Region, counted_first: bool)
    requires
        g.crop_row <= g.crop_row_end <= lines@.len(),
        g.term_row + (g.crop_row_end - g.crop_row) <= u32::MAX,
        g.full_column_end <= u32::MAX,
        plain_widths_ok(plain_lines_view(lines@), block_widths_v(widths@)),
        plain_lines_fit(plain_lines_view(lines@)),
        old(pen).line_state() == line_start(old(pen).line_state().ds),
    ensures
        final(pen).line_state() == line_start(plain_lines_run(plain_lines_view(lines@), block_widths_v(widths@),
            g.crop_row_end - g.crop_row, old(pen).line_state().ds, g@, counted_first)),
{
    let ghost lv = plain_lines_view(lines@);
    let ghost wv = block_widths_v(widths@);
    let ghost ds0 = pen.line_state().ds;
    let count = g.crop_row_end - g.crop_row;
    let mut k: usize = 0;
    while k < count
        invariant
            k <= count,
            count == g.crop_row_end - g.crop_row,
            g.crop_row <= g.crop_row_end <= lines@.len(),
            g.term_row + (g.crop_row_end - g.crop_row) <= u32::MAX,
            g.full_column_end <= u32::MAX,
            lv == plain_lines_view(lines@),
            wv == block_widths_v(widths@),
            plain_widths_ok(lv, wv),
            plain_lines_fit(lv),
            pen.line_state() == line_start(plain_lines_run(lv, wv, k as int, ds0, g@, counted_first)),
        decreases count - k,
    {
        let l = g.crop_row + k;
        proof {
            assert(plain_line_widths_ok(lv[l as int], wv[l as int]));
            assert(items_width(lv[l as int]) <= u64::MAX);
            assert(lv[l as int] == items_view(lines@[l as int]@));
            assert(wv[l as int] == line_widths_v(widths@[l as int]@));
        }
        draw_plain_line(pen, lines[l].as_slice(), widths[l].as_slice(), k, g, counted_first);
        pen.fill(k, g);
        k += 1;
    }
}

/// The drawing of [`plain_draw_spec`].
pub fn draw_items_cropped(
    lines: &[Vec<PlainTextItem>],
    widths: &[Vec<Vec<i32>>],
    window: WindowSize,
    row: i32,
    column: i32,
    crop_row: u32,
    crop_column: u32,
    crop_width: u32,
    crop_height: u32,
    prefix: Vec<DrawOp>,
    counted_first: bool,
) -> (r: Vec<DrawOp>)
    requires
        region_spec(lines@.len() as int, None, window.rows as int, window.columns as int,
            row as int, column as int, crop_row as int, crop_column as int, crop_width as int, crop_height as int)
            is Some ==> row > i32::MIN && column > i32::MIN,
        plain_widths_ok(plain_lines_view(lines@), block_widths_v(widths@)),
        plain_lines_fit(plain_lines_view(lines@)),
        region_ok(region_spec(lines@.len() as int, None, window.rows as int, window.columns as int,
            row as int, column as int, crop_row as int, crop_column as int, crop_width as int, crop_height as int)),
    ensures
        ops_view(r@) == plain_draw_spec(plain_lines_view(lines@), block_widths_v(widths@), window,
            row as int, column as int, crop_row as int, crop_column as int, crop_width as int, crop_height as int,
            ops_view(prefix@), counted_first),
{
    let region = crop_region(lines.len(), None, window, row, column, crop_row, crop_column, crop_width, crop_height);
    match region {
        None => Vec::new(),
        Some(g) => {
            let mut pen = Pen::new(prefix);
            draw_plain_lines(&mut pen, lines, widths, &g, counted_first);
            pen.ops
        },
    }
}

impl PlainText {
    /// The operations that draw the part `crop_row.., crop_column..` of
    /// `crop_height` by `crop_width` cells of this text at `row`, `column` of
    /// a terminal of size `window`; `widths` gives the width of every
    /// character of every text item. Lines are blanked to the end of the
    /// crop.
    pub fn draw_cropped(
        &self,
        window: WindowSize,
        widths: &[Vec<Vec<i32>>],
        row: i32,
        column: i32,
        crop_row: u32,
        crop_column: u32,
        crop_width: u32,
        crop_height: u32,
    ) -> (r: Vec<DrawOp>)
        requires
            region_spec(self.lines@.len() as int, None, window.rows as int, window.columns as int,
                row as int, column as int, crop_row as int, crop_column as int, crop_width as int, crop_height as int)
                is Some ==> row > i32::MIN && column > i32::MIN,
            plain_widths_ok(self.lines_v(), block_widths_v(widths@)),
            plain_lines_fit(self.lines_v()),
            region_ok(region_spec(self.lines@.len() as int, None, window.rows as int, window.columns as int,
                row as int, column as int, crop_row as int, crop_column as int, crop_width as int, crop_height as int)),
        ensures
            ops_view(r@) == plain_draw_spec(self.lines_v(), block_widths_v(widths@), window,
                row as int, column as int, crop_row as int, crop_column as int, crop_width as int, crop_height as int,
                seq![], false),
    {
        let r = draw_items_cropped(self.lines.as_slice(), widths, window, row, column,
            crop_row, crop_column, crop_width, crop_height, Vec::new(), false);
        assert(ops_view(Seq::<DrawOp>::empty()) =~= Seq::<Op>::empty());
        r
    }
}

/// A region whose first row is drawn can always be drawn.
pub proof fn lemma_region_ok_from_top(height: int, width: Option<int>, rows: int, columns: int, row: int, column: int,
    crop_column: int, crop_width: int, crop_height: int)
    requires
        rows >= 0,
        crop_height >= 0,
    ensures
        region_ok(region_spec(height, width, rows, columns, row, column, 0, crop_column, crop_width, crop_height)),
{
}

/// The smaller of `v` and `u32::MAX`.
pub open spec fn clamp_u32(v: int) -> int {
    if v > u32::MAX { u32::MAX as int } else { v }
}

fn clamp_to_u32(v: usize) -> (r: u32)
    ensures
        r == clamp_u32(v as int),
{
    if v as u64 > u32::MAX as u64 { u32::MAX } else { v as u32 }
}

impl RichText {
    /// The operations that draw the whole text at `row`, `column`.
    pub fn draw(&self, window: WindowSize, widths: &[Vec<Vec<i32>>], row: i32, column: i32) -> (r: Vec<DrawOp>)
        requires
            row > i32::MIN,
            column > i32::MIN,
            rich_widths_ok(self.lines_v(), block_widths_v(widths@)),
            rich_lines_fit(self.lines_v()),
        ensures
            ops_view(r@) == rich_draw_spec(self.lines_v(), block_widths_v(widths@), self.width as int, window,
                row as int, column as int, 0, 0, clamp_u32(self.width as int), clamp_u32(self.lines@.len() as int)),
    {
        let w = clamp_to_u32(self.width);
        let h = clamp_to_u32(self.lines.len());
        proof {
            lemma_region_ok_from_top(self.lines@.len() as int, Some(self.width as int), window.rows as int,
                window.columns as int, row as int, column as int, 0, w as int, h as int);
        }
        self.draw_cropped(window, widths, row, column, 0, 0, w, h)
    }
}

impl PlainText {
    /// The operations that draw the whole text at `row`, `column`.
    pub fn draw(&self, window: WindowSize, widths: &[Vec<Vec<i32>>], row: i32, column: i32) -> (r: Vec<DrawOp>)
        requires
            row > i32::MIN,
            column > i32::MIN,
            plain_widths_ok(self.lines_v(), block_widths_v(widths@)),
            plain_lines_fit(self.lines_v()),
        ensures
            ops_view(r@) == plain_draw_spec(self.lines_v(), block_widths_v(widths@), window,
                row as int, column as int, 0, 0, clamp_u32(self.width as int), clamp_u32(self.lines@.len() as int),
                seq![], false),
    {
        let w = clamp_to_u32(self.width);
        let h = clamp_to_u32(self.lines.len());
        proof {
            lemma_region_ok_from_top(self.lines@.len() as int, None, window.rows as int,
                window.columns as int, row as int, column as int, 0, w as int, h as int);
        }
        self.draw_cropped(window, widths, row, column, 0, 0, w, h)
    }
}

/// Where blank lines below a drawing start, and how wide they are: from
/// the left edge where the drawing starts left of the terminal.
pub open spec fn blank_span(column: int, width: int) -> (int, int) {
    if column < 0 { (0, width + column) } else { (column, width) }
}

/// The width of the blank lines, cut at the right edge of the terminal.
pub open spec fn blank_width(columns: int, column: int, width: int) -> int {
    let (lc, lw) = blank_span(column, width);
    if lc + lw > columns { columns - lc } else { lw }
}

/// The blank lines can be drawn: the lines are at least one column wide
/// where they start inside the terminal, and every row fits in 32 bits.
pub open spec fn blank_lines_ok(columns: int, column: int, width: int, line_row: int, count: int) -> bool {
    let (lc, lw) = blank_span(column, width);
    &&& lw >= 0
    &&& lc + lw <= u32::MAX
    &&& (lc < columns ==> blank_width(columns, column, width) >= 1)
    &&& line_row + count <= u32::MAX + 1
}

/// `count` blank lines from terminal row `line_row` on: each is placed by a
/// cursor move (a newline where the lines start at the left edge, but for
/// the first), then a space is written and repeated; nothing where the
/// lines start right of the terminal.
pub open spec fn blank_lines(columns: int, column: int, width: int, line_row: int, count: int) -> Seq<Op>
    decreases count,
{
    let (lc, lw) = blank_span(column, width);
    if lc >= columns || count <= 0 {
        seq![]
    } else {
        let li = count - 1;
        let place = if li == 0 || lc != 0 {
            Op::MoveCursor { row: (line_row + li) as nat, column: (column as u32) as nat }
        } else {
            Op::Text(seq!['\n'])
        };
        blank_lines(columns, column, width, line_row, count - 1)
            + seq![place, Op::Text(seq![' ']), Op::Repeat((blank_width(columns, column, width) - 1) as nat)]
    }
}

/// Draws the blank lines of [`blank_lines`].
pub fn push_blank_lines(ops: &mut Vec<DrawOp>, columns: u32, column: i32, width: u32, line_row: u32, count: u32)
    requires
        column > i32::MIN,
        blank_lines_ok(columns as int, column as int, width as int, line_row as int, count as int),
    ensures
        ops_view(final(ops)@) == ops_view(old(ops)@) + blank_lines(columns as int, column as int, width as int,
            line_row as int, count as int),
{
    let (lc, lw): (u32, u32) = if column < 0 { (0, width - ((-column) as u32)) } else { (column as u32, width) };
    if lc >= columns {
        assert(ops_view(ops@) =~= ops_view(old(ops)@) + blank_lines(columns as int, column as int, width as int,
            line_row as int, count as int));
        return;
    }
    let bw: u32 = if lc as u64 + lw as u64 > columns as u64 { columns - lc } else { lw };
    let repeat = bw - 1;
    let ghost start = ops_view(ops@);
    let mut li: u32 = 0;
    while li < count
        invariant
            li <= count,
            line_row + count <= u32::MAX + 1,
            (lc as int, lw as int) == blank_span(column as int, width as int),
            lc < columns,
            repeat == blank_width(columns as int, column as int, width as int) - 1,
            ops_view(ops@) == start + blank_lines(columns as int, column as int, width as int, line_row as int, li as int),
        decreases count - li,
    {
        let ghost before = ops_view(ops@);
        if li == 0 || lc != 0 {
            push_op(ops, DrawOp::MoveCursor { row: line_row + li, column: column as u32 });
        } else {
            let mut s = String::new();
            crate::text::push_char(&mut s, '\n');
            proof { assert(s@ =~= seq!['\n']); }
            push_op(ops, DrawOp::Text(s));
        }
        let mut sp = String::new();
        crate::text::push_char(&mut sp, ' ');
        proof { assert(sp@ =~= seq![' ']); }
        push_op(ops, DrawOp::Text(sp));
        push_op(ops, DrawOp::Repeat(repeat));
        proof {
            let place = if li == 0 || lc != 0 {
                Op::MoveCursor { row: (line_row + li) as nat, column: (column as u32) as nat }
            } else {
                Op::Text(seq!['\n'])
            };
            assert(ops_view(ops@) =~= before + seq![place, Op::Text(seq![' ']), Op::Repeat(repeat as nat)]);
            assert(blank_lines(columns as int, column as int, width as int, line_row as int, li + 1)
                == blank_lines(columns as int, column as int, width as int, line_row as int, li as int)
                    + seq![place, Op::Text(seq![' ']), Op::Repeat(repeat as nat)]);
        }
        li += 1;
    }
}

pub open spec fn max_int(a: int, b: int) -> int {
    if a > b { a } else { b }
}

/// Total height of the rows `hs[i..]`.
pub open spec fn heights_from(hs: Seq<int>, i: int) -> int
    decreases hs.len() - i,
{
    if i < 0 || i >= hs.len() { 0 } else { hs[i] + heights_from(hs, i + 1) }
}

/// The rows of a table body scrolled `scroll` lines down that are passed
/// over: rows are skipped while they end above the header line count once
/// scrolled (`body` lines are passed so far); the first row not skipped
/// and the lines passed.
pub open spec fn skip_rows(hs: Seq<int>, hh: int, scroll: int, i: int, body: int) -> (int, int)
    decreases hs.len() - i,
{
    if i < 0 || i >= hs.len() {
        (i, body)
    } else if body + hs[i] - scroll >= hh {
        (i, body)
    } else {
        skip_rows(hs, hh, scroll, i + 1, body + hs[i])
    }
}

/// How one table row is drawn: its index, the line below the top of the
/// table where it lands, the first of its lines that is shown and the
/// lines left for it and the rows after it.
pub ghost struct RowPlanV {
    pub index: int,
    pub offset: int,
    pub crop_row: int,
    pub avail: int,
}

/// The rows drawn from row `i` on, with `body` lines passed and `avail`
/// lines left: rows are drawn until one takes all the lines left; the rows,
/// the lines passed and the lines left.
pub open spec fn plan_rows(hs: Seq<int>, hh: int, scroll: int, i: int, body: int, avail: int) -> (Seq<RowPlanV>, int, int)
    decreases hs.len() - i,
{
    if i < 0 || i >= hs.len() {
        (seq![], body, avail)
    } else {
        let obh = body - scroll;
        let d = RowPlanV { index: i, offset: hh + max_int(obh, 0), crop_row: -min_int(obh, 0), avail: avail };
        if avail > hs[i] {
            let rest = plan_rows(hs, hh, scroll, i + 1, body + hs[i], avail - hs[i]);
            (seq![d] + rest.0, rest.1, rest.2)
        } else {
            (seq![d], body + hs[i], avail)
        }
    }
}

/// The rows of a table body of rows `hs` that are drawn below a header of
/// `hh` lines in `height` lines, scrolled `scroll` lines down; with the
/// lines passed and left.
pub open spec fn table_layout_spec(hs: Seq<int>, hh: int, height: int, scroll: int) -> (Seq<RowPlanV>, int, int) {
    let (i, body) = skip_rows(hs, hh, scroll, 0, 0);
    plan_rows(hs, hh, scroll, i, body, height - hh + scroll)
}

/// Row heights as integers.
pub open spec fn heights_v(hs: Seq<usize>) -> Seq<int> {
    hs.map_values(|h: usize| h as int)
}

/// A row plan in machine integers.
#[derive(Debug, Clone, Copy)]
pub struct RowPlan {
    pub index: usize,
    pub offset: u32,
    pub crop_row: u32,
    pub avail: u32,
}

impl View for RowPlan {
    type V = RowPlanV;

    open spec fn view(&self) -> RowPlanV {
        RowPlanV { index: self.index as int, offset: self.offset as int, crop_row: self.crop_row as int, avail: self.avail as int }
    }
}

pub open spec fn plans_view(ps: Seq<RowPlan>) -> Seq<RowPlanV> {
    ps.map_values(|p: RowPlan| p@)
}

pub proof fn lemma_heights_from_step(hs: Seq<int>, i: int)
    requires
        0 <= i < hs.len(),
    ensures
        heights_from(hs, i) == hs[i] + heights_from(hs, i + 1),
{
}

pub proof fn lemma_heights_from_nonneg(hs: Seq<int>, i: int)
    requires
        forall|k: int| 0 <= k < hs.len() ==> #[trigger] hs[k] >= 0,
    ensures
        heights_from(hs, i) >= 0,
    decreases hs.len() - i,
{
    if 0 <= i < hs.len() {
        lemma_heights_from_nonneg(hs, i + 1);
    }
}

/// The layout of [`table_layout_spec`], for row heights whose sum with the
/// header, the scroll and the height stays below 2^30.
pub fn table_layout(hs: &[usize], hh: usize, height: u32, scroll: u32) -> (r: (Vec<RowPlan>, usize, u32))
    requires
        hh <= height,
        hh + heights_from(heights_v(hs@), 0) + scroll <= i32::MAX,
        height - hh + scroll <= u32::MAX,
    ensures
        (plans_view(r.0@), r.1 as int, r.2 as int) == table_layout_spec(heights_v(hs@), hh as int, height as int, scroll as int),
{
    let ghost hv = heights_v(hs@);
    proof {
        assert forall|k: int| 0 <= k < hv.len() implies #[trigger] hv[k] >= 0 by {}
        lemma_heights_from_nonneg(hv, 0);
    }
    let mut i: usize = 0;
    let mut body: usize = 0;
    while i < hs.len()
        invariant
            i <= hs@.len(),
            hv == heights_v(hs@),
            forall|k: int| 0 <= k < hv.len() ==> #[trigger] hv[k] >= 0,
            body + heights_from(hv, i as int) == heights_from(hv, 0),
            hh + heights_from(hv, 0) + scroll <= i32::MAX,
            skip_rows(hv, hh as int, scroll as int, 0, 0) == skip_rows(hv, hh as int, scroll as int, i as int, body as int),
        ensures
            skip_rows(hv, hh as int, scroll as int, 0, 0) == (i as int, body as int),
        decreases hs.len() - i,
    {
        proof {
            lemma_heights_from_step(hv, i as int);
            lemma_heights_from_nonneg(hv, i + 1);
        }
        if body + hs[i] >= hh + scroll as usize {
            break;
        }
        body = body + hs[i];
        i += 1;
    }
    let ghost i0 = i;
    let ghost b0 = body;
    let mut avail: u32 = height - hh as u32 + scroll;
    let mut plans: Vec<RowPlan> = Vec::new();
    let ghost total = plan_rows(hv, hh as int, scroll as int, i0 as int, b0 as int, avail as int);
    loop
        invariant
            i0 <= i <= hs@.len(),
            hv == heights_v(hs@),
            hv.len() == hs@.len(),
            forall|k: int| 0 <= k < hv.len() ==> #[trigger] hv[k] >= 0,
            body + heights_from(hv, i as int) == heights_from(hv, 0),
            hh + heights_from(hv, 0) + scroll <= i32::MAX,
            height - hh + scroll <= u32::MAX,
            avail <= height - hh + scroll,
            skip_rows(hv, hh as int, scroll as int, 0, 0) == (i0 as int, b0 as int),
            total == plan_rows(hv, hh as int, scroll as int, i0 as int, b0 as int, (height - hh + scroll) as int),
            total == ({
                let rest = plan_rows(hv, hh as int, scroll as int, i as int, body as int, avail as int);
                (plans_view(plans@) + rest.0, rest.1, rest.2)
            }),
        ensures
            i >= hs@.len(),
            total == ({
                let rest = plan_rows(hv, hh as int, scroll as int, i as int, body as int, avail as int);
                (plans_view(plans@) + rest.0, rest.1, rest.2)
            }),
        decreases hs.len() - i,
    {
        if i >= hs.len() {
            break;
        }
        proof {
            lemma_heights_from_step(hv, i as int);
            lemma_heights_from_nonneg(hv, i + 1);
        }
        let (offset, crop_row): (u32, u32) = if body >= scroll as usize {
            ((hh + (body - scroll as usize)) as u32, 0)
        } else {
            (hh as u32, (scroll as usize - body) as u32)
        };
        let ghost prev = plans_view(plans@);
        let p = RowPlan { index: i, offset, crop_row, avail };
        plans.push(p);
        proof {
            assert(plans_view(plans@) =~= prev.push(p@));
        }
        let h = hs[i];
        body = body + h;
        i += 1;
        if avail as usize > h {
            avail = avail - h as u32;
            proof {
                assert(prev + (seq![p@] + plan_rows(hv, hh as int, scroll as int, i as int, body as int, avail as int).0)
                    =~= plans_view(plans@) + plan_rows(hv, hh as int, scroll as int, i as int, body as int, avail as int).0);
            }
        } else {
            proof {
                assert(prev + seq![p@] =~= plans_view(plans@) + Seq::<RowPlanV>::empty());
            }
            assert(plans_view(plans@) + Seq::<RowPlanV>::empty() =~= plans_view(plans@));
            return (plans, body, avail);
        }
    }
    assert(plan_rows(hv, hh as int, scroll as int, i as int, body as int, avail as int) == (Seq::<RowPlanV>::empty(), body as int, avail as int));
    assert(plans_view(plans@) + Seq::<RowPlanV>::empty() =~= plans_view(plans@));
    (plans, body, avail)
}

/// Background of body row `i` of a table scrolled `scroll` lines: rows
/// alternate between two shades, lighter where the row is selected.
pub open spec fn row_background(i: int, scroll: int, selected: int) -> Color {
    if (i + scroll) % 2 == 0 {
        if i == selected { selected_even_row_background() } else { even_row_background() }
    } else {
        if i == selected { selected_odd_row_background() } else { odd_row_background() }
    }
}

pub fn row_background_value(i: usize, scroll: u32, selected: usize) -> (c: Color)
    ensures
        c == row_background(i as int, scroll as int, selected as int),
{
    if (i as u64 % 2 + scroll as u64 % 2) % 2 == 0 {
        if i == selected {
            crate::styles::selected_even_row_background_value()
        } else {
            crate::styles::even_row_background_value()
        }
    } else {
        if i == selected {
            crate::styles::selected_odd_row_background_value()
        } else {
            crate::styles::odd_row_background_value()
        }
    }
}

/// The body rows of a table: each is drawn by `draw_row` on its background,
/// which is set for it alone.
pub open spec fn rows_ops(plans: Seq<RowPlanV>, scroll: int, selected: int, draw_row: spec_fn(RowPlanV) -> Seq<Op>) -> Seq<Op>
    decreases plans.len(),
{
    if plans.len() == 0 {
        seq![]
    } else {
        let p = plans.last();
        rows_ops(plans.drop_last(), scroll, selected, draw_row)
            + seq![Op::Scoped(TermIOState::DefaultBackground(row_background(p.index, scroll, selected)))]
            + draw_row(p)
            + seq![Op::EndScope]
    }
}

pub proof fn lemma_rows_ops_push(plans: Seq<RowPlanV>, p: RowPlanV, scroll: int, selected: int, draw_row: spec_fn(RowPlanV) -> Seq<Op>)
    ensures
        rows_ops(plans.push(p), scroll, selected, draw_row) == rows_ops(plans, scroll, selected, draw_row)
            + seq![Op::Scoped(TermIOState::DefaultBackground(row_background(p.index, scroll, selected)))]
            + draw_row(p) + seq![Op::EndScope],
{
    assert(plans.push(p).drop_last() =~= plans);
}

/// The start of a table drawing: the table's colours are set and the
/// header is drawn in bold.
pub open spec fn table_head_ops(header: Seq<Op>) -> Seq<Op> {
    seq![
        Op::Scoped(TermIOState::DefaultBackground(odd_row_background())),
        Op::Scoped(TermIOState::DefaultForeground(crate::styles::table_foreground())),
        Op::FontWeight(FontWeight::Bold),
    ] + header + seq![Op::FontWeight(FontWeight::Normal)]
}

/// Appends the operations `more`.
pub fn append_ops(ops: &mut Vec<DrawOp>, more: Vec<DrawOp>)
    ensures
        ops_view(final(ops)@) == ops_view(old(ops)@) + ops_view(more@),
{
    let mut more = more;
    let ghost m = more@;
    ops.append(&mut more);
    assert(ops_view(ops@) =~= ops_view(old(ops)@) + ops_view(m));
}

} // verus!
