use vstd::prelude::*;
use crate::rich_text::{
    RichText, RichTextCode, RichTextStyle, Code, line_view, lines_view, line_width_spec, line_width, diff_codes,
    apply_codes, default_style, default_style_value, extend_codes, lemma_line_width_concat, lemma_diff_width,
};
use crate::rich_layout::{pad_right, right_pad_line_with, empty_lines};

verus! {

/// How the text of a column lines up.
#[derive(Debug, Clone, Copy, PartialEq, Eq, Structural)]
pub enum Align {
    Left,
    Right,
}

impl Align {
    pub fn is_left(&self) -> (r: bool)
        ensures
            r == (*self == Align::Left),
    {
        match self {
            Align::Left => true,
            Align::Right => false,
        }
    }

    pub fn is_right(&self) -> (r: bool)
        ensures
            r == (*self == Align::Right),
    {
        match self {
            Align::Left => false,
            Align::Right => true,
        }
    }

    /// Left, where nothing else is asked for.
    pub fn default() -> (r: Self)
        ensures
            r == Align::Left,
    {
        Align::Left
    }
}

/// A column of a table: its width, that of its widest cell, and its
/// alignment.
#[derive(Debug, Clone, Copy, PartialEq, Eq, Structural)]
pub struct Column {
    pub width: usize,
    pub align: Align,
}

impl Column {
    pub fn new(align: Align) -> (r: Self)
        ensures
            r == (Column { width: 0, align }),
    {
        Column { width: 0, align }
    }

    pub fn width(&self) -> (r: usize)
        ensures
            r == self.width,
    {
        self.width
    }

    pub fn align(&self) -> (r: Align)
        ensures
            r == self.align,
    {
        self.align
    }
}

/// A column as it is declared: its header and alignment.
#[derive(Debug)]
pub struct ColumnDef {
    pub header: RichText,
    pub align: Align,
}

impl ColumnDef {
    pub fn new(header: RichText, align: Align) -> (r: Self)
        ensures
            r.header == header,
            r.align == align,
    {
        ColumnDef { header, align }
    }
}

/// The widths of the cells of a row.
pub open spec fn cell_widths(row: Seq<RichText>) -> Seq<usize> {
    row.map_values(|c: RichText| c.width)
}

/// The columns widened to the cells of a row: new columns are added, left
/// aligned, for cells past the last one, and each column is at least as
/// wide as its cell.
pub open spec fn gathered(cols: Seq<Column>, widths: Seq<usize>) -> Seq<Column> {
    Seq::new(
        if cols.len() >= widths.len() { cols.len() } else { widths.len() },
        |i: int| {
            let c = if i < cols.len() { cols[i] } else { Column { width: 0, align: Align::Left } };
            if i < widths.len() && c.width < widths[i] { Column { width: widths[i], ..c } } else { c }
        },
    )
}

/// Widens `columns` to the cells of `row`; see [`gathered`].
fn gather_widths(columns: &mut Vec<Column>, row: &[RichText])
    ensures
        final(columns)@ == gathered(old(columns)@, cell_widths(row@)),
{
    let ghost c0 = columns@;
    let ghost ws = cell_widths(row@);
    let mut i: usize = 0;
    while i < row.len()
        invariant
            i <= row@.len(),
            ws == cell_widths(row@),
            columns@.len() == if c0.len() >= i { c0.len() } else { i as nat },
            forall|k: int| 0 <= k < columns@.len() ==> #[trigger] columns@[k] == if k < i {
                gathered(c0, ws)[k]
            } else {
                c0[k]
            },
        decreases row.len() - i,
    {
        if columns.len() <= i {
            columns.push(Column { width: 0, align: Align::Left });
        }
        let w = row[i].width;
        let c = columns[i];
        if c.width < w {
            columns.set(i, Column { width: w, align: c.align });
        }
        i += 1;
    }
    assert(columns@ =~= gathered(c0, ws));
}

/// The lines of the cells of a row.
pub open spec fn row_lines(row: Seq<RichText>) -> Seq<Seq<Seq<Code>>> {
    row.map_values(|c: RichText| c.lines_v())
}

/// State while a line of a row is laid out: the line so far, its width as
/// counted, the width it should have reached, the style the line ends in
/// and the style each cell's text had reached.
pub ghost struct CellState {
    pub line: Seq<Code>,
    pub actual: nat,
    pub wanted: nat,
    pub prev: RichTextStyle,
    pub styles: Seq<RichTextStyle>,
}

/// Cell `j` added to line `li`: the style switches to the one the cell's
/// text had reached; after the first cell a column of space separates the
/// cells; where the cell has a line `li`, the line is padded to the cell's
/// start (further right for a right aligned column) and the cell's line
/// follows.
pub open spec fn cell_step(st: CellState, cols: Seq<Column>, row: Seq<Seq<Seq<Code>>>, li: int, j: int) -> CellState {
    let line1 = st.line + diff_codes(st.prev, st.styles[j]);
    let wanted1 = if j == 0 { st.wanted } else { st.wanted + 1 };
    let cw = cols[j].width as nat;
    if li < row[j].len() {
        let ol = row[j][li];
        let ow = line_width_spec(ol);
        let pad = wanted1 + (if cols[j].align == Align::Right && ow < cw { (cw - ow) as nat } else { 0 });
        let s2 = apply_codes(st.styles[j], ol);
        CellState {
            line: pad_right(line1, st.actual, pad) + ol,
            actual: pad + ow,
            wanted: wanted1 + cw,
            prev: s2,
            styles: st.styles.update(j, s2),
        }
    } else {
        CellState { line: line1, actual: st.actual, wanted: wanted1 + cw, prev: st.styles[j], styles: st.styles }
    }
}

/// The state after the first `m` cells.
pub open spec fn cells_run(st: CellState, cols: Seq<Column>, row: Seq<Seq<Seq<Code>>>, li: int, m: nat) -> CellState
    decreases m,
{
    if m == 0 {
        st
    } else {
        cell_step(cells_run(st, cols, row, li, (m - 1) as nat), cols, row, li, m - 1)
    }
}

/// Line `li` of a row laid out, from an empty line, with the cells' styles
/// so far: the line padded to the full width, and the cells' styles after
/// it.
pub open spec fn format_line(cols: Seq<Column>, row: Seq<Seq<Seq<Code>>>, li: int, styles: Seq<RichTextStyle>) -> (Seq<Code>, Seq<RichTextStyle>) {
    let m = if row.len() <= cols.len() { row.len() } else { cols.len() };
    let st = cells_run(
        CellState { line: seq![], actual: 0, wanted: 0, prev: default_style(), styles },
        cols, row, li, m,
    );
    (pad_right(st.line, st.actual, st.wanted), st.styles)
}

/// The first `k` lines of a row and the cells' styles after them.
pub open spec fn format_lines(cols: Seq<Column>, row: Seq<Seq<Seq<Code>>>, k: nat) -> (Seq<Seq<Code>>, Seq<RichTextStyle>)
    decreases k,
{
    if k == 0 {
        (seq![], Seq::new(cols.len(), |i: int| default_style()))
    } else {
        let (ls, st) = format_lines(cols, row, (k - 1) as nat);
        let (l, st2) = format_line(cols, row, (k - 1) as int, st);
        (ls.push(l), st2)
    }
}

/// Number of lines of the tallest cell, at least one.
pub open spec fn row_height(row: Seq<Seq<Seq<Code>>>) -> nat
    decreases row.len(),
{
    if row.len() == 0 {
        1
    } else {
        let h = row_height(row.drop_last());
        if row.last().len() > h { row.last().len() } else { h }
    }
}

/// Sum of the column widths.
pub open spec fn widths_sum(cols: Seq<Column>) -> nat
    decreases cols.len(),
{
    if cols.len() == 0 {
        0
    } else {
        widths_sum(cols.drop_last()) + cols.last().width as nat
    }
}

/// Total width of a table: the columns and a column of space between
/// each two.
pub open spec fn table_width(cols: Seq<Column>) -> nat {
    if cols.len() > 0 { (widths_sum(cols) + cols.len() - 1) as nat } else { 0 }
}

/// A row laid out: one line per line of its tallest cell (at least one),
/// the cells side by side in their columns; without columns a single empty
/// line.
pub open spec fn formatted_row(cols: Seq<Column>, row: Seq<Seq<Seq<Code>>>) -> Seq<Seq<Code>> {
    if cols.len() == 0 {
        seq![Seq::<Code>::empty()]
    } else {
        format_lines(cols, row, row_height(row)).0
    }
}

proof fn lemma_format_lines_len(cols: Seq<Column>, row: Seq<Seq<Seq<Code>>>, k: nat)
    ensures
        format_lines(cols, row, k).0.len() == k,
    decreases k,
{
    if k > 0 {
        lemma_format_lines_len(cols, row, (k - 1) as nat);
    }
}

proof fn lemma_row_height(row: Seq<Seq<Seq<Code>>>)
    ensures
        row_height(row) >= 1,
        forall|j: int| 0 <= j < row.len() ==> (#[trigger] row[j]).len() <= row_height(row),
        row_height(row) == 1 || exists|j: int| 0 <= j < row.len() && (#[trigger] row[j]).len() == row_height(row),
    decreases row.len(),
{
    if row.len() > 0 {
        let r = row.drop_last();
        lemma_row_height(r);
        assert forall|j: int| 0 <= j < row.len() implies (#[trigger] row[j]).len() <= row_height(row) by {
            if j < r.len() {
                assert(row[j] == r[j]);
            }
        }
        if row_height(row) != 1 && row_height(row) != row[row.len() - 1].len() {
            let j0 = choose|j: int| 0 <= j < r.len() && (#[trigger] r[j]).len() == row_height(r);
            assert(row[j0] == r[j0]);
        }
    }
}

/// A laid out row is as tall as its tallest cell, and at least one line
/// tall: no cell has more lines, and one has as many unless the row is one
/// line tall.
pub proof fn row_as_tall_as_tallest_cell(cols: Seq<Column>, row: Seq<Seq<Seq<Code>>>)
    requires
        cols.len() > 0,
    ensures
        formatted_row(cols, row).len() == row_height(row),
        row_height(row) >= 1,
        forall|j: int| 0 <= j < row.len() ==> (#[trigger] row[j]).len() <= row_height(row),
        row_height(row) == 1 || exists|j: int| 0 <= j < row.len() && (#[trigger] row[j]).len() == row_height(row),
{
    lemma_format_lines_len(cols, row, row_height(row));
    lemma_row_height(row);
}

/// Every line of each cell fits in its column, and the whole table width
/// fits in a `usize`.
pub open spec fn cells_fit(cols: Seq<Column>, row: Seq<Seq<Seq<Code>>>) -> bool {
    &&& widths_sum(cols) + cols.len() <= usize::MAX
    &&& forall|j: int, li: int| 0 <= j < row.len() && j < cols.len() && 0 <= li < row[j].len()
        ==> line_width_spec(#[trigger] row[j][li]) <= cols[j].width
}

} // verus!

verus! {

/// How wide a line of a row should be after `j` cells.
pub open spec fn wanted_at(cols: Seq<Column>, j: int) -> nat {
    if j == 0 { 0 } else { (widths_sum(cols.take(j)) + j - 1) as nat }
}

proof fn lemma_widths_sum_prefix(cols: Seq<Column>, j: int)
    requires
        0 <= j < cols.len(),
    ensures
        widths_sum(cols.take(j + 1)) == widths_sum(cols.take(j)) + cols[j].width,
        widths_sum(cols.take(j + 1)) <= widths_sum(cols),
    decreases cols.len() - j,
{
    assert(cols.take(j + 1).drop_last() =~= cols.take(j));
    if j + 1 < cols.len() {
        lemma_widths_sum_prefix(cols, j + 1);
    } else {
        assert(cols.take(j + 1) =~= cols);
    }
}

/// Padding a line whose width is counted right gives it the larger of its
/// width and the target.
pub proof fn lemma_pad_right_width(line: Seq<Code>, w: nat)
    ensures
        line_width_spec(pad_right(line, line_width_spec(line), w))
            == if line_width_spec(line) < w { w } else { line_width_spec(line) },
{
    let lw = line_width_spec(line);
    if lw < w {
        let d = (w - lw) as nat;
        if line.len() > 0 && line.last() is Text {
            crate::rich_text::lemma_line_width_update_last(line, Code::Text { text: line.last()->text + crate::rich_layout::spaces(d), width: line.last()->width + d });
        } else {
            crate::rich_text::lemma_line_width_push(line, Code::Text { text: crate::rich_layout::spaces(d), width: d });
        }
    }
}

/// Where column `j` starts in a laid out row: after the columns before it,
/// each followed by a column of space.
pub open spec fn column_start(cols: Seq<Column>, j: int) -> nat {
    (widths_sum(cols.take(j)) + j) as nat
}

/// Laying out the first `m` cells of a line keeps the width of the line
/// counted and within the width it should reach.
proof fn lemma_cells_run_widths(cols: Seq<Column>, row: Seq<Seq<Seq<Code>>>, li: int, styles: Seq<RichTextStyle>, m: nat)
    requires
        cells_fit(cols, row),
        0 <= li,
        m <= row.len(),
        m <= cols.len(),
        styles.len() == cols.len(),
    ensures
        ({
            let st = cells_run(CellState { line: seq![], actual: 0, wanted: 0, prev: default_style(), styles }, cols, row, li, m);
            &&& st.actual == line_width_spec(st.line)
            &&& st.actual <= st.wanted
            &&& st.wanted == wanted_at(cols, m as int)
            &&& st.styles.len() == cols.len()
        }),
    decreases m,
{
    if m > 0 {
        let j = m - 1;
        lemma_cells_run_widths(cols, row, li, styles, (m - 1) as nat);
        let st = cells_run(CellState { line: seq![], actual: 0, wanted: 0, prev: default_style(), styles }, cols, row, li, (m - 1) as nat);
        lemma_widths_sum_prefix(cols, j as int);
        let line1 = st.line + diff_codes(st.prev, st.styles[j as int]);
        lemma_line_width_concat(st.line, diff_codes(st.prev, st.styles[j as int]));
        lemma_diff_width(st.prev, st.styles[j as int]);
        if li < row[j as int].len() {
            let ol = row[j as int][li];
            assert(line_width_spec(ol) <= cols[j as int].width);
            let cw = cols[j as int].width as nat;
            let ow = line_width_spec(ol);
            let wanted1 = if j == 0 { st.wanted } else { st.wanted + 1 };
            let pad = wanted1 + (if cols[j as int].align == Align::Right && ow < cw { (cw - ow) as nat } else { 0 });
            lemma_pad_right_width(line1, pad);
            lemma_line_width_concat(pad_right(line1, st.actual, pad), ol);
        }
    }
}

/// In a laid out row the line of a cell starts at its column's start in a
/// left aligned column, and `cw - ow` columns further right in a right
/// aligned one (`cw` the column's width, `ow` the width of the cell's
/// line, where it is narrower): the row's line, up to the cell's line, is
/// that wide, and the cell's line follows.
pub proof fn cell_line_starts_at_its_column(cols: Seq<Column>, row: Seq<Seq<Seq<Code>>>, li: int, styles: Seq<RichTextStyle>, j: int)
    requires
        cells_fit(cols, row),
        0 <= j < row.len(),
        j < cols.len(),
        0 <= li < row[j].len(),
        styles.len() == cols.len(),
    ensures
        ({
            let st = cells_run(CellState { line: seq![], actual: 0, wanted: 0, prev: default_style(), styles }, cols, row, li, (j + 1) as nat);
            let ol = row[j][li];
            let ow = line_width_spec(ol);
            let cw = cols[j].width as nat;
            let k = st.line.len() - ol.len();
            &&& 0 <= k
            &&& st.line.subrange(k, st.line.len() as int) == ol
            &&& line_width_spec(st.line.take(k)) == column_start(cols, j)
                    + (if cols[j].align == Align::Right && ow < cw { cw - ow } else { 0 })
        }),
{
    lemma_cells_run_widths(cols, row, li, styles, j as nat);
    let st = cells_run(CellState { line: seq![], actual: 0, wanted: 0, prev: default_style(), styles }, cols, row, li, j as nat);
    if j > 0 {
        lemma_widths_sum_prefix(cols, j - 1);
    }
    let line1 = st.line + diff_codes(st.prev, st.styles[j]);
    lemma_line_width_concat(st.line, diff_codes(st.prev, st.styles[j]));
    lemma_diff_width(st.prev, st.styles[j]);
    let ol = row[j][li];
    let cw = cols[j].width as nat;
    let ow = line_width_spec(ol);
    let wanted1 = if j == 0 { st.wanted } else { st.wanted + 1 };
    let pad = wanted1 + (if cols[j].align == Align::Right && ow < cw { (cw - ow) as nat } else { 0 });
    lemma_pad_right_width(line1, pad);
    let p = pad_right(line1, st.actual, pad);
    let full = p + ol;
    assert(full.subrange(p.len() as int, full.len() as int) =~= ol);
    assert(full.take(p.len() as int) =~= p);
}

/// The last text of a line is no wider than the line.
proof fn lemma_last_code_width(line: Seq<Code>)
    requires
        line.len() > 0,
    ensures
        crate::rich_text::code_width(line.last()) <= line_width_spec(line),
{
}

/// Lays out line `li` of `row`; see [`format_line`].
#[verifier::rlimit(60)]
fn format_line_exec(columns: &[Column], row: &[RichText], li: usize, styles: &mut Vec<RichTextStyle>) -> (line: Vec<RichTextCode>)
    requires
        old(styles)@.len() == columns@.len(),
        cells_fit(columns@, row_lines(row@)),
    ensures
        (line_view(line@), final(styles)@) == format_line(columns@, row_lines(row@), li as int, old(styles)@),
        final(styles)@.len() == columns@.len(),
{
    let ghost cols = columns@;
    let ghost rl = row_lines(row@);
    let m = if row.len() <= columns.len() { row.len() } else { columns.len() };
    let ghost st0 = CellState { line: seq![], actual: 0, wanted: 0, prev: default_style(), styles: styles@ };
    let mut line: Vec<RichTextCode> = Vec::new();
    let mut actual: usize = 0;
    let mut wanted: usize = 0;
    let mut prev = default_style_value();
    let mut j: usize = 0;
    assert(line_view(line@) =~= Seq::<Code>::empty());
    while j < m
        invariant
            cols == columns@,
            rl == row_lines(row@),
            m <= row@.len(),
            m <= cols.len(),
            cells_fit(cols, rl),
            j <= m,
            styles@.len() == cols.len(),
            ({
                let st = cells_run(st0, cols, rl, li as int, j as nat);
                &&& st.line == line_view(line@)
                &&& st.actual == actual
                &&& st.wanted == wanted
                &&& st.prev == prev
                &&& st.styles == styles@
            }),
            actual == line_width_spec(line_view(line@)),
            actual <= wanted,
            wanted == wanted_at(cols, j as int),
        decreases m - j,
    {
        let ghost st = cells_run(st0, cols, rl, li as int, j as nat);
        proof {
            lemma_widths_sum_prefix(cols, j as int);
        }
        let ghost l0 = line_view(line@);
        let sj = styles[j];
        prev.diff(&sj, &mut line);
        proof {
            lemma_line_width_concat(l0, diff_codes(prev, sj));
            lemma_diff_width(prev, sj);
        }
        let wanted1 = if j == 0 { wanted } else { wanted + 1 };
        let col = columns[j];
        let cw = col.width;
        let cell = &row[j];
        assert(rl[j as int] == cell.lines_v());
        if li < cell.lines.len() {
            let ol = cell.lines[li].as_slice();
            assert(rl[j as int][li as int] == line_view(ol@));
            let ow = line_width(ol);
            let pad = if col.align.is_right() && ow < cw { wanted1 + (cw - ow) } else { wanted1 };
            let ghost l1 = line_view(line@);
            proof {
                if l1.len() > 0 {
                    lemma_last_code_width(l1);
                }
            }
            right_pad_line_with(&mut line, actual, pad);
            proof {
                lemma_pad_right_width(l1, pad as nat);
            }
            let ghost l2 = line_view(line@);
            extend_codes(&mut line, ol);
            proof {
                lemma_line_width_concat(l2, line_view(ol@));
            }
            actual = pad + ow;
            let mut s2 = sj;
            s2.apply_changes(ol);
            styles.set(j, s2);
            prev = s2;
        } else {
            prev = sj;
        }
        wanted = wanted1 + cw;
        proof {
            assert(cells_run(st0, cols, rl, li as int, (j + 1) as nat) == cell_step(st, cols, rl, li as int, j as int));
        }
        j += 1;
    }
    proof {
        if m > 0 {
            lemma_widths_sum_prefix(cols, (m - 1) as int);
        }
        let l = line_view(line@);
        if l.len() > 0 {
            lemma_last_code_width(l);
        }
    }
    right_pad_line_with(&mut line, actual, wanted);
    line
}

} // verus!

verus! {

use crate::rect::Rect;
use crate::widget::{WidgetId, ActionFlags};

/// Lays out `row` into `formatted`, which has no lines yet; see
/// [`formatted_row`].  The width becomes the table's width where there
/// are columns.  The result is the number of lines.
fn format_row(columns: &[Column], row: &[RichText], formatted: &mut RichText, other_styles: &mut Vec<RichTextStyle>) -> (r: usize)
    requires
        old(formatted).lines_v().len() == 0,
        cells_fit(columns@, row_lines(row@)),
    ensures
        final(formatted).lines_v() == formatted_row(columns@, row_lines(row@)),
        final(formatted).width == if columns@.len() > 0 { table_width(columns@) } else { old(formatted).width as nat },
        r == final(formatted).lines_v().len(),
{
    let ghost cols = columns@;
    let ghost rl = row_lines(row@);
    if columns.len() == 0 {
        formatted.bottom_pad(1);
        assert(formatted.lines_v() =~= seq![Seq::<Code>::empty()]);
        return formatted.lines.len();
    }
    let mut max_lines: usize = 1;
    let mut k: usize = 0;
    while k < row.len()
        invariant
            k <= row@.len(),
            rl == row_lines(row@),
            max_lines == row_height(rl.take(k as int)),
            max_lines >= 1,
        decreases row.len() - k,
    {
        proof {
            assert(rl.take(k + 1).drop_last() =~= rl.take(k as int));
            assert(rl[k as int] == row@[k as int].lines_v());
        }
        let h = row[k].lines.len();
        if h > max_lines {
            max_lines = h;
        }
        k += 1;
    }
    assert(rl.take(k as int) =~= rl);
    other_styles.clear();
    let mut c: usize = 0;
    while c < columns.len()
        invariant
            c <= columns@.len(),
            other_styles@ == Seq::new(c as nat, |i: int| default_style()),
        decreases columns.len() - c,
    {
        other_styles.push(default_style_value());
        assert(other_styles@ =~= Seq::new((c + 1) as nat, |i: int| default_style()));
        c += 1;
    }
    let mut li: usize = 0;
    assert(formatted.lines_v() =~= format_lines(cols, rl, 0).0);
    while li < max_lines
        invariant
            li <= max_lines,
            cols == columns@,
            rl == row_lines(row@),
            cols.len() > 0,
            cells_fit(cols, rl),
            max_lines == row_height(rl),
            (formatted.lines_v(), other_styles@) == format_lines(cols, rl, li as nat),
            other_styles@.len() == cols.len(),
            formatted.width == old(formatted).width,
        decreases max_lines - li,
    {
        let line = format_line_exec(columns, row, li, other_styles);
        let ghost prev = formatted.lines@;
        formatted.lines.push(line);
        assert(formatted.lines_v() =~= lines_view(prev).push(line_view(formatted.lines@[prev.len() as int]@)));
        li += 1;
    }
    let mut total: usize = 0;
    let mut c: usize = 0;
    while c < columns.len()
        invariant
            c <= columns@.len(),
            cols == columns@,
            widths_sum(cols) + cols.len() <= usize::MAX,
            total == widths_sum(cols.take(c as int)),
        decreases columns.len() - c,
    {
        proof {
            lemma_widths_sum_prefix(cols, c as int);
        }
        total = total + columns[c].width;
        c += 1;
    }
    assert(cols.take(c as int) =~= cols);
    formatted.width = total + (columns.len() - 1);
    formatted.lines.len()
}

/// Every line of the rich text is no wider than its width.
pub open spec fn rich_wf(rt: RichText) -> bool {
    forall|i: int| 0 <= i < rt.lines_v().len() ==> line_width_spec(#[trigger] rt.lines_v()[i]) <= rt.width
}

/// The columns widened to the header and every row.
pub open spec fn gather_all(cols: Seq<Column>, header: Seq<RichText>, rows: Seq<Vec<RichText>>, k: nat) -> Seq<Column>
    decreases k,
{
    if k == 0 {
        gathered(cols, cell_widths(header))
    } else {
        gathered(gather_all(cols, header, rows, (k - 1) as nat), cell_widths(rows[k - 1]@))
    }
}

/// Total height of the laid out rows.
pub open spec fn rows_height_sum(cols: Seq<Column>, rows: Seq<Vec<RichText>>, k: nat) -> nat
    decreases k,
{
    if k == 0 {
        0
    } else {
        rows_height_sum(cols, rows, (k - 1) as nat) + formatted_row(cols, row_lines(rows[k - 1]@)).len()
    }
}

/// The width that column `i` of `cols` starts from: its own, or zero for
/// a column that does not exist yet.
pub open spec fn start_width(cols: Seq<Column>, i: int) -> nat {
    if 0 <= i < cols.len() { cols[i].width as nat } else { 0 }
}

/// Laying out a table makes each column exactly as wide as the widest of
/// its former width (zero for a new column), its header cell and its cell
/// in each row; there are as many columns as the longest of the former
/// columns, the header and the rows; former columns keep their alignment
/// and new ones are left aligned.
pub proof fn columns_fit_widest_cell(cols: Seq<Column>, header: Seq<RichText>, rows: Seq<Vec<RichText>>, k: nat)
    requires
        k <= rows.len(),
    ensures
        ({
            let g = gather_all(cols, header, rows, k);
            &&& g.len() >= cols.len()
            &&& g.len() >= header.len()
            &&& forall|r: int| 0 <= r < k ==> g.len() >= (#[trigger] rows[r]@).len()
            &&& (g.len() == cols.len() || g.len() == header.len()
                || exists|r: int| 0 <= r < k && g.len() == (#[trigger] rows[r]@).len())
            &&& forall|i: int| 0 <= i < cols.len() ==> (#[trigger] g[i]).align == cols[i].align
            &&& forall|i: int| cols.len() <= i < g.len() ==> (#[trigger] g[i]).align == Align::Left
            &&& forall|i: int| 0 <= i < g.len() ==> (#[trigger] g[i]).width >= start_width(cols, i)
            &&& forall|i: int| 0 <= i < header.len() ==> (#[trigger] g[i]).width >= header[i].width
            &&& forall|r: int, i: int| 0 <= r < k && 0 <= i < (#[trigger] rows[r]@).len() ==> (#[trigger] g[i]).width >= rows[r]@[i].width
            &&& forall|i: int| 0 <= i < g.len() ==> ((#[trigger] g[i]).width == start_width(cols, i)
                || (i < header.len() && g[i].width == header[i].width)
                || exists|r: int| 0 <= r < k && i < (#[trigger] rows[r]@).len() && g[i].width == rows[r]@[i].width)
        }),
    decreases k,
{
    if k > 0 {
        columns_fit_widest_cell(cols, header, rows, (k - 1) as nat);
        let p = gather_all(cols, header, rows, (k - 1) as nat);
        let g = gather_all(cols, header, rows, k);
        let last = rows[k - 1]@;
        assert(g == gathered(p, cell_widths(last)));
        assert forall|r: int| 0 <= r < k implies g.len() >= (#[trigger] rows[r]@).len() by {
            if r < k - 1 {
                assert(p.len() >= rows[r]@.len());
            }
        }
        if g.len() != p.len() {
            assert(g.len() == rows[k - 1]@.len());
        } else if !(g.len() == cols.len() || g.len() == header.len()) {
            let r0 = choose|r: int| 0 <= r < k - 1 && p.len() == (#[trigger] rows[r]@).len();
            assert(0 <= r0 < k && g.len() == rows[r0]@.len());
        }
        assert forall|r: int, i: int| 0 <= r < k && 0 <= i < (#[trigger] rows[r]@).len() implies (#[trigger] g[i]).width >= rows[r]@[i].width by {
            if r < k - 1 {
                assert(p[i].width >= rows[r]@[i].width);
            }
        }
        assert forall|i: int| 0 <= i < g.len() implies ((#[trigger] g[i]).width == start_width(cols, i)
            || (i < header.len() && g[i].width == header[i].width)
            || exists|r: int| 0 <= r < k && i < (#[trigger] rows[r]@).len() && g[i].width == rows[r]@[i].width) by {
            if i < last.len() && (i >= p.len() || p[i].width < last[i].width) {
                assert(i < rows[k - 1]@.len() && g[i].width == rows[k - 1]@[i].width);
            } else if i < p.len() {
                assert(g[i] == p[i]);
                if !(g[i].width == start_width(cols, i) || (i < header.len() && g[i].width == header[i].width)) {
                    let r0 = choose|r: int| 0 <= r < k - 1 && i < (#[trigger] rows[r]@).len() && p[i].width == rows[r]@[i].width;
                    assert(0 <= r0 < k && i < rows[r0]@.len() && g[i].width == rows[r0]@[i].width);
                }
            }
        }
    }
}

/// Total of the heights of the first `k` rows, each as tall as its
/// tallest cell and at least one line.
pub open spec fn cell_heights_total(rows: Seq<Vec<RichText>>, k: nat) -> nat
    decreases k,
{
    if k == 0 {
        0
    } else {
        cell_heights_total(rows, (k - 1) as nat) + row_height(row_lines(rows[k - 1]@))
    }
}

/// A row no wider than the columns is laid out as tall as its tallest
/// cell, at least one line.
proof fn lemma_row_lines_height(cols: Seq<Column>, row: Seq<RichText>)
    requires
        row.len() <= cols.len(),
    ensures
        formatted_row(cols, row_lines(row)).len() == row_height(row_lines(row)),
{
    if cols.len() > 0 {
        row_as_tall_as_tallest_cell(cols, row_lines(row));
    } else {
        assert(row_lines(row) =~= Seq::<Seq<Seq<Code>>>::empty());
    }
}

proof fn lemma_rows_height_total(cols: Seq<Column>, rows: Seq<Vec<RichText>>, k: nat)
    requires
        k <= rows.len(),
        forall|r: int| 0 <= r < k ==> (#[trigger] rows[r]@).len() <= cols.len(),
    ensures
        rows_height_sum(cols, rows, k) == cell_heights_total(rows, k),
    decreases k,
{
    if k > 0 {
        lemma_rows_height_total(cols, rows, (k - 1) as nat);
        lemma_row_lines_height(cols, rows[k - 1]@);
    }
}

/// Laying out a table (see [`Table::update`]): the table is as wide as its
/// columns and a column of space between each two; each column is as wide
/// as the widest of its former width and its cells (see
/// [`columns_fit_widest_cell`]); the header is as tall as its tallest cell
/// and every row likewise, each at least one line; and the rows together
/// are as tall as the sum of their heights.
pub proof fn table_layout_sizes(cols: Seq<Column>, header: Seq<RichText>, rows: Seq<Vec<RichText>>)
    ensures
        ({
            let g = gather_all(cols, header, rows, rows.len());
            &&& table_width(g) == (if g.len() > 0 { (widths_sum(g) + g.len() - 1) as nat } else { 0 })
            &&& formatted_row(g, row_lines(header)).len() == row_height(row_lines(header))
            &&& forall|r: int| 0 <= r < rows.len() ==>
                    #[trigger] formatted_row(g, row_lines(rows[r]@)).len() == row_height(row_lines(rows[r]@))
            &&& rows_height_sum(g, rows, rows.len()) == cell_heights_total(rows, rows.len())
        }),
{
    let g = gather_all(cols, header, rows, rows.len());
    columns_fit_widest_cell(cols, header, rows, rows.len());
    lemma_row_lines_height(g, header);
    assert forall|r: int| 0 <= r < rows.len() implies
        #[trigger] formatted_row(g, row_lines(rows[r]@)).len() == row_height(row_lines(rows[r]@)) by {
        lemma_row_lines_height(g, rows[r]@);
    }
    lemma_rows_height_total(g, rows, rows.len());
}

/// A table of rich text cells with a header, laid out in columns, with a
/// selected row and a scroll position.
#[derive(Debug)]
pub struct Table {
    pub columns: Vec<Column>,
    pub header: Vec<RichText>,
    pub rows: Vec<Vec<RichText>>,
    pub formatted_header: RichText,
    pub formatted_rows: Vec<RichText>,
    pub draw_rect: Rect,
    pub widget_id: WidgetId,
    pub width: usize,
    pub rows_height: usize,
    pub selected_row_index: usize,
    pub scroll_row: u32,
    pub scroll_column: u32,
}

/// The message a table sends when a row is chosen with Enter.
#[derive(Debug, Clone, Copy, PartialEq, Eq, Structural)]
pub struct SelectTableRow {
    pub widget_id: WidgetId,
    pub row_index: usize,
}

impl Table {
    /// An empty table.
    pub fn new(widget_id: WidgetId) -> (r: Self)
        ensures
            r.columns@.len() == 0,
            r.header@.len() == 0,
            r.rows@.len() == 0,
            r.formatted_header.lines_v().len() == 0,
            r.formatted_header.width == 0,
            r.formatted_rows@.len() == 0,
            r.draw_rect == (Rect { row: 0, column: 0, width: 0, height: 0 }),
            r.widget_id == widget_id,
            r.width == 0,
            r.rows_height == 0,
            r.selected_row_index == 0,
            r.scroll_row == 0,
            r.scroll_column == 0,
    {
        Table {
            columns: Vec::new(),
            header: Vec::new(),
            rows: Vec::new(),
            formatted_header: RichText::new(),
            formatted_rows: Vec::new(),
            draw_rect: Rect::default(),
            widget_id,
            width: 0,
            rows_height: 0,
            selected_row_index: 0,
            scroll_row: 0,
            scroll_column: 0,
        }
    }

    pub fn width(&self) -> (r: usize)
        ensures
            r == self.width,
    {
        self.width
    }

    pub fn header_height(&self) -> (r: usize)
        ensures
            r == self.formatted_header.lines_v().len(),
    {
        self.formatted_header.height()
    }

    pub fn rows_height(&self) -> (r: usize)
        ensures
            r == self.rows_height,
    {
        self.rows_height
    }

    /// Header and rows; the sum must fit in a `usize`.
    pub fn height(&self) -> (r: usize)
        requires
            self.formatted_header.lines_v().len() + self.rows_height <= usize::MAX,
        ensures
            r == self.formatted_header.lines_v().len() + self.rows_height,
    {
        self.formatted_header.height() + self.rows_height
    }

    pub fn scroll_row(&self) -> (r: u32)
        ensures
            r == self.scroll_row,
    {
        self.scroll_row
    }

    pub fn scroll_column(&self) -> (r: u32)
        ensures
            r == self.scroll_column,
    {
        self.scroll_column
    }

    pub fn selected_row_index(&self) -> (r: usize)
        ensures
            r == self.selected_row_index,
    {
        self.selected_row_index
    }

    pub fn widget_id(&self) -> (r: WidgetId)
        ensures
            r == self.widget_id,
    {
        self.widget_id
    }

    pub fn draw_rect(&self) -> (r: &Rect)
        ensures
            *r == self.draw_rect,
    {
        &self.draw_rect
    }

    pub fn header(&self) -> (r: &[RichText])
        ensures
            r@ == self.header@,
    {
        self.header.as_slice()
    }

    pub fn header_mut(&mut self) -> (r: &mut Vec<RichText>)
        ensures
            *r == old(self).header,
            final(self).header == *final(r),
            final(self).rows == old(self).rows,
            final(self).columns == old(self).columns,
    {
        &mut self.header
    }

    pub fn rows(&self) -> (r: &[Vec<RichText>])
        ensures
            r@ == self.rows@,
    {
        self.rows.as_slice()
    }

    pub fn rows_mut(&mut self) -> (r: &mut Vec<Vec<RichText>>)
        ensures
            *r == old(self).rows,
            final(self).rows == *final(r),
            final(self).header == old(self).header,
            final(self).columns == old(self).columns,
    {
        &mut self.rows
    }

    pub fn columns(&self) -> (r: &[Column])
        ensures
            r@ == self.columns@,
    {
        self.columns.as_slice()
    }

    pub fn columns_mut(&mut self) -> (r: &mut Vec<Column>)
        ensures
            *r == old(self).columns,
            final(self).columns == *final(r),
            final(self).header == old(self).header,
            final(self).rows == old(self).rows,
    {
        &mut self.columns
    }
}

} // verus!

verus! {

use crate::rect::Rect as Rect2;

proof fn lemma_gathered_widths(cols: Seq<Column>, ws: Seq<usize>)
    ensures
        gathered(cols, ws).len() >= cols.len(),
        gathered(cols, ws).len() >= ws.len(),
        forall|i: int| 0 <= i < ws.len() ==> #[trigger] gathered(cols, ws)[i].width >= ws[i],
        forall|i: int| 0 <= i < cols.len() ==> #[trigger] gathered(cols, ws)[i].width >= cols[i].width,
{
}

proof fn lemma_gather_all_mono(cols: Seq<Column>, header: Seq<RichText>, rows: Seq<Vec<RichText>>, k: nat, m: nat)
    requires
        k <= m,
    ensures
        gather_all(cols, header, rows, k).len() <= gather_all(cols, header, rows, m).len(),
        forall|i: int| 0 <= i < gather_all(cols, header, rows, k).len()
            ==> #[trigger] gather_all(cols, header, rows, k)[i].width <= gather_all(cols, header, rows, m)[i].width,
    decreases m - k,
{
    if k < m {
        lemma_gather_all_mono(cols, header, rows, k, (m - 1) as nat);
        lemma_gathered_widths(gather_all(cols, header, rows, (m - 1) as nat), cell_widths(rows[m - 1]@));
    }
}

/// Cells of well formed rich text fit in columns at least as wide as they
/// are.
proof fn lemma_cells_fit(g: Seq<Column>, row: Seq<RichText>)
    requires
        widths_sum(g) + g.len() <= usize::MAX,
        row.len() <= g.len(),
        forall|j: int| 0 <= j < row.len() ==> rich_wf(#[trigger] row[j]),
        forall|j: int| 0 <= j < row.len() ==> #[trigger] g[j].width >= row[j].width,
    ensures
        cells_fit(g, row_lines(row)),
{
    assert forall|j: int, li: int| 0 <= j < row_lines(row).len() && j < g.len() && 0 <= li < row_lines(row)[j].len()
        implies line_width_spec(#[trigger] row_lines(row)[j][li]) <= g[j].width by {
        assert(row_lines(row)[j] == row[j].lines_v());
        assert(rich_wf(row[j]));
        assert(line_width_spec(row[j].lines_v()[li]) <= row[j].width);
    }
}

/// Every cell of the header and the rows is well formed.
pub open spec fn table_cells_wf(header: Seq<RichText>, rows: Seq<Vec<RichText>>) -> bool {
    &&& forall|j: int| 0 <= j < header.len() ==> rich_wf(#[trigger] header[j])
    &&& forall|r: int, j: int| 0 <= r < rows.len() && 0 <= j < rows[r]@.len() ==> rich_wf(#[trigger] rows[r]@[j])
}

/// What [`Table::update`] needs: well formed cells, and a total width and
/// height that fit in a `usize`.
pub open spec fn update_fits(cols: Seq<Column>, header: Seq<RichText>, rows: Seq<Vec<RichText>>) -> bool {
    let g = gather_all(cols, header, rows, rows.len());
    &&& table_cells_wf(header, rows)
    &&& widths_sum(g) + g.len() <= usize::MAX
    &&& rows_height_sum(g, rows, rows.len()) <= usize::MAX
}

impl Table {
    /// Widens the columns to the header and the rows and lays them out
    /// again; see [`formatted_row`].
    pub fn update(&mut self)
        requires
            update_fits(old(self).columns@, old(self).header@, old(self).rows@),
        ensures
            ({
                let g = gather_all(old(self).columns@, old(self).header@, old(self).rows@, old(self).rows@.len());
                &&& final(self).columns@ == g
                &&& final(self).formatted_header.lines_v() == formatted_row(g, row_lines(old(self).header@))
                &&& final(self).formatted_header.width == table_width(g)
                &&& final(self).formatted_rows@.len() == old(self).rows@.len()
                &&& forall|i: int| 0 <= i < old(self).rows@.len() ==>
                        (#[trigger] final(self).formatted_rows@[i]).lines_v() == formatted_row(g, row_lines(old(self).rows@[i]@))
                &&& final(self).rows_height == rows_height_sum(g, old(self).rows@, old(self).rows@.len())
                &&& final(self).width == table_width(g)
            }),
            final(self).header == old(self).header,
            final(self).rows == old(self).rows,
            final(self).draw_rect == old(self).draw_rect,
            final(self).widget_id == old(self).widget_id,
            final(self).selected_row_index == old(self).selected_row_index,
            final(self).scroll_row == old(self).scroll_row,
            final(self).scroll_column == old(self).scroll_column,
    {
        let ghost c0 = self.columns@;
        let ghost hd = self.header@;
        let ghost rs = self.rows@;
        let ghost n = rs.len();
        let ghost g = gather_all(c0, hd, rs, n);
        self.formatted_header.clear();
        self.formatted_rows.clear();
        gather_widths(&mut self.columns, self.header.as_slice());
        let mut r: usize = 0;
        while r < self.rows.len()
            invariant
                r <= rs.len(),
                rs == self.rows@,
                hd == self.header@,
                self.header == old(self).header,
                self.rows == old(self).rows,
                self.formatted_header.lines_v().len() == 0,
                self.formatted_rows@.len() == 0,
                self.draw_rect == old(self).draw_rect,
                self.widget_id == old(self).widget_id,
                self.selected_row_index == old(self).selected_row_index,
                self.scroll_row == old(self).scroll_row,
                self.scroll_column == old(self).scroll_column,
                self.columns@ == gather_all(c0, hd, rs, r as nat),
            decreases self.rows@.len() - r,
        {
            gather_widths(&mut self.columns, self.rows[r].as_slice());
            r += 1;
        }
        assert(self.columns@ == g);
        proof {
            lemma_gather_all_mono(c0, hd, rs, 0, n);
            lemma_gathered_widths(c0, cell_widths(hd));
            assert forall|j: int| 0 <= j < hd.len() implies #[trigger] g[j].width >= hd[j].width by {
                assert(cell_widths(hd)[j] == hd[j].width);
                assert(gather_all(c0, hd, rs, 0)[j].width >= hd[j].width);
            }
            lemma_cells_fit(g, hd);
        }
        let mut buf: Vec<RichTextStyle> = Vec::new();
        format_row(self.columns.as_slice(), self.header.as_slice(), &mut self.formatted_header, &mut buf);
        if self.columns.len() == 0 {
            self.formatted_header.width = 0;
        }
        self.rows_height = 0;
        let mut r: usize = 0;
        while r < self.rows.len()
            invariant
                r <= rs.len(),
                rs == self.rows@,
                hd == self.header@,
                n == rs.len(),
                g == gather_all(c0, hd, rs, n),
                self.columns@ == g,
                update_fits(c0, hd, rs),
                self.formatted_rows@.len() == r,
                forall|i: int| 0 <= i < r ==>
                    (#[trigger] self.formatted_rows@[i]).lines_v() == formatted_row(g, row_lines(rs[i]@)),
                self.rows_height == rows_height_sum(g, rs, r as nat),
                self.header == old(self).header,
                self.rows == old(self).rows,
                self.formatted_header.lines_v() == formatted_row(g, row_lines(hd)),
                self.formatted_header.width == table_width(g),
                self.draw_rect == old(self).draw_rect,
                self.widget_id == old(self).widget_id,
                self.selected_row_index == old(self).selected_row_index,
                self.scroll_row == old(self).scroll_row,
                self.scroll_column == old(self).scroll_column,
            decreases self.rows@.len() - r,
        {
            proof {
                lemma_gather_all_mono(c0, hd, rs, (r + 1) as nat, n);
                lemma_gathered_widths(gather_all(c0, hd, rs, r as nat), cell_widths(rs[r as int]@));
                assert forall|j: int| 0 <= j < rs[r as int]@.len() implies #[trigger] g[j].width >= rs[r as int]@[j].width by {
                    assert(cell_widths(rs[r as int]@)[j] == rs[r as int]@[j].width);
                    assert(gather_all(c0, hd, rs, (r + 1) as nat)[j].width >= rs[r as int]@[j].width);
                }
                assert forall|j: int| 0 <= j < rs[r as int]@.len() implies rich_wf(#[trigger] rs[r as int]@[j]) by {
                    assert(table_cells_wf(hd, rs));
                }
                lemma_cells_fit(g, rs[r as int]@);
                lemma_rows_height_sum_mono(g, rs, (r + 1) as nat, n);
            }
            let mut rt = RichText::new();
            let h = format_row(self.columns.as_slice(), self.rows[r].as_slice(), &mut rt, &mut buf);
            self.rows_height = self.rows_height + h;
            let ghost prev = self.formatted_rows@;
            self.formatted_rows.push(rt);
            assert forall|i: int| 0 <= i < r + 1 implies
                (#[trigger] self.formatted_rows@[i]).lines_v() == formatted_row(g, row_lines(rs[i]@)) by {
                if i < r {
                    assert(self.formatted_rows@[i] == prev[i]);
                }
            }
            r += 1;
        }
        let mut total: usize = 0;
        let mut c: usize = 0;
        while c < self.columns.len()
            invariant
                c <= g.len(),
                self.columns@ == g,
                widths_sum(g) + g.len() <= usize::MAX,
                total == widths_sum(g.take(c as int)),
                self.header == old(self).header,
                self.rows == old(self).rows,
                self.formatted_header.lines_v() == formatted_row(g, row_lines(hd)),
                self.formatted_header.width == table_width(g),
                self.formatted_rows@.len() == rs.len(),
                forall|i: int| 0 <= i < rs.len() ==>
                    (#[trigger] self.formatted_rows@[i]).lines_v() == formatted_row(g, row_lines(rs[i]@)),
                self.rows_height == rows_height_sum(g, rs, rs.len()),
                self.draw_rect == old(self).draw_rect,
                self.widget_id == old(self).widget_id,
                self.selected_row_index == old(self).selected_row_index,
                self.scroll_row == old(self).scroll_row,
                self.scroll_column == old(self).scroll_column,
            decreases self.columns@.len() - c,
        {
            proof {
                lemma_widths_sum_prefix(g, c as int);
            }
            total = total + self.columns[c].width;
            c += 1;
        }
        assert(g.take(c as int) =~= g);
        if self.columns.len() > 0 {
            self.width = total + (self.columns.len() - 1);
        } else {
            self.width = 0;
        }
    }
}

proof fn lemma_rows_height_sum_mono(g: Seq<Column>, rows: Seq<Vec<RichText>>, k: nat, m: nat)
    requires
        k <= m,
    ensures
        rows_height_sum(g, rows, k) <= rows_height_sum(g, rows, m),
    decreases m - k,
{
    if k < m {
        lemma_rows_height_sum_mono(g, rows, k, (m - 1) as nat);
    }
}

} // verus!

verus! {

use crate::event::{Event, Key};
use crate::message::{MessageBroker, MessageData};

/// `v` cut to its lowest 32 bits, as `as u32` does.
pub open spec fn trunc32(v: int) -> u32 {
    (v % 0x1_0000_0000) as u32
}

/// The number of lines of each laid out row.
pub open spec fn row_heights(rows: Seq<RichText>) -> Seq<nat> {
    rows.map_values(|r: RichText| r.lines_v().len())
}

/// Lines of the first `k` rows.
pub open spec fn sum_heights(hs: Seq<nat>, k: int) -> nat
    decreases k,
{
    if k <= 0 || hs.len() == 0 {
        0
    } else if k > hs.len() {
        sum_heights(hs, hs.len() as int)
    } else {
        sum_heights(hs, k - 1) + hs[k - 1]
    }
}

/// Where the selected row starts below the header; zero where no row is
/// selected.
pub open spec fn selected_top(hs: Seq<nat>, sel: int) -> nat {
    if 0 <= sel < hs.len() { sum_heights(hs, sel) } else { 0 }
}

/// Lines of the selected row; zero where no row is selected.
pub open spec fn selected_height(hs: Seq<nat>, sel: int) -> nat {
    if 0 <= sel < hs.len() { hs[sel] } else { 0 }
}

/// The scroll position that brings the selected row into view after the
/// selection moved up: its top where it starts above the view, else its
/// bottom (or top, where it is taller than the view) where it ends below.
pub open spec fn scroll_after_up(hs: Seq<nat>, header_h: nat, rect_h: nat, sel: int, scroll: u32) -> u32 {
    if header_h >= rect_h {
        0
    } else {
        let avail = rect_h - header_h;
        let top = selected_top(hs, sel);
        let h = selected_height(hs, sel);
        if top < scroll {
            trunc32(top as int)
        } else if top + h > scroll + avail {
            if h > avail { trunc32(top as int) } else { trunc32(top + h - avail) }
        } else {
            scroll
        }
    }
}

/// As [`scroll_after_up`], the bottom checked first.
pub open spec fn scroll_after_down(hs: Seq<nat>, header_h: nat, rect_h: nat, sel: int, scroll: u32) -> u32 {
    if header_h >= rect_h {
        0
    } else {
        let avail = rect_h - header_h;
        let top = selected_top(hs, sel);
        let h = selected_height(hs, sel);
        if top + h > scroll + avail {
            if h > avail { trunc32(top as int) } else { trunc32(top + h - avail) }
        } else if top < scroll {
            trunc32(top as int)
        } else {
            scroll
        }
    }
}

/// A scroll position kept within `total - view` (zero where the view is
/// larger).
pub open spec fn clamp_scroll(total: nat, view: nat, scroll: u32) -> u32 {
    if view > total {
        0
    } else {
        let m = trunc32(total - view);
        if scroll > m { m } else { scroll }
    }
}

proof fn lemma_sum_heights_step(hs: Seq<nat>, k: int)
    requires
        0 <= k < hs.len(),
    ensures
        sum_heights(hs, k + 1) == sum_heights(hs, k) + hs[k],
{
}

proof fn lemma_sum_heights_mono(hs: Seq<nat>, k: int, m: int)
    requires
        0 <= k <= m <= hs.len(),
    ensures
        sum_heights(hs, k) <= sum_heights(hs, m),
    decreases m - k,
{
    if k < m {
        lemma_sum_heights_mono(hs, k, m - 1);
    }
}

/// `v` cut to its lowest 32 bits.
pub fn trunc_u32(v: usize) -> (r: u32)
    ensures
        r == trunc32(v as int),
{
    let r = v as u32;
    assert(r as int == (v as int) % 0x1_0000_0000) by (bit_vector)
        requires r == v as u32;
    r
}

impl Table {
    /// The lines of each laid out row.
    pub open spec fn heights(&self) -> Seq<nat> {
        row_heights(self.formatted_rows@)
    }

    /// Height of the header and total of the rows' heights fit in a
    /// `usize`, and the rows' height is the sum of the laid out rows.
    pub open spec fn heights_fit(&self) -> bool {
        &&& self.formatted_header.lines_v().len() + self.rows_height <= usize::MAX
        &&& sum_heights(self.heights(), self.heights().len() as int) <= usize::MAX
    }

    /// Where the selected row starts below the header, and its height.
    fn selected_extent(&self) -> (r: (usize, usize))
        requires
            self.heights_fit(),
        ensures
            r.0 == selected_top(self.heights(), self.selected_row_index as int),
            r.1 == selected_height(self.heights(), self.selected_row_index as int),
            r.0 + r.1 <= usize::MAX,
    {
        let ghost hs = self.heights();
        let sel = self.selected_row_index;
        if sel >= self.formatted_rows.len() {
            return (0, 0);
        }
        let mut body: usize = 0;
        let mut i: usize = 0;
        while i < sel
            invariant
                i <= sel < hs.len(),
                hs == self.heights(),
                sum_heights(hs, hs.len() as int) <= usize::MAX,
                body == sum_heights(hs, i as int),
            decreases sel - i,
        {
            proof {
                lemma_sum_heights_step(hs, i as int);
                lemma_sum_heights_mono(hs, i + 1, hs.len() as int);
            }
            assert(hs[i as int] == self.formatted_rows@[i as int].lines_v().len());
            body = body + self.formatted_rows[i].lines.len();
            i += 1;
        }
        proof {
            lemma_sum_heights_step(hs, sel as int);
            lemma_sum_heights_mono(hs, sel + 1, hs.len() as int);
        }
        assert(hs[sel as int] == self.formatted_rows@[sel as int].lines_v().len());
        (body, self.formatted_rows[sel].lines.len())
    }

    /// Keeps the scroll row within the table; see [`clamp_scroll`].
    pub fn clamp_scroll_row(&mut self)
        requires
            old(self).heights_fit(),
        ensures
            final(self).scroll_row == clamp_scroll(
                (old(self).formatted_header.lines_v().len() + old(self).rows_height) as nat,
                old(self).draw_rect.height as nat,
                old(self).scroll_row,
            ),
            final(self).selected_row_index == old(self).selected_row_index,
            final(self).scroll_column == old(self).scroll_column,
            final(self).formatted_rows == old(self).formatted_rows,
            final(self).formatted_header == old(self).formatted_header,
            final(self).rows == old(self).rows,
            final(self).header == old(self).header,
            final(self).columns == old(self).columns,
            final(self).draw_rect == old(self).draw_rect,
            final(self).width == old(self).width,
            final(self).rows_height == old(self).rows_height,
            final(self).widget_id == old(self).widget_id,
    {
        let height = self.height();
        if self.draw_rect.height as usize > height {
            self.scroll_row = 0;
        } else {
            let d = height - self.draw_rect.height as usize;
            let max_overflow = trunc_u32(d);
            if self.scroll_row > max_overflow {
                self.scroll_row = max_overflow;
            }
        }
    }

    /// Keeps the scroll column within the table; see [`clamp_scroll`].
    pub fn clamp_scroll_column(&mut self)
        ensures
            final(self).scroll_column == clamp_scroll(old(self).width as nat, old(self).draw_rect.width as nat, old(self).scroll_column),
            final(self).selected_row_index == old(self).selected_row_index,
            final(self).scroll_row == old(self).scroll_row,
            final(self).formatted_rows == old(self).formatted_rows,
            final(self).formatted_header == old(self).formatted_header,
            final(self).rows == old(self).rows,
            final(self).header == old(self).header,
            final(self).columns == old(self).columns,
            final(self).draw_rect == old(self).draw_rect,
            final(self).width == old(self).width,
            final(self).rows_height == old(self).rows_height,
            final(self).widget_id == old(self).widget_id,
    {
        if self.draw_rect.width as usize > self.width {
            self.scroll_column = 0;
        } else {
            let d = self.width - self.draw_rect.width as usize;
            let max_overflow = trunc_u32(d);
            if self.scroll_column > max_overflow {
                self.scroll_column = max_overflow;
            }
        }
    }

    /// Scrolls the selected row into view after the selection moved up;
    /// see [`scroll_after_up`].
    fn after_selection_up(&mut self)
        requires
            old(self).heights_fit(),
        ensures
            final(self).scroll_row == scroll_after_up(old(self).heights(), old(self).formatted_header.lines_v().len(),
                old(self).draw_rect.height as nat, old(self).selected_row_index as int, old(self).scroll_row),
            final(self).selected_row_index == old(self).selected_row_index,
            final(self).scroll_column == old(self).scroll_column,
            final(self).formatted_rows == old(self).formatted_rows,
            final(self).formatted_header == old(self).formatted_header,
            final(self).rows == old(self).rows,
            final(self).header == old(self).header,
            final(self).columns == old(self).columns,
            final(self).draw_rect == old(self).draw_rect,
            final(self).width == old(self).width,
            final(self).rows_height == old(self).rows_height,
            final(self).widget_id == old(self).widget_id,
    {
        let header_h = self.header_height();
        if header_h >= self.draw_rect.height as usize {
            self.scroll_row = 0;
        } else {
            let avail = self.draw_rect.height as usize - header_h;
            let (top, h) = self.selected_extent();
            let scroll = self.scroll_row as usize;
            if top < scroll {
                self.scroll_row = trunc_u32(top);
            } else if (top + h) as u64 > scroll as u64 + avail as u64 {
                if h > avail {
                    self.scroll_row = trunc_u32(top);
                } else {
                    let v = top + h - avail;
                    self.scroll_row = trunc_u32(v);
                }
            }
        }
    }

    /// Scrolls the selected row into view after the selection moved down;
    /// see [`scroll_after_down`].
    fn after_selection_down(&mut self)
        requires
            old(self).heights_fit(),
        ensures
            final(self).scroll_row == scroll_after_down(old(self).heights(), old(self).formatted_header.lines_v().len(),
                old(self).draw_rect.height as nat, old(self).selected_row_index as int, old(self).scroll_row),
            final(self).selected_row_index == old(self).selected_row_index,
            final(self).scroll_column == old(self).scroll_column,
            final(self).formatted_rows == old(self).formatted_rows,
            final(self).formatted_header == old(self).formatted_header,
            final(self).rows == old(self).rows,
            final(self).header == old(self).header,
            final(self).columns == old(self).columns,
            final(self).draw_rect == old(self).draw_rect,
            final(self).width == old(self).width,
            final(self).rows_height == old(self).rows_height,
            final(self).widget_id == old(self).widget_id,
    {
        let header_h = self.header_height();
        if header_h >= self.draw_rect.height as usize {
            self.scroll_row = 0;
        } else {
            let avail = self.draw_rect.height as usize - header_h;
            let (top, h) = self.selected_extent();
            let scroll = self.scroll_row as usize;
            if (top + h) as u64 > scroll as u64 + avail as u64 {
                if h > avail {
                    self.scroll_row = trunc_u32(top);
                } else {
                    let v = top + h - avail;
                    self.scroll_row = trunc_u32(v);
                }
            } else if top < scroll {
                self.scroll_row = trunc_u32(top);
            }
        }
    }
}

} // verus!

verus! {

use crate::message::Message;

/// Moves the selection up a page: rows are passed until a page's worth of
/// lines is covered or the first row is reached.  The result is the new
/// selection and where it starts.
pub open spec fn page_up_loop(hs: Seq<nat>, sel: int, top: int, page: int, avail: int) -> (int, int)
    decreases sel,
{
    if page < avail && sel > 0 && sel - 1 < hs.len() {
        page_up_loop(hs, sel - 1, top - hs[sel - 1], page + hs[sel - 1], avail)
    } else {
        (sel, top)
    }
}

/// Moves the selection down a page, until a page's worth of lines is
/// covered or the last row is reached.
pub open spec fn page_down_loop(hs: Seq<nat>, sel: int, top: int, page: int, avail: int) -> (int, int)
    decreases hs.len() - sel,
{
    if page < avail && 0 <= sel && sel + 1 < hs.len() {
        page_down_loop(hs, sel + 1, top + hs[sel + 1], page + hs[sel + 1], avail)
    } else {
        (sel, top)
    }
}

/// The navigation state a table reaches after an event, whether it must
/// be drawn again, and whether it sends [`SelectTableRow`] for the
/// selected row.
pub ghost struct NavOutcome {
    pub sel: usize,
    pub scroll_row: u32,
    pub scroll_column: u32,
    pub redraw: bool,
    pub select: bool,
}

impl Table {
    pub open spec fn unchanged(&self) -> NavOutcome {
        NavOutcome { sel: self.selected_row_index, scroll_row: self.scroll_row, scroll_column: self.scroll_column, redraw: false, select: false }
    }

    pub open spec fn header_h(&self) -> nat {
        self.formatted_header.lines_v().len()
    }

    pub open spec fn total_h(&self) -> nat {
        (self.formatted_header.lines_v().len() + self.rows_height) as nat
    }

    /// With a new selection `sel` and scroll row `scroll`, drawn again.
    pub open spec fn moved(&self, sel: usize, scroll: u32) -> NavOutcome {
        NavOutcome { sel, scroll_row: scroll, scroll_column: self.scroll_column, redraw: true, select: false }
    }

    pub open spec fn scrolled_to(&self, col: u32) -> NavOutcome {
        NavOutcome { scroll_column: col, redraw: true, ..self.unchanged() }
    }

    /// Up or Home: the selection moves to `sel` where it is above the
    /// current one.
    pub open spec fn select_up(&self, sel: usize) -> NavOutcome {
        self.moved(sel, scroll_after_up(self.heights(), self.header_h(), self.draw_rect.height as nat, sel as int, self.scroll_row))
    }

    /// Down or End: the selection moves to `sel`; with no rows both the
    /// selection and the scroll row go back to zero.
    pub open spec fn select_down(&self, sel: usize) -> NavOutcome {
        if self.formatted_rows@.len() == 0 {
            if self.selected_row_index != 0 || self.scroll_row != 0 { self.moved(0, 0) } else { self.unchanged() }
        } else if self.selected_row_index < self.formatted_rows@.len() - 1 {
            self.moved(sel, scroll_after_down(self.heights(), self.header_h(), self.draw_rect.height as nat, sel as int, self.scroll_row))
        } else {
            self.unchanged()
        }
    }

    pub open spec fn page_up(&self) -> NavOutcome {
        if self.header_h() >= self.draw_rect.height {
            if self.scroll_row != 0 { self.moved(self.selected_row_index, 0) } else { self.unchanged() }
        } else if self.selected_row_index > 0 {
            let avail = self.draw_rect.height - self.header_h();
            let top0 = selected_top(self.heights(), self.selected_row_index as int);
            let (sel2, top2) = page_up_loop(self.heights(), self.selected_row_index as int, top0 as int, 0, avail);
            let diff = top0 - top2;
            if diff > self.scroll_row {
                if self.scroll_row != 0 {
                    self.moved(sel2 as usize, 0)
                } else {
                    NavOutcome { sel: sel2 as usize, ..self.unchanged() }
                }
            } else {
                self.moved(sel2 as usize, (self.scroll_row - diff) as u32)
            }
        } else {
            self.unchanged()
        }
    }

    pub open spec fn page_down(&self) -> NavOutcome {
        if self.header_h() >= self.draw_rect.height {
            if self.scroll_row != 0 { self.moved(self.selected_row_index, 0) } else { self.unchanged() }
        } else if self.selected_row_index < self.formatted_rows@.len() {
            let avail = self.draw_rect.height - self.header_h();
            let top0 = selected_top(self.heights(), self.selected_row_index as int);
            let (sel2, top2) = page_down_loop(self.heights(), self.selected_row_index as int, top0 as int, 0, avail);
            let diff = top2 - top0;
            if diff > 0 {
                self.moved(sel2 as usize, clamp_scroll(self.total_h(), self.draw_rect.height as nat,
                    (self.scroll_row + trunc32(diff)) as u32))
            } else {
                NavOutcome { sel: sel2 as usize, ..self.unchanged() }
            }
        } else {
            self.unchanged()
        }
    }

    /// What an event does to the table: Enter chooses the selected row;
    /// Up, Down, Home, End, Page Up and Page Down move the selection (Up
    /// and Down with Alt scroll instead); Left and Right scroll sideways,
    /// and with Ctrl Home and End scroll to the first or last column.
    pub open spec fn nav_event(&self, e: Event) -> NavOutcome {
        match e {
            Event::KeyPress { ctrl, alt, shift, key } => {
                if shift {
                    self.unchanged()
                } else if !ctrl {
                    match key {
                        Key::Enter => if alt { self.unchanged() } else {
                            NavOutcome { select: self.selected_row_index < self.rows@.len(), ..self.unchanged() }
                        },
                        Key::Up => if alt {
                            if self.scroll_row > 0 { self.moved(self.selected_row_index, (self.scroll_row - 1) as u32) } else { self.unchanged() }
                        } else if self.selected_row_index > 0 {
                            self.select_up((self.selected_row_index - 1) as usize)
                        } else {
                            self.unchanged()
                        },
                        Key::Home => if alt { self.unchanged() } else if self.selected_row_index > 0 {
                            self.select_up(0)
                        } else {
                            self.unchanged()
                        },
                        Key::Down => if alt {
                            if self.scroll_row < u32::MAX {
                                let s = clamp_scroll(self.total_h(), self.draw_rect.height as nat, (self.scroll_row + 1) as u32);
                                if s != self.scroll_row { self.moved(self.selected_row_index, s) } else { self.unchanged() }
                            } else {
                                self.unchanged()
                            }
                        } else {
                            self.select_down((self.selected_row_index + 1) as usize)
                        },
                        Key::End => if alt { self.unchanged() } else {
                            self.select_down((self.formatted_rows@.len() - 1) as usize)
                        },
                        Key::Left => if alt { self.unchanged() } else if self.scroll_column > 0 {
                            self.scrolled_to((self.scroll_column - 1) as u32)
                        } else {
                            self.unchanged()
                        },
                        Key::Right => if alt { self.unchanged() } else if self.scroll_column < u32::MAX {
                            let s = clamp_scroll(self.width as nat, self.draw_rect.width as nat, (self.scroll_column + 1) as u32);
                            if s != self.scroll_column { self.scrolled_to(s) } else { self.unchanged() }
                        } else {
                            self.unchanged()
                        },
                        Key::PageUp => if alt { self.unchanged() } else { self.page_up() },
                        Key::PageDown => if alt { self.unchanged() } else { self.page_down() },
                        _ => self.unchanged(),
                    }
                } else if !alt && key == Key::Home {
                    if self.scroll_column > 0 { self.scrolled_to(0) } else { self.unchanged() }
                } else if !alt && key == Key::End {
                    if self.scroll_column < u32::MAX {
                        if self.draw_rect.width > self.width {
                            if self.scroll_column != 0 { self.scrolled_to(0) } else { self.unchanged() }
                        } else {
                            let m = trunc32(self.width - self.draw_rect.width);
                            if self.scroll_column != m { self.scrolled_to(m) } else { self.unchanged() }
                        }
                    } else {
                        self.unchanged()
                    }
                } else {
                    self.unchanged()
                }
            },
            _ => self.unchanged(),
        }
    }

    /// The inputs on which the table's event handling does not fail: Page
    /// Up only moves from a row that exists, and Page Down does not scroll
    /// past the largest `u32`.
    pub open spec fn event_ok(&self, e: Event) -> bool {
        &&& self.heights_fit()
        &&& (e == Event::KeyPress { ctrl: false, alt: false, shift: false, key: Key::PageUp }
            && self.header_h() < self.draw_rect.height && self.selected_row_index > 0
            ==> self.selected_row_index < self.formatted_rows@.len())
        &&& (e == Event::KeyPress { ctrl: false, alt: false, shift: false, key: Key::PageDown }
            && self.header_h() < self.draw_rect.height && self.selected_row_index < self.formatted_rows@.len()
            ==> ({
                let avail = self.draw_rect.height - self.header_h();
                let top0 = selected_top(self.heights(), self.selected_row_index as int);
                let (sel2, top2) = page_down_loop(self.heights(), self.selected_row_index as int, top0 as int, 0, avail);
                self.scroll_row + trunc32(top2 - top0) <= u32::MAX
            }))
    }

    /// Whether the table can take `event`: its heights add up within a
    /// `usize`, and paging moves the selection and the scroll position
    /// within their ranges.  Paging down is taken only where the scroll
    /// position plus the height of all rows stays within a `u32`.
    pub fn event_fits(&self, event: &Event) -> (r: bool)
        ensures
            r ==> self.event_ok(*event),
    {
        let ghost hs = self.heights();
        let n = self.formatted_rows.len();
        let mut total: usize = 0;
        let mut i: usize = 0;
        while i < n
            invariant
                hs == self.heights(),
                hs.len() == n,
                n == self.formatted_rows@.len(),
                i <= n,
                total == sum_heights(hs, i as int),
            decreases n - i,
        {
            proof {
                lemma_sum_heights_step(hs, i as int);
            }
            assert(hs[i as int] == self.formatted_rows@[i as int].lines_v().len());
            let h = self.formatted_rows[i].lines.len();
            if h > usize::MAX - total {
                return false;
            }
            total = total + h;
            i += 1;
        }
        let hh = self.formatted_header.lines.len();
        if self.rows_height > usize::MAX - hh {
            return false;
        }
        let paging = hh < self.draw_rect.height as usize;
        let sel = self.selected_row_index;
        let up = matches!(event, Event::KeyPress { ctrl: false, alt: false, shift: false, key: Key::PageUp });
        if up && paging && sel > 0 && sel >= n {
            return false;
        }
        let down = matches!(event, Event::KeyPress { ctrl: false, alt: false, shift: false, key: Key::PageDown });
        if down && paging && sel < n {
            if total > 0xffff_ffff || self.scroll_row as usize > 0xffff_ffff - total {
                return false;
            }
            proof {
                let s0 = sel as int;
                let avail = self.draw_rect.height - self.header_h();
                let top0 = selected_top(hs, s0);
                lemma_sum_heights_step(hs, s0);
                lemma_page_down_bounds(hs, s0, s0, top0 as int, 0, avail);
                let (sel2, top2) = page_down_loop(hs, s0, top0 as int, 0, avail);
                lemma_sum_heights_mono(hs, s0 + 1, sel2 + 1);
                lemma_sum_heights_mono(hs, sel2 + 1, hs.len() as int);
                assert(0 <= top2 - top0 <= total);
                assert(trunc32(top2 - top0) == top2 - top0);
            }
        }
        true
    }
}

} // verus!

verus! {

proof fn lemma_page_up_bounds(hs: Seq<nat>, sel: int, top: int, page: int, avail: int)
    requires
        0 <= sel <= hs.len(),
        top == sum_heights(hs, sel),
        0 <= page,
    ensures
        0 <= page_up_loop(hs, sel, top, page, avail).0 <= sel,
        page_up_loop(hs, sel, top, page, avail).1 == sum_heights(hs, page_up_loop(hs, sel, top, page, avail).0),
    decreases sel,
{
    if page < avail && sel > 0 && sel - 1 < hs.len() {
        lemma_sum_heights_step(hs, sel - 1);
        lemma_page_up_bounds(hs, sel - 1, top - hs[sel - 1], page + hs[sel - 1], avail);
    }
}

proof fn lemma_page_down_bounds(hs: Seq<nat>, s0: int, sel: int, top: int, page: int, avail: int)
    requires
        0 <= s0 <= sel < hs.len(),
        top + hs[s0] == sum_heights(hs, sel + 1),
        0 <= page,
    ensures
        sel <= page_down_loop(hs, sel, top, page, avail).0 < hs.len(),
        page_down_loop(hs, sel, top, page, avail).1 + hs[s0] == sum_heights(hs, page_down_loop(hs, sel, top, page, avail).0 + 1),
    decreases hs.len() - sel,
{
    if page < avail && sel + 1 < hs.len() {
        lemma_sum_heights_step(hs, sel + 1);
        lemma_page_down_bounds(hs, s0, sel + 1, top + hs[sel + 1], page + hs[sel + 1], avail);
    }
}

/// An event never moves a selection off the rows: a selected row stays
/// a row of the table.
pub proof fn selection_stays_on_rows(t: Table, e: Event)
    requires
        t.selected_row_index < t.formatted_rows@.len(),
    ensures
        t.nav_event(e).sel < t.formatted_rows@.len(),
{
    let hs = t.heights();
    let sel = t.selected_row_index as int;
    assert(hs.len() == t.formatted_rows@.len());
    if t.header_h() < t.draw_rect.height {
        let avail = t.draw_rect.height - t.header_h();
        let top0 = selected_top(hs, sel);
        if sel > 0 {
            lemma_page_up_bounds(hs, sel, top0 as int, 0, avail as int);
        }
        lemma_sum_heights_step(hs, sel);
        lemma_page_down_bounds(hs, sel, sel, top0 as int, 0, avail as int);
    }
}

impl Table {
    /// Page Up; see [`Table::page_up`].
    fn page_up_exec(&mut self) -> (redraw: bool)
        requires
            old(self).heights_fit(),
            old(self).header_h() < old(self).draw_rect.height && old(self).selected_row_index > 0
                ==> old(self).selected_row_index < old(self).formatted_rows@.len(),
        ensures
            final(self).selected_row_index == old(self).page_up().sel,
            final(self).scroll_row == old(self).page_up().scroll_row,
            final(self).scroll_column == old(self).scroll_column,
            redraw == old(self).page_up().redraw,
            final(self).formatted_rows == old(self).formatted_rows,
            final(self).formatted_header == old(self).formatted_header,
            final(self).rows == old(self).rows,
            final(self).header == old(self).header,
            final(self).columns == old(self).columns,
            final(self).draw_rect == old(self).draw_rect,
            final(self).width == old(self).width,
            final(self).rows_height == old(self).rows_height,
            final(self).widget_id == old(self).widget_id,
    {
        let ghost hs = self.heights();
        if self.header_height() >= self.draw_rect.height as usize {
            if self.scroll_row != 0 {
                self.scroll_row = 0;
                return true;
            }
            return false;
        }
        if self.selected_row_index == 0 {
            return false;
        }
        let avail = self.draw_rect.height as usize - self.header_height();
        let (top0, _h) = self.selected_extent();
        let mut top = top0;
        let mut page: usize = 0;
        proof {
            lemma_sum_heights_mono(hs, self.selected_row_index as int, hs.len() as int);
        }
        while page < avail && self.selected_row_index > 0
            invariant
                hs == self.heights(),
                0 <= self.selected_row_index < hs.len(),
                top == sum_heights(hs, self.selected_row_index as int),
                top <= top0,
                page == top0 - top,
                top0 <= usize::MAX,
                page_up_loop(hs, old(self).selected_row_index as int, top0 as int, 0, avail as int)
                    == page_up_loop(hs, self.selected_row_index as int, top as int, page as int, avail as int),
                self.formatted_rows == old(self).formatted_rows,
                self.formatted_header == old(self).formatted_header,
                self.rows == old(self).rows,
                self.header == old(self).header,
                self.columns == old(self).columns,
                self.draw_rect == old(self).draw_rect,
                self.width == old(self).width,
                self.rows_height == old(self).rows_height,
                self.widget_id == old(self).widget_id,
                self.scroll_row == old(self).scroll_row,
                self.scroll_column == old(self).scroll_column,
            decreases self.selected_row_index,
        {
            self.selected_row_index = self.selected_row_index - 1;
            let i = self.selected_row_index;
            proof {
                lemma_sum_heights_step(hs, i as int);
            }
            assert(hs[i as int] == self.formatted_rows@[i as int].lines_v().len());
            let h = self.formatted_rows[i].lines.len();
            top = top - h;
            page = page + h;
        }
        let diff = top0 - top;
        if diff > self.scroll_row as usize {
            if self.scroll_row != 0 {
                self.scroll_row = 0;
                return true;
            }
            false
        } else {
            self.scroll_row = self.scroll_row - diff as u32;
            true
        }
    }

    /// Page Down; see [`Table::page_down`].
    fn page_down_exec(&mut self) -> (redraw: bool)
        requires
            old(self).event_ok(Event::KeyPress { ctrl: false, alt: false, shift: false, key: Key::PageDown }),
        ensures
            final(self).selected_row_index == old(self).page_down().sel,
            final(self).scroll_row == old(self).page_down().scroll_row,
            final(self).scroll_column == old(self).scroll_column,
            redraw == old(self).page_down().redraw,
            final(self).formatted_rows == old(self).formatted_rows,
            final(self).formatted_header == old(self).formatted_header,
            final(self).rows == old(self).rows,
            final(self).header == old(self).header,
            final(self).columns == old(self).columns,
            final(self).draw_rect == old(self).draw_rect,
            final(self).width == old(self).width,
            final(self).rows_height == old(self).rows_height,
            final(self).widget_id == old(self).widget_id,
    {
        let ghost hs = self.heights();
        if self.header_height() >= self.draw_rect.height as usize {
            if self.scroll_row != 0 {
                self.scroll_row = 0;
                return true;
            }
            return false;
        }
        if self.selected_row_index >= self.formatted_rows.len() {
            return false;
        }
        let avail = self.draw_rect.height as usize - self.header_height();
        let (top0, _h) = self.selected_extent();
        let mut top = top0;
        let mut page: usize = 0;
        let ghost s0 = self.selected_row_index as int;
        proof {
            lemma_sum_heights_step(hs, s0);
            lemma_page_down_bounds(hs, s0, s0, top0 as int, 0, avail as int);
        }
        while page < avail && self.selected_row_index < self.formatted_rows.len() - 1
            invariant
                hs == self.heights(),
                s0 <= self.selected_row_index < hs.len(),
                0 <= s0 < hs.len(),
                s0 == old(self).selected_row_index,
                hs.len() == self.formatted_rows@.len(),
                top + hs[s0] == sum_heights(hs, self.selected_row_index + 1),
                top0 <= top,
                page == top - top0,
                sum_heights(hs, hs.len() as int) <= usize::MAX,
                page_down_loop(hs, old(self).selected_row_index as int, top0 as int, 0, avail as int)
                    == page_down_loop(hs, self.selected_row_index as int, top as int, page as int, avail as int),
                self.formatted_rows == old(self).formatted_rows,
                self.formatted_header == old(self).formatted_header,
                self.rows == old(self).rows,
                self.header == old(self).header,
                self.columns == old(self).columns,
                self.draw_rect == old(self).draw_rect,
                self.width == old(self).width,
                self.rows_height == old(self).rows_height,
                self.widget_id == old(self).widget_id,
                self.scroll_row == old(self).scroll_row,
                self.scroll_column == old(self).scroll_column,
            decreases hs.len() - self.selected_row_index,
        {
            let i = self.selected_row_index;
            proof {
                lemma_sum_heights_step(hs, i + 1);
                lemma_sum_heights_mono(hs, i + 2, hs.len() as int);
            }
            self.selected_row_index = i + 1;
            assert(hs[i + 1] == self.formatted_rows@[i + 1].lines_v().len());
            let h = self.formatted_rows[i + 1].lines.len();
            top = top + h;
            page = page + h;
        }
        let diff = top - top0;
        if diff > 0 {
            let d32 = trunc_u32(diff);
            self.scroll_row = self.scroll_row + d32;
            self.clamp_scroll_row();
            true
        } else {
            false
        }
    }

    /// Handles a key; see [`Table::nav_event`].  Enter on an existing row
    /// sends [`SelectTableRow`]; the result asks for a redraw where the
    /// view changed.
    pub fn handle_event(&mut self, event: &Event, broker: &mut MessageBroker) -> (r: ActionFlags)
        requires
            old(self).event_ok(*event),
        ensures
            final(self).selected_row_index == old(self).nav_event(*event).sel,
            final(self).scroll_row == old(self).nav_event(*event).scroll_row,
            final(self).scroll_column == old(self).nav_event(*event).scroll_column,
            r.bits == if old(self).nav_event(*event).redraw { 1u32 } else { 0u32 },
            old(self).nav_event(*event).select ==> final(broker).messages@ == old(broker).messages@.push(Message {
                data: MessageData::SelectTableRow(SelectTableRow { widget_id: old(self).widget_id, row_index: old(self).selected_row_index }),
                propergate: true,
            }),
            !old(self).nav_event(*event).select ==> final(broker).messages@ == old(broker).messages@,
            final(self).formatted_rows == old(self).formatted_rows,
            final(self).formatted_header == old(self).formatted_header,
            final(self).rows == old(self).rows,
            final(self).header == old(self).header,
            final(self).columns == old(self).columns,
            final(self).draw_rect == old(self).draw_rect,
            final(self).width == old(self).width,
            final(self).rows_height == old(self).rows_height,
            final(self).widget_id == old(self).widget_id,
    {
        let redraw = ActionFlags::dirty();
        let none = ActionFlags::empty();
        match *event {
            Event::KeyPress { ctrl: false, alt: false, shift: false, key: Key::Enter } => {
                if self.selected_row_index < self.rows.len() {
                    broker.dispatch_message(Message {
                        data: MessageData::SelectTableRow(SelectTableRow {
                            widget_id: self.widget_id,
                            row_index: self.selected_row_index,
                        }),
                        propergate: true,
                    });
                }
                none
            },
            Event::KeyPress { ctrl: false, alt, shift: false, key: Key::Up } => {
                if alt {
                    if self.scroll_row > 0 {
                        self.scroll_row = self.scroll_row - 1;
                        return redraw;
                    }
                } else if self.selected_row_index > 0 {
                    self.selected_row_index = self.selected_row_index - 1;
                    self.after_selection_up();
                    return redraw;
                }
                none
            },
            Event::KeyPress { ctrl: false, alt: false, shift: false, key: Key::Home } => {
                if self.selected_row_index > 0 {
                    self.selected_row_index = 0;
                    self.after_selection_up();
                    return redraw;
                }
                none
            },
            Event::KeyPress { ctrl: false, alt, shift: false, key: Key::Down } => {
                if alt {
                    if self.scroll_row < u32::MAX {
                        let scroll_row = self.scroll_row;
                        self.scroll_row = self.scroll_row + 1;
                        self.clamp_scroll_row();
                        if self.scroll_row != scroll_row {
                            return redraw;
                        }
                    }
                } else if self.formatted_rows.len() == 0 {
                    if self.selected_row_index != 0 || self.scroll_row != 0 {
                        self.selected_row_index = 0;
                        self.scroll_row = 0;
                        return redraw;
                    }
                } else if self.selected_row_index < self.formatted_rows.len() - 1 {
                    self.selected_row_index = self.selected_row_index + 1;
                    self.after_selection_down();
                    return redraw;
                }
                none
            },
            Event::KeyPress { ctrl: false, alt: false, shift: false, key: Key::End } => {
                if self.formatted_rows.len() == 0 {
                    if self.selected_row_index != 0 || self.scroll_row != 0 {
                        self.selected_row_index = 0;
                        self.scroll_row = 0;
                        return redraw;
                    }
                } else if self.selected_row_index < self.formatted_rows.len() - 1 {
                    self.selected_row_index = self.formatted_rows.len() - 1;
                    self.after_selection_down();
                    return redraw;
                }
                none
            },
            Event::KeyPress { ctrl: false, alt: false, shift: false, key: Key::Left } => {
                if self.scroll_column > 0 {
                    self.scroll_column = self.scroll_column - 1;
                    return redraw;
                }
                none
            },
            Event::KeyPress { ctrl: false, alt: false, shift: false, key: Key::Right } => {
                if self.scroll_column < u32::MAX {
                    let scroll_column = self.scroll_column;
                    self.scroll_column = self.scroll_column + 1;
                    self.clamp_scroll_column();
                    if self.scroll_column != scroll_column {
                        return redraw;
                    }
                }
                none
            },
            Event::KeyPress { ctrl: true, alt: false, shift: false, key: Key::Home } => {
                if self.scroll_column > 0 {
                    self.scroll_column = 0;
                    return redraw;
                }
                none
            },
            Event::KeyPress { ctrl: true, alt: false, shift: false, key: Key::End } => {
                if self.scroll_column < u32::MAX {
                    if self.draw_rect.width as usize > self.width {
                        if self.scroll_column != 0 {
                            self.scroll_column = 0;
                            return redraw;
                        }
                    } else {
                        let max_overflow = trunc_u32(self.width - self.draw_rect.width as usize);
                        if self.scroll_column != max_overflow {
                            self.scroll_column = max_overflow;
                            return redraw;
                        }
                    }
                }
                none
            },
            Event::KeyPress { ctrl: false, alt: false, shift: false, key: Key::PageUp } => {
                if self.page_up_exec() { redraw } else { none }
            },
            Event::KeyPress { ctrl: false, alt: false, shift: false, key: Key::PageDown } => {
                if self.page_down_exec() { redraw } else { none }
            },
            _ => none,
        }
    }
}

} // verus!

verus! {

impl Table {
    /// Places the table and keeps its scroll position inside it.
    pub fn set_draw_rect(&mut self, rect: &Rect)
        requires
            old(self).heights_fit(),
        ensures
            final(self).draw_rect == *rect,
            final(self).scroll_row == clamp_scroll(old(self).total_h(), rect.height as nat, old(self).scroll_row),
            final(self).scroll_column == clamp_scroll(old(self).width as nat, rect.width as nat, old(self).scroll_column),
            final(self).selected_row_index == old(self).selected_row_index,
            final(self).formatted_rows == old(self).formatted_rows,
            final(self).formatted_header == old(self).formatted_header,
            final(self).rows == old(self).rows,
            final(self).header == old(self).header,
            final(self).columns == old(self).columns,
            final(self).width == old(self).width,
            final(self).rows_height == old(self).rows_height,
            final(self).widget_id == old(self).widget_id,
    {
        self.draw_rect = *rect;
        self.clamp_scroll_row();
        self.clamp_scroll_column();
    }

    /// Replaces the columns and the header by those of `column_defs`, each
    /// column with no width yet.
    pub fn set_columns(&mut self, column_defs: Vec<ColumnDef>)
        ensures
            final(self).columns@.len() == column_defs@.len(),
            final(self).header@.len() == column_defs@.len(),
            forall|i: int| 0 <= i < column_defs@.len() ==>
                #[trigger] final(self).columns@[i] == (Column { width: 0, align: column_defs@[i].align })
                && final(self).header@[i] == column_defs@[i].header,
            final(self).rows == old(self).rows,
    {
        self.columns.clear();
        self.header.clear();
        let ghost defs = column_defs@;
        let total = column_defs.len();
        let mut rest = column_defs;
        let mut i: usize = 0;
        while rest.len() > 0
            invariant
                i + rest@.len() == defs.len(),
                defs.len() == total,
                rest@ == defs.skip(i as int),
                self.columns@.len() == i,
                self.header@.len() == i,
                forall|k: int| 0 <= k < i ==>
                    #[trigger] self.columns@[k] == (Column { width: 0, align: defs[k].align })
                    && self.header@[k] == defs[k].header,
                self.rows == old(self).rows,
            decreases rest@.len(),
        {
            let def = rest.remove(0);
            assert(def == defs[i as int]);
            self.columns.push(Column::new(def.align));
            self.header.push(def.header);
            assert(rest@ =~= defs.skip(i + 1));
            i += 1;
        }
    }

    /// A table with `header` and `rows`, one column per alignment, laid
    /// out by [`Table::update`].
    pub fn with_data(header: Vec<RichText>, rows: Vec<Vec<RichText>>, align: &[Align], widget_id: WidgetId) -> (r: Self)
        requires
            update_fits(align@.map_values(|a: Align| Column { width: 0, align: a }), header@, rows@),
        ensures
            ({
                let g = gather_all(align@.map_values(|a: Align| Column { width: 0, align: a }), header@, rows@, rows@.len());
                &&& r.columns@ == g
                &&& r.formatted_header.lines_v() == formatted_row(g, row_lines(header@))
                &&& r.formatted_rows@.len() == rows@.len()
                &&& forall|i: int| 0 <= i < rows@.len() ==>
                        (#[trigger] r.formatted_rows@[i]).lines_v() == formatted_row(g, row_lines(rows@[i]@))
                &&& r.rows_height == rows_height_sum(g, rows@, rows@.len())
                &&& r.width == table_width(g)
            }),
            r.header == header,
            r.rows == rows,
            r.widget_id == widget_id,
            r.selected_row_index == 0,
            r.scroll_row == 0,
            r.scroll_column == 0,
    {
        let mut columns: Vec<Column> = Vec::new();
        let mut i: usize = 0;
        while i < align.len()
            invariant
                i <= align@.len(),
                columns@ == align@.take(i as int).map_values(|a: Align| Column { width: 0, align: a }),
            decreases align.len() - i,
        {
            columns.push(Column::new(align[i]));
            assert(columns@ =~= align@.take(i + 1).map_values(|a: Align| Column { width: 0, align: a }));
            i += 1;
        }
        assert(align@.take(i as int) =~= align@);
        let mut table = Table {
            columns,
            header,
            rows,
            formatted_header: RichText::new(),
            formatted_rows: Vec::new(),
            draw_rect: Rect::default(),
            widget_id,
            width: 0,
            rows_height: 0,
            selected_row_index: 0,
            scroll_row: 0,
            scroll_column: 0,
        };
        table.update();
        table
    }
}

} // verus!
