use vstd::prelude::*;
use crate::rich_text::RichText;
use crate::style::{FontWeight, TermIOState};
use crate::table::Table;
use crate::rich_text_view::RichTextView;
use crate::widget::WidgetData;
use crate::draw::{
    DrawOp, Op, WindowSize, RowPlanV, ops_view, push_op, append_ops, rich_draw_spec, rich_widths_ok,
    rich_lines_fit, block_widths_v, region_ok, region_spec, rows_ops, lemma_rows_ops_push, table_head_ops,
    table_layout_spec, table_layout, plan_rows, skip_rows, heights_v, heights_from, plans_view, row_background_value,
    lemma_region_ok_from_top, max_int, min_int, blank_lines, blank_lines_ok, push_blank_lines,
};

verus! {

/// Facts about the rows a layout draws: their indices are rows of the
/// body, in order from `i` on, and their places stay within the body.
pub proof fn lemma_plan_rows_bounds(hs: Seq<int>, hh: int, scroll: int, i: int, body: int, avail: int)
    requires
        0 <= i,
        0 <= body,
        0 <= hh,
        0 <= scroll,
        forall|k: int| 0 <= k < hs.len() ==> #[trigger] hs[k] >= 0,
    ensures
        ({
            let plans = plan_rows(hs, hh, scroll, i, body, avail).0;
            forall|k: int| 0 <= k < plans.len() ==> i <= #[trigger] plans[k].index < hs.len()
                && plans[k].offset <= hh + body + heights_from(hs, i)
                && hh <= plans[k].offset
                && 0 <= plans[k].crop_row <= scroll
                && plans[k].avail <= avail
        }),
        body <= plan_rows(hs, hh, scroll, i, body, avail).1 <= body + heights_from(hs, i),
    decreases hs.len() - i,
{
    if i < hs.len() {
        if avail > hs[i] {
            lemma_plan_rows_bounds(hs, hh, scroll, i + 1, body + hs[i], avail - hs[i]);
            let rest = plan_rows(hs, hh, scroll, i + 1, body + hs[i], avail - hs[i]).0;
            let obh = body - scroll;
            let d = RowPlanV { index: i, offset: hh + max_int(obh, 0), crop_row: -min_int(obh, 0), avail: avail };
            let plans = plan_rows(hs, hh, scroll, i, body, avail).0;
            assert(plans == seq![d] + rest);
            assert forall|k: int| 0 <= k < plans.len() implies i <= #[trigger] plans[k].index < hs.len()
                && plans[k].offset <= hh + body + heights_from(hs, i)
                && hh <= plans[k].offset
                && 0 <= plans[k].crop_row <= scroll
                && plans[k].avail <= avail by {
                crate::draw::lemma_heights_from_nonneg(hs, i + 1);
                if k > 0 {
                    assert(plans[k] == rest[k - 1]);
                }
            }
        } else {
            crate::draw::lemma_heights_from_nonneg(hs, i + 1);
        }
    }
}

pub proof fn lemma_skip_rows_bounds(hs: Seq<int>, hh: int, scroll: int, i: int, body: int)
    requires
        0 <= i,
        0 <= body,
        forall|k: int| 0 <= k < hs.len() ==> #[trigger] hs[k] >= 0,
    ensures
        i <= skip_rows(hs, hh, scroll, i, body).0,
        0 <= skip_rows(hs, hh, scroll, i, body).1,
        skip_rows(hs, hh, scroll, i, body).1 + heights_from(hs, skip_rows(hs, hh, scroll, i, body).0)
            == body + heights_from(hs, i),
    decreases hs.len() - i,
{
    if i < hs.len() && body + hs[i] - scroll < hh {
        lemma_skip_rows_bounds(hs, hh, scroll, i + 1, body + hs[i]);
    }
}

/// The rows that a layout draws are rows of the table, placed within the
/// header and the rows' heights; the rows passed are within their heights.
pub proof fn lemma_layout_bounds(hs: Seq<int>, hh: int, height: int, scroll: int)
    requires
        0 <= hh,
        0 <= scroll,
        forall|k: int| 0 <= k < hs.len() ==> #[trigger] hs[k] >= 0,
    ensures
        forall|j: int| 0 <= j < table_layout_spec(hs, hh, height, scroll).0.len() ==>
            0 <= #[trigger] table_layout_spec(hs, hh, height, scroll).0[j].index < hs.len()
            && hh <= table_layout_spec(hs, hh, height, scroll).0[j].offset <= hh + heights_from(hs, 0),
        table_layout_spec(hs, hh, height, scroll).1 <= heights_from(hs, 0),
{
    lemma_skip_rows_bounds(hs, hh, scroll, 0, 0);
    let sk = skip_rows(hs, hh, scroll, 0, 0);
    lemma_plan_rows_bounds(hs, hh, scroll, sk.0, sk.1, height - hh + scroll);
}

/// Heights of the lines of the texts `rows`.
pub open spec fn text_heights(rows: Seq<RichText>) -> Seq<int> {
    rows.map_values(|r: RichText| r.lines@.len() as int)
}

fn text_heights_exec(rows: &[RichText]) -> (r: Vec<usize>)
    ensures
        heights_v(r@) == text_heights(rows@),
{
    let mut r: Vec<usize> = Vec::new();
    let mut i: usize = 0;
    while i < rows.len()
        invariant
            i <= rows@.len(),
            heights_v(r@) == text_heights(rows@.take(i as int)),
        decreases rows.len() - i,
    {
        let ghost r0 = r@;
        r.push(rows[i].lines.len());
        proof {
            assert(text_heights(rows@.take(i + 1)) =~= text_heights(rows@.take(i as int)).push(rows@[i as int].lines@.len() as int));
            assert(heights_v(r@) =~= heights_v(r0).push(rows@[i as int].lines@.len() as int));
        }
        i += 1;
    }
    assert(rows@.take(i as int) =~= rows@);
    r
}

impl Table {
    /// The drawing of a body row of this table, placed by its row plan.
    pub open spec fn row_draw(&self, window: WindowSize, rw: Seq<Seq<Seq<Seq<i32>>>>, row: int, column: int) -> spec_fn(RowPlanV) -> Seq<Op> {
        |p: RowPlanV| rich_draw_spec(
            self.formatted_rows@[p.index].lines_v(),
            rw[p.index],
            self.formatted_rows@[p.index].width as int,
            window,
            row + p.offset,
            column,
            p.crop_row,
            self.scroll_column as int,
            self.draw_rect.width as int,
            p.avail,
        )
    }

    /// The rows of the body that a drawing shows; see [`table_layout_spec`].
    pub open spec fn plans(&self) -> Seq<RowPlanV> {
        table_layout_spec(text_heights(self.formatted_rows@), self.formatted_header.lines@.len() as int,
            self.draw_rect.height as int, self.scroll_row as int).0
    }

    /// The drawing of the table at `row`, `column`: its colours are set, the
    /// header is drawn in bold, then the rows of the body that fit below it,
    /// each on its own background; nothing of the body where the header
    /// does not fit.
    pub open spec fn draw_spec(&self, window: WindowSize, hw: Seq<Seq<Seq<i32>>>, rw: Seq<Seq<Seq<Seq<i32>>>>, row: int, column: int) -> Seq<Op> {
        let width = self.draw_rect.width as int;
        let height = self.draw_rect.height as int;
        let header = rich_draw_spec(self.formatted_header.lines_v(), hw, self.formatted_header.width as int, window,
            row, column, 0, self.scroll_column as int, width, height);
        if height < self.formatted_header.lines@.len() {
            table_head_ops(header) + seq![Op::EndScope, Op::EndScope]
        } else {
            table_head_ops(header)
                + rows_ops(self.plans(), self.scroll_row as int, self.selected_row_index as int, self.row_draw(window, rw, row, column))
                + seq![Op::EndScope, Op::EndScope]
        }
    }

    /// Every body row that a drawing shows can be drawn.
    pub open spec fn rows_drawable(&self, window: WindowSize, rw: Seq<Seq<Seq<Seq<i32>>>>, row: int, column: int) -> bool {
        &&& rw.len() == self.formatted_rows@.len()
        &&& forall|i: int| 0 <= i < self.formatted_rows@.len() ==>
            rich_widths_ok(#[trigger] self.formatted_rows@[i].lines_v(), rw[i])
            && rich_lines_fit(self.formatted_rows@[i].lines_v())
        &&& forall|k: int| 0 <= k < self.plans().len() ==> region_ok(region_spec(
            self.formatted_rows@[#[trigger] self.plans()[k].index].lines@.len() as int,
            Some(self.formatted_rows@[self.plans()[k].index].width as int),
            window.rows as int, window.columns as int,
            row + self.plans()[k].offset, column, self.plans()[k].crop_row, self.scroll_column as int,
            self.draw_rect.width as int, self.plans()[k].avail))
    }

    /// The operations that draw the table with its rectangle moved by
    /// `parent_row`, `parent_column`; `header_widths` and `row_widths` give
    /// the widths of the characters of the formatted header and rows.
    pub fn draw(
        &self,
        window: WindowSize,
        header_widths: &[Vec<Vec<i32>>],
        row_widths: &[Vec<Vec<Vec<i32>>>],
        parent_row: i32,
        parent_column: i32,
    ) -> (r: Vec<DrawOp>)
        requires
            i32::MIN < self.draw_rect.row + parent_row <= i32::MAX,
            i32::MIN < self.draw_rect.column + parent_column <= i32::MAX,
            rich_widths_ok(self.formatted_header.lines_v(), block_widths_v(header_widths@)),
            rich_lines_fit(self.formatted_header.lines_v()),
            self.formatted_header.lines@.len() <= self.draw_rect.height ==>
                self.formatted_header.lines@.len() + heights_from(text_heights(self.formatted_rows@), 0)
                + self.scroll_row <= i32::MAX,
            self.formatted_header.lines@.len() <= self.draw_rect.height ==>
                self.draw_rect.height - self.formatted_header.lines@.len() + self.scroll_row <= u32::MAX,
            forall|k: int| 0 <= k < self.plans().len() ==>
                self.draw_rect.row + parent_row + #[trigger] self.plans()[k].offset <= i32::MAX,
            self.rows_drawable(window, row_widths@.map_values(|w: Vec<Vec<Vec<i32>>>| block_widths_v(w@)),
                self.draw_rect.row + parent_row, self.draw_rect.column + parent_column),
        ensures
            ops_view(r@) == self.draw_spec(window, block_widths_v(header_widths@),
                row_widths@.map_values(|w: Vec<Vec<Vec<i32>>>| block_widths_v(w@)),
                self.draw_rect.row + parent_row, self.draw_rect.column + parent_column),
    {
        let ghost rw = row_widths@.map_values(|w: Vec<Vec<Vec<i32>>>| block_widths_v(w@));
        let row = self.draw_rect.row + parent_row;
        let column = self.draw_rect.column + parent_column;
        let width = self.draw_rect.width;
        let height = self.draw_rect.height;
        let mut ops: Vec<DrawOp> = Vec::new();
        push_op(&mut ops, DrawOp::Scoped(TermIOState::DefaultBackground(crate::styles::odd_row_background_value())));
        push_op(&mut ops, DrawOp::Scoped(TermIOState::DefaultForeground(crate::styles::table_foreground_value())));
        push_op(&mut ops, DrawOp::FontWeight(FontWeight::Bold));
        proof {
            lemma_region_ok_from_top(self.formatted_header.lines@.len() as int, Some(self.formatted_header.width as int),
                window.rows as int, window.columns as int, row as int, column as int, self.scroll_column as int,
                width as int, height as int);
        }
        let header = self.formatted_header.draw_cropped(window, header_widths, row, column, 0, self.scroll_column, width, height);
        append_ops(&mut ops, header);
        push_op(&mut ops, DrawOp::FontWeight(FontWeight::Normal));
        let ghost head = ops_view(ops@);
        let hh = self.formatted_header.lines.len();
        if (height as usize) < hh {
            push_op(&mut ops, DrawOp::EndScope);
            push_op(&mut ops, DrawOp::EndScope);
            assert(ops_view(ops@) =~= self.draw_spec(window, block_widths_v(header_widths@), rw, row as int, column as int));
            return ops;
        }
        let heights = text_heights_exec(self.formatted_rows.as_slice());
        let ghost hv = text_heights(self.formatted_rows@);
        proof {
            assert(heights_v(heights@) == hv);
            assert forall|k: int| 0 <= k < hv.len() implies #[trigger] hv[k] >= 0 by {}
            crate::draw::lemma_heights_from_nonneg(hv, 0);
        }
        let (plans, _body, _avail) = table_layout(heights.as_slice(), hh, height, self.scroll_row);
        proof {
            lemma_layout_bounds(hv, hh as int, height as int, self.scroll_row as int);
            assert(plans_view(plans@) == self.plans());
        }
        let ghost draw_row = self.row_draw(window, rw, row as int, column as int);
        let mut k: usize = 0;
        while k < plans.len()
            invariant
                k <= plans@.len(),
                plans_view(plans@) == self.plans(),
                draw_row == self.row_draw(window, rw, row as int, column as int),
                rw == row_widths@.map_values(|w: Vec<Vec<Vec<i32>>>| block_widths_v(w@)),
                self.rows_drawable(window, rw, row as int, column as int),
                row == self.draw_rect.row + parent_row,
                column == self.draw_rect.column + parent_column,
                i32::MIN < row <= i32::MAX,
                i32::MIN < column <= i32::MAX,
                width == self.draw_rect.width,
                hh == self.formatted_header.lines@.len(),
                hh + heights_from(hv, 0) + self.scroll_row <= i32::MAX,
                hv == text_heights(self.formatted_rows@),
                forall|j: int| 0 <= j < self.plans().len() ==> 0 <= #[trigger] self.plans()[j].index < hv.len()
                    && hh <= self.plans()[j].offset <= hh + heights_from(hv, 0),
                forall|j: int| 0 <= j < self.plans().len() ==> row + #[trigger] self.plans()[j].offset <= i32::MAX,
                ops_view(ops@) == head + rows_ops(plans_view(plans@).take(k as int), self.scroll_row as int,
                    self.selected_row_index as int, draw_row),
            decreases plans.len() - k,
        {
            let p = plans[k];
            proof {
                assert(plans_view(plans@)[k as int] == p@);
                assert(self.plans()[k as int] == p@);
                assert(self.plans()[k as int].index == p.index);
                assert(self.plans()[k as int].offset == p.offset);
                assert(0 <= p.index < hv.len());
                assert(hv.len() == self.formatted_rows@.len());
                assert(rich_widths_ok(self.formatted_rows@[p.index as int].lines_v(), rw[p.index as int]));
                assert(rw[p.index as int] == block_widths_v(row_widths@[p.index as int]@));
            }
            let ghost before = ops_view(ops@);
            push_op(&mut ops, DrawOp::Scoped(TermIOState::DefaultBackground(
                row_background_value(p.index, self.scroll_row, self.selected_row_index))));
            let rt = &self.formatted_rows[p.index];
            let d = rt.draw_cropped(window, row_widths[p.index].as_slice(), row + p.offset as i32, column,
                p.crop_row, self.scroll_column, width, p.avail);
            append_ops(&mut ops, d);
            push_op(&mut ops, DrawOp::EndScope);
            proof {
                assert(plans_view(plans@).take(k + 1) =~= plans_view(plans@).take(k as int).push(p@));
                lemma_rows_ops_push(plans_view(plans@).take(k as int), p@, self.scroll_row as int,
                    self.selected_row_index as int, draw_row);
                assert(draw_row(p@) == rich_draw_spec(self.formatted_rows@[p.index as int].lines_v(), rw[p.index as int],
                    self.formatted_rows@[p.index as int].width as int, window, row + p.offset, column as int,
                    p.crop_row as int, self.scroll_column as int, width as int, p.avail as int));
            }
            k += 1;
        }
        push_op(&mut ops, DrawOp::EndScope);
        push_op(&mut ops, DrawOp::EndScope);
        assert(plans_view(plans@).take(k as int) =~= plans_view(plans@));
        assert(ops_view(ops@) =~= self.draw_spec(window, block_widths_v(header_widths@), rw, row as int, column as int));
        ops
    }
}

impl RichTextView {
    /// Where the blank lines below the text start.
    pub open spec fn blank_row(&self, row: int) -> int {
        (((row + max_int(self.rich_text.lines@.len() - self.scroll_row, 0)) as i32) as u32) as int
    }

    /// The drawing of the view at `row`, `column`: the visible part of the
    /// text, then, where the text is shorter than the view, the default
    /// colours and blank lines below it.
    pub open spec fn draw_spec(&self, window: WindowSize, rw: Seq<Seq<Seq<i32>>>, row: int, column: int) -> Seq<Op> {
        let width = self.widget_data.rect.width as int;
        let height = self.widget_data.rect.height as int;
        let h = self.rich_text.lines@.len() as int;
        rich_draw_spec(self.rich_text.lines_v(), rw, self.rich_text.width as int, window, row, column,
            self.scroll_row as int, self.scroll_column as int, width, height)
            + (if height > h {
                seq![Op::FgDefault, Op::BgDefault] + blank_lines(window.columns as int, column, width, self.blank_row(row), height - h)
            } else {
                seq![]
            })
    }

    /// The view can be drawn at `row`, `column`.
    pub open spec fn drawable(&self, window: WindowSize, rw: Seq<Seq<Seq<i32>>>, row: int, column: int) -> bool {
        &&& i32::MIN < row <= i32::MAX
        &&& i32::MIN < column <= i32::MAX
        &&& self.widget_data.rect.height > self.rich_text.lines@.len() ==> self.rich_text.lines@.len() <= i32::MAX
            && self.scroll_row <= i32::MAX
            && row + max_int(self.rich_text.lines@.len() - self.scroll_row, 0) <= i32::MAX
        &&& rich_widths_ok(self.rich_text.lines_v(), rw)
        &&& rich_lines_fit(self.rich_text.lines_v())
        &&& region_ok(region_spec(self.rich_text.lines@.len() as int, Some(self.rich_text.width as int),
            window.rows as int, window.columns as int, row, column, self.scroll_row as int, self.scroll_column as int,
            self.widget_data.rect.width as int, self.widget_data.rect.height as int))
        &&& self.widget_data.rect.height > self.rich_text.lines@.len() ==> blank_lines_ok(window.columns as int, column,
            self.widget_data.rect.width as int, self.blank_row(row), self.widget_data.rect.height - self.rich_text.lines@.len())
    }

    /// The operations that draw the view where it needs drawing, with its
    /// rectangle moved by `parent_row`, `parent_column`; `widths` gives the
    /// widths of the characters of the text.
    pub fn draw(&mut self, window: WindowSize, widths: &[Vec<Vec<i32>>], parent_row: i32, parent_column: i32) -> (r: Vec<DrawOp>)
        requires
            old(self).widget_data.dirty && old(self).widget_data.rect.width != 0 && old(self).widget_data.rect.height != 0
                ==> old(self).drawable(window, block_widths_v(widths@), old(self).widget_data.rect.row + parent_row,
                    old(self).widget_data.rect.column + parent_column),
        ensures
            !old(self).widget_data.dirty ==> r@.len() == 0 && *final(self) == *old(self),
            old(self).widget_data.dirty && (old(self).widget_data.rect.width == 0 || old(self).widget_data.rect.height == 0)
                ==> r@.len() == 0 && final(self).widget_data == (WidgetData { dirty: false, ..old(self).widget_data })
                && final(self).rich_text == old(self).rich_text && final(self).scroll_row == old(self).scroll_row
                && final(self).scroll_column == old(self).scroll_column,
            old(self).widget_data.dirty && old(self).widget_data.rect.width != 0 && old(self).widget_data.rect.height != 0
                ==> ops_view(r@) == old(self).draw_spec(window, block_widths_v(widths@), old(self).widget_data.rect.row + parent_row,
                    old(self).widget_data.rect.column + parent_column)
                && *final(self) == *old(self),
    {
        if !self.widget_data.dirty {
            return Vec::new();
        }
        let rect = self.widget_data.rect;
        if rect.width == 0 || rect.height == 0 {
            self.set_dirty(false);
            return Vec::new();
        }
        let row = rect.row + parent_row;
        let column = rect.column + parent_column;
        let mut ops = self.rich_text.draw_cropped(window, widths, row, column, self.scroll_row, self.scroll_column,
            rect.width, rect.height);
        let h = self.rich_text.lines.len();
        if rect.height as usize > h {
            let off: i32 = h as i32 - self.scroll_row as i32;
            let lr: i32 = if off > 0 { row + off } else { row };
            push_op(&mut ops, DrawOp::FgDefault);
            push_op(&mut ops, DrawOp::BgDefault);
            push_blank_lines(&mut ops, window.columns, column, rect.width, lr as u32, rect.height - h as u32);
        }
        assert(ops_view(ops@) =~= self.draw_spec(window, block_widths_v(widths@), row as int, column as int));
        ops
    }
}

} // verus!
